//! Cards and their one-line text form, `query, answer, answer, ...`.

use crate::fields::{
    fields, find_comma, lemma_fields_append, lemma_fields_from, lemma_fields_single,
    lemma_trimmed_field_is_plain, plain,
};
use crate::text::{
    eq_ignore_case_chars, lemma_trimmed_after_space, same_ignoring_case, to_chars, trim_bounds,
    trimmed,
};
use vstd::prelude::*;
use vstd::string::StringExecFns;

verus! {

/// What a card says: a query and the answers accepted for it, in order.
pub struct CardView {
    pub query: Seq<char>,
    pub answers: Seq<Seq<char>>,
}

impl CardView {
    /// `candidate` equals one of the answers, setting aside the case of
    /// ASCII letters.
    pub open spec fn accepts(self, candidate: Seq<char>) -> bool {
        exists|i: int|
            0 <= i < self.answers.len() && same_ignoring_case(
                #[trigger] self.answers[i],
                candidate,
            )
    }
}

/// A query with at least one accepted answer.
pub struct Card {
    query: String,
    answers: Vec<String>,
}

impl View for Card {
    type V = CardView;

    closed spec fn view(&self) -> CardView {
        CardView { query: self.query@, answers: self.answers.deep_view() }
    }
}

impl DeepView for Card {
    type V = CardView;

    open spec fn deep_view(&self) -> CardView {
        self.view()
    }
}

impl Card {
    #[verifier::type_invariant]
    spec fn has_answer(self) -> bool {
        self.answers@.len() > 0
    }

    /// The query.
    pub fn query(&self) -> (query: &String)
        ensures
            query@ == self@.query,
    {
        &self.query
    }

    /// The accepted answers: there is at least one.
    pub fn answers(&self) -> (answers: &Vec<String>)
        ensures
            answers.deep_view() == self@.answers,
            answers@.len() > 0,
    {
        proof {
            use_type_invariant(self);
        }
        &self.answers
    }
}

/// The card that asks `query` and accepts `answers`.
pub fn make_card(query: String, answers: Vec<String>) -> (card: Card)
    requires
        answers@.len() > 0,
    ensures
        card@ == (CardView { query: query@, answers: answers.deep_view() }),
{
    Card { query: query, answers: answers }
}

/// What a line of text says as a card. The first field is the query and
/// every further field is an answer, each without the white space around
/// it. A line without a comma has no answer and is no card.
pub open spec fn parsed(line: Seq<char>) -> Option<CardView> {
    let parts = fields(line);
    if parts.len() >= 2 {
        Some(
            CardView {
                query: trimmed(parts[0]),
                answers: parts.skip(1).map_values(|part: Seq<char>| trimmed(part)),
            },
        )
    } else {
        None
    }
}

fn field_text(input: &str, chars: &Vec<char>, from: usize, to: usize) -> (text: String)
    requires
        chars@ == input@,
        from <= to <= chars@.len(),
    ensures
        text@ == trimmed(input@.subrange(from as int, to as int)),
{
    let (a, b) = trim_bounds(chars, from, to);
    String::from_str(input.substring_char(a, b))
}

/// Reads a line as a query and its answers.
pub fn parse_new_card(input: &str) -> (r: Option<(String, Vec<String>)>)
    ensures
        match r {
            Some((query, answers)) => parsed(input@) == Some(
                CardView { query: query@, answers: answers.deep_view() },
            ) && answers@.len() > 0,
            None => parsed(input@) is None,
        },
{
    let chars = to_chars(input);
    let n = chars.len();
    let ghost s = input@;
    let first_end = find_comma(&chars, 0);
    proof {
        assert(s.skip(0) =~= s);
        lemma_fields_from(s, 0);
    }
    if first_end == n {
        return None;
    }
    let query = field_text(input, &chars, 0, first_end);
    let mut answers: Vec<String> = Vec::new();
    let ghost mut done: Seq<Seq<char>> = seq![s.subrange(0, first_end as int)];
    let mut start: usize = first_end + 1;
    let mut more = true;
    while more
        invariant
            chars@ == s,
            input@ == s,
            n == s.len(),
            done.len() == answers@.len() + 1,
            query@ == trimmed(done[0]),
            forall|i: int| 0 <= i < answers@.len() ==> (#[trigger] answers@[i])@ == trimmed(done[i + 1]),
            more ==> start <= n && fields(s) == done + fields(s.skip(start as int)),
            !more ==> fields(s) == done && answers@.len() > 0,
        decreases n - start + if more { 1int } else { 0int },
    {
        let end = find_comma(&chars, start);
        let answer = field_text(input, &chars, start, end);
        proof {
            lemma_fields_from(s, start as int);
            done = done.push(s.subrange(start as int, end as int));
        }
        answers.push(answer);
        if end < n {
            start = end + 1;
        } else {
            more = false;
        }
    }
    proof {
        let parts = fields(s);
        let views = parts.skip(1).map_values(|part: Seq<char>| trimmed(part));
        assert(answers.deep_view() =~= views);
    }
    Some((query, answers))
}

/// Reads a line as a card.
pub fn parse_card(line: &str) -> (r: Option<Card>)
    ensures
        match r {
            Some(card) => parsed(line@) == Some(card@),
            None => parsed(line@) is None,
        },
{
    match parse_new_card(line) {
        Some((query, answers)) => Some(make_card(query, answers)),
        None => None,
    }
}

/// The texts `parts` in a row, with a comma and a space between each two.
pub open spec fn joined(parts: Seq<Seq<char>>) -> Seq<char>
    decreases parts.len(),
{
    if parts.len() == 0 {
        Seq::empty()
    } else if parts.len() == 1 {
        parts[0]
    } else {
        joined(parts.drop_last()) + seq![',', ' '] + parts.last()
    }
}

/// The line that stands for a card: its query, then each answer behind a
/// comma and a space.
pub open spec fn rendered(card: CardView) -> Seq<char> {
    card.query + seq![',', ' '] + joined(card.answers)
}

/// The texts `parts` in a row, with a comma and a space between each two.
pub fn join(parts: &Vec<String>) -> (line: String)
    ensures
        line@ == joined(parts.deep_view()),
{
    let mut line = String::new();
    let ghost views = parts.deep_view();
    let mut i: usize = 0;
    while i < parts.len()
        invariant
            i <= parts@.len(),
            views == parts.deep_view(),
            line@ == joined(views.take(i as int)),
        decreases parts@.len() - i,
    {
        proof {
            reveal_strlit(", ");
            assert(views.take(i + 1).drop_last() =~= views.take(i as int));
        }
        if i > 0 {
            line.append(", ");
        }
        line.append(parts[i].as_str());
        i = i + 1;
    }
    assert(views.take(i as int) =~= views);
    line
}

impl Card {
    /// The card as a line of text.
    pub fn render(&self) -> (line: String)
        ensures
            line@ == rendered(self@),
    {
        let mut line = self.query.clone();
        proof {
            reveal_strlit(", ");
        }
        line.append(", ");
        let answers = join(&self.answers);
        line.append(answers.as_str());
        line
    }

    /// The accepted answers as one text, with a comma and a space between
    /// each two.
    pub fn answers_text(&self) -> (text: String)
        ensures
            text@ == joined(self@.answers),
    {
        join(&self.answers)
    }
}

/// Tells whether `answer` is accepted for `card`: whether it equals one of
/// the card's answers, setting aside the case of ASCII letters.
pub fn is_answer_for_card(answer: &str, card: &Card) -> (accepted: bool)
    ensures
        accepted == card@.accepts(answer@),
{
    let chars = to_chars(answer);
    let mut i: usize = 0;
    while i < card.answers.len()
        invariant
            i <= card.answers@.len(),
            chars@ == answer@,
            forall|j: int| 0 <= j < i ==> !same_ignoring_case(#[trigger] card@.answers[j], answer@),
        decreases card.answers@.len() - i,
    {
        if eq_ignore_case_chars(card.answers[i].as_str(), &chars) {
            assert(same_ignoring_case(card@.answers[i as int], answer@));
            return true;
        }
        i = i + 1;
    }
    false
}

impl CardView {
    /// The card has an answer, and its query and answers are plain.
    pub open spec fn plain(self) -> bool {
        &&& self.answers.len() > 0
        &&& plain(self.query)
        &&& forall|i: int| 0 <= i < self.answers.len() ==> plain(#[trigger] self.answers[i])
    }
}

/// The fields of a query followed by answers: the query, then each answer
/// with the space that stands before it.
proof fn lemma_fields_rendered(query: Seq<char>, answers: Seq<Seq<char>>)
    requires
        answers.len() > 0,
        !query.contains(','),
        forall|i: int| 0 <= i < answers.len() ==> !(#[trigger] answers[i]).contains(','),
    ensures
        fields(query + seq![',', ' '] + joined(answers)) == seq![query] + answers.map_values(
            |answer: Seq<char>| seq![' '] + answer,
        ),
    decreases answers.len(),
{
    let spaced = |answer: Seq<char>| seq![' '] + answer;
    let last = spaced(answers.last());
    assert(!last.contains(','));
    if answers.len() == 1 {
        assert(query + seq![',', ' '] + joined(answers) =~= query + seq![','] + last);
        lemma_fields_append(query, last);
        lemma_fields_single(query);
    } else {
        let before = answers.drop_last();
        let head = query + seq![',', ' '] + joined(before);
        assert(query + seq![',', ' '] + joined(answers) =~= head + seq![','] + last);
        lemma_fields_rendered(query, before);
        lemma_fields_append(head, last);
    }
}

/// Reading the line of a plain card gives the card back.
pub proof fn lemma_parse_render(card: CardView)
    requires
        card.plain(),
    ensures
        parsed(rendered(card)) == Some(card),
{
    lemma_fields_rendered(card.query, card.answers);
    let parts = fields(rendered(card));
    let answers = parts.skip(1).map_values(|part: Seq<char>| trimmed(part));
    assert forall|i: int| 0 <= i < answers.len() implies answers[i] == card.answers[i] by {
        lemma_trimmed_after_space(card.answers[i]);
    }
    assert(answers =~= card.answers);
}

/// Every card that a line gives is plain.
pub proof fn lemma_parsed_is_plain(line: Seq<char>)
    requires
        parsed(line) is Some,
    ensures
        parsed(line)->0.plain(),
{
    let card = parsed(line)->0;
    lemma_trimmed_field_is_plain(line, 0);
    assert forall|i: int| 0 <= i < card.answers.len() implies plain(
        #[trigger] card.answers[i],
    ) by {
        lemma_trimmed_field_is_plain(line, i + 1);
    }
}

/// A card that was read from a line is read again from its own line:
/// writing a dictionary and reading it back loses nothing.
pub proof fn lemma_parse_render_parse(line: Seq<char>)
    requires
        parsed(line) is Some,
    ensures
        parsed(rendered(parsed(line)->0)) == parsed(line),
{
    lemma_parsed_is_plain(line);
    lemma_parse_render(parsed(line)->0);
}

} // verus!
