//! The training session: cards move from `remaining` to `completed` or
//! `failed` as they are answered, and failed cards can be taken up again.

use crate::card::{is_answer_for_card, joined, Card};
use crate::text::{to_chars, trim, trimmed};
use rand::{thread_rng, Rng};
use vstd::multiset::Multiset;
use vstd::prelude::*;

verus! {

/// The cards of a session, each in exactly one of three piles.
pub struct Training {
    /// Cards still to be asked; the last one is asked next.
    pub remaining: Vec<Card>,
    /// Cards answered wrongly since the last repeat.
    pub failed: Vec<Card>,
    /// Cards answered correctly.
    pub completed: Vec<Card>,
}

/// Where a session stands.
#[derive(Clone, Copy, Debug, PartialEq, Eq, Structural)]
pub enum Phase {
    /// A card is waiting to be answered.
    Active,
    /// No card is waiting, and some failed: the user decides on a repeat.
    Reviewing,
    /// Nothing is left to ask, or the user has declined a repeat.
    Done,
}

/// What the session says to a line of input.
pub enum Reply {
    /// The answer was accepted.
    Correct,
    /// The answer was not accepted; the text lists what would have been.
    Wrong(String),
    /// The failed cards are taken up again.
    Repeat,
    /// The session is over.
    Stop,
}

/// The outcome of one line of input: the reply and the phase that follows.
pub struct Step {
    pub reply: Reply,
    pub next: Phase,
}

/// The three piles of a session as sequences.
pub struct TrainingView {
    pub remaining: Seq<Card>,
    pub failed: Seq<Card>,
    pub completed: Seq<Card>,
}

/// A reply with its text as a sequence of characters.
pub enum ReplyView {
    Correct,
    Wrong(Seq<char>),
    Repeat,
    Stop,
}

impl View for Training {
    type V = TrainingView;

    open spec fn view(&self) -> TrainingView {
        TrainingView {
            remaining: self.remaining@,
            failed: self.failed@,
            completed: self.completed@,
        }
    }
}

impl View for Reply {
    type V = ReplyView;

    open spec fn view(&self) -> ReplyView {
        match self {
            Reply::Correct => ReplyView::Correct,
            Reply::Wrong(text) => ReplyView::Wrong(text@),
            Reply::Repeat => ReplyView::Repeat,
            Reply::Stop => ReplyView::Stop,
        }
    }
}

/// A reply to the question whether to repeat counts as a yes where it is
/// `yes`, letter for letter, or empty.
pub open spec fn affirms(reply: Seq<char>) -> bool {
    reply == seq!['y', 'e', 's'] || reply.len() == 0
}

impl TrainingView {
    /// All cards of the session, each as often as the piles hold it.
    pub open spec fn deck(self) -> Multiset<Card> {
        self.remaining.to_multiset().add(self.failed.to_multiset()).add(
            self.completed.to_multiset(),
        )
    }

    /// The phase that the piles determine.
    pub open spec fn phase(self) -> Phase {
        if self.remaining.len() > 0 {
            Phase::Active
        } else if self.failed.len() > 0 {
            Phase::Reviewing
        } else {
            Phase::Done
        }
    }

    /// The session after its pending card was answered with `answer`: the
    /// card has gone to `completed` where the answer is accepted, and to
    /// `failed` otherwise.
    pub open spec fn answer(self, answer: Seq<char>) -> TrainingView
        recommends
            self.remaining.len() > 0,
    {
        let card = self.remaining.last();
        if card@.accepts(answer) {
            TrainingView {
                remaining: self.remaining.drop_last(),
                failed: self.failed,
                completed: self.completed.push(card),
            }
        } else {
            TrainingView {
                remaining: self.remaining.drop_last(),
                failed: self.failed.push(card),
                completed: self.completed,
            }
        }
    }

    /// The session after the failed cards were taken up again: they are
    /// the remaining ones, in the order in which they failed.
    pub open spec fn repeat(self) -> TrainingView
        recommends
            self.remaining.len() == 0,
    {
        TrainingView { remaining: self.failed, failed: Seq::empty(), completed: self.completed }
    }

    /// The session after one line of input, white space around the line
    /// set aside. While a card is waiting the line answers it. Where the
    /// user decides on a repeat, a yes takes up the failed cards again and
    /// anything else leaves the piles as they are. A session with nothing
    /// left stays as it is.
    pub open spec fn step(self, input: Seq<char>) -> TrainingView {
        match self.phase() {
            Phase::Active => self.answer(trimmed(input)),
            Phase::Reviewing => if affirms(trimmed(input)) {
                self.repeat()
            } else {
                self
            },
            Phase::Done => self,
        }
    }

    /// What the session says to one line of input.
    pub open spec fn reply(self, input: Seq<char>) -> ReplyView {
        match self.phase() {
            Phase::Active => if self.remaining.last()@.accepts(trimmed(input)) {
                ReplyView::Correct
            } else {
                ReplyView::Wrong(joined(self.remaining.last()@.answers))
            },
            Phase::Reviewing => if affirms(trimmed(input)) {
                ReplyView::Repeat
            } else {
                ReplyView::Stop
            },
            Phase::Done => ReplyView::Stop,
        }
    }

    /// The phase that follows one line of input: that of the piles, but
    /// for a declined repeat, which ends the session.
    pub open spec fn next(self, input: Seq<char>) -> Phase {
        if self.reply(input) is Stop {
            Phase::Done
        } else {
            self.step(input).phase()
        }
    }

    /// The session after the lines `inputs`, one step for each.
    pub open spec fn run(self, inputs: Seq<Seq<char>>) -> TrainingView
        decreases inputs.len(),
    {
        if inputs.len() == 0 {
            self
        } else {
            self.run(inputs.drop_last()).step(inputs.last())
        }
    }
}

impl Training {
    /// A session that asks the cards of `order` from the last to the first.
    pub fn from_order(order: Vec<Card>) -> (training: Training)
        ensures
            training.remaining == order,
            training.failed@.len() == 0,
            training.completed@.len() == 0,
            training@.deck() == order@.to_multiset(),
    {
        broadcast use vstd::seq_lib::group_to_multiset_ensures;

        Training { remaining: order, failed: Vec::new(), completed: Vec::new() }
    }

    /// The phase of the session.
    pub fn phase(&self) -> (phase: Phase)
        ensures
            phase == self@.phase(),
    {
        if self.remaining.len() > 0 {
            Phase::Active
        } else if self.failed.len() > 0 {
            Phase::Reviewing
        } else {
            Phase::Done
        }
    }

    /// The card that is asked next, if one is waiting.
    pub fn pending(&self) -> (card: Option<&Card>)
        ensures
            match card {
                Some(card) => self.remaining@.len() > 0 && *card == self.remaining@.last(),
                None => self.remaining@.len() == 0,
            },
    {
        let n = self.remaining.len();
        if n > 0 {
            Some(&self.remaining[n - 1])
        } else {
            None
        }
    }

    /// Takes up the failed cards again, in the order in which they failed.
    pub fn repeat_failed(&mut self)
        requires
            old(self).remaining@.len() == 0,
        ensures
            final(self)@ == old(self)@.repeat(),
            final(self)@.deck() == old(self)@.deck(),
    {
        std::mem::swap(&mut self.remaining, &mut self.failed);
        proof {
            assert(self.failed@ =~= Seq::empty());
            lemma_repeat_keeps_deck(old(self)@);
        }
    }
}

/// Calls `rand::Rng::shuffle` on the generator that `rand::thread_rng`
/// hands out. The shuffle only swaps elements of the slice, so whatever
/// order comes back holds the same cards as before: that is all the
/// contract claims. The call panics where the system gives no entropy.
#[verifier::external_body]
fn shuffle(cards: &mut Vec<Card>)
    ensures
        final(cards)@.to_multiset() == old(cards)@.to_multiset(),
{
    thread_rng().shuffle(cards.as_mut_slice());
}

/// A session on `cards` in a random order.
pub fn make_training(cards: Vec<Card>) -> (training: Training)
    ensures
        training.remaining@.to_multiset() == cards@.to_multiset(),
        training.remaining@.len() == cards@.len(),
        training.failed@.len() == 0,
        training.completed@.len() == 0,
        training@.deck() == cards@.to_multiset(),
{
    let mut order = cards;
    shuffle(&mut order);
    proof {
        order@.to_multiset_ensures();
        cards@.to_multiset_ensures();
    }
    Training::from_order(order)
}

/// Takes the pending card as answered with `answer`: it goes to
/// `completed` where the answer is accepted, and to `failed` otherwise.
pub fn answer_card(answer: &str, training: &mut Training) -> (correct: bool)
    requires
        old(training).remaining@.len() > 0,
    ensures
        correct == old(training).remaining@.last()@.accepts(answer@),
        final(training)@ == old(training)@.answer(answer@),
        final(training)@.deck() == old(training)@.deck(),
{
    proof {
        lemma_answer_keeps_deck(old(training)@, answer@);
    }
    let card = training.remaining.pop().unwrap();
    if is_answer_for_card(answer, &card) {
        training.completed.push(card);
        true
    } else {
        training.failed.push(card);
        false
    }
}

/// Tells whether `reply` agrees to a repeat.
pub fn wants_repeat(reply: &str) -> (yes: bool)
    ensures
        yes == affirms(reply@),
{
    let chars = to_chars(reply);
    let yes = chars.len() == 0 || (chars.len() == 3 && chars[0] == 'y' && chars[1] == 'e'
        && chars[2] == 's');
    assert(yes ==> affirms(reply@)) by {
        if chars@.len() == 3 && yes {
            assert(reply@ =~= seq!['y', 'e', 's']);
        }
    }
    yes
}

/// One step of a session on a line of input, white space around it set
/// aside. While a card is waiting the line is taken as its answer. Where
/// the user decides on a repeat, the line is the decision: a yes takes up
/// the failed cards again, anything else ends the session and leaves them
/// where they are. A session with nothing left stays as it is.
pub fn train_step(training: &mut Training, input: &str) -> (step: Step)
    ensures
        final(training)@ == old(training)@.step(input@),
        step.reply@ == old(training)@.reply(input@),
        step.next == old(training)@.next(input@),
        final(training)@.deck() == old(training)@.deck(),
{
    proof {
        lemma_step_keeps_deck(old(training)@, input@);
    }
    let line = trim(input);
    match training.phase() {
        Phase::Active => {
            let reply = if answer_card(line, training) {
                Reply::Correct
            } else {
                let n = training.failed.len();
                Reply::Wrong(training.failed[n - 1].answers_text())
            };
            Step { reply: reply, next: training.phase() }
        },
        Phase::Reviewing => {
            if wants_repeat(line) {
                training.repeat_failed();
                Step { reply: Reply::Repeat, next: Phase::Active }
            } else {
                Step { reply: Reply::Stop, next: Phase::Done }
            }
        },
        Phase::Done => Step { reply: Reply::Stop, next: Phase::Done },
    }
}

/// Answering the pending card moves it and leaves the deck as it is.
pub proof fn lemma_answer_keeps_deck(training: TrainingView, answer: Seq<char>)
    requires
        training.remaining.len() > 0,
    ensures
        training.answer(answer).deck() == training.deck(),
{
    broadcast use vstd::seq_lib::group_to_multiset_ensures;

    assert(training.remaining =~= training.remaining.drop_last().push(training.remaining.last()));
}

/// Taking up the failed cards again leaves the deck as it is.
pub proof fn lemma_repeat_keeps_deck(training: TrainingView)
    requires
        training.remaining.len() == 0,
    ensures
        training.repeat().deck() == training.deck(),
{
    broadcast use vstd::seq_lib::group_to_multiset_ensures;
}

/// Whatever the session and the input, a step loses no card, adds none and
/// doubles none: the piles hold the same deck before and after it.
pub proof fn lemma_step_keeps_deck(training: TrainingView, input: Seq<char>)
    ensures
        training.step(input).deck() == training.deck(),
{
    match training.phase() {
        Phase::Active => lemma_answer_keeps_deck(training, trimmed(input)),
        Phase::Reviewing => lemma_repeat_keeps_deck(training),
        Phase::Done => {},
    }
}

/// However long a session runs and whatever is entered, its piles hold
/// the deck that it began with.
pub proof fn lemma_run_keeps_deck(training: TrainingView, inputs: Seq<Seq<char>>)
    ensures
        training.run(inputs).deck() == training.deck(),
    decreases inputs.len(),
{
    if inputs.len() > 0 {
        lemma_run_keeps_deck(training, inputs.drop_last());
        lemma_step_keeps_deck(training.run(inputs.drop_last()), inputs.last());
    }
}

/// Where nothing is left to ask and nothing has failed, every card of
/// the deck is completed.
pub proof fn lemma_done_all_completed(training: TrainingView)
    requires
        training.phase() == Phase::Done,
    ensures
        training.completed.to_multiset() == training.deck(),
{
    broadcast use vstd::seq_lib::group_to_multiset_ensures;
}

/// A card that a session holds once lies in exactly one of its piles.
pub proof fn lemma_one_pile(training: TrainingView, card: Card)
    requires
        training.deck().count(card) == 1,
    ensures
        training.remaining.contains(card) || training.failed.contains(card)
            || training.completed.contains(card),
        !(training.remaining.contains(card) && training.failed.contains(card)),
        !(training.remaining.contains(card) && training.completed.contains(card)),
        !(training.failed.contains(card) && training.completed.contains(card)),
{
    broadcast use vstd::seq_lib::group_to_multiset_ensures;
}

/// The piles together hold as many cards as the deck.
pub proof fn lemma_deck_len(training: TrainingView)
    ensures
        training.deck().len() == training.remaining.len() + training.failed.len()
            + training.completed.len(),
{
    broadcast use vstd::seq_lib::group_to_multiset_ensures;
}

} // verus!
