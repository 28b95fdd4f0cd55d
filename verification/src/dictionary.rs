//! A dictionary as lines of text: one card per line.

use crate::card::{lemma_parse_render, parse_card, parsed, rendered, Card, CardView};
use vstd::prelude::*;

verus! {

/// The cards that `lines` hold, in order: one for each line that is a
/// card.
pub open spec fn cards_in(lines: Seq<Seq<char>>) -> Seq<CardView>
    decreases lines.len(),
{
    if lines.len() == 0 {
        Seq::empty()
    } else {
        let before = cards_in(lines.drop_last());
        match parsed(lines.last()) {
            Some(card) => before.push(card),
            None => before,
        }
    }
}

/// The positions, counted from one, of the lines that are no card, in
/// rising order.
pub open spec fn malformed_in(lines: Seq<Seq<char>>) -> Seq<usize>
    decreases lines.len(),
{
    if lines.len() == 0 {
        Seq::empty()
    } else {
        let before = malformed_in(lines.drop_last());
        match parsed(lines.last()) {
            Some(_) => before,
            None => before.push(lines.len() as usize),
        }
    }
}

/// Every line is either a card or reported as malformed.
pub proof fn lemma_lines_accounted(lines: Seq<Seq<char>>)
    ensures
        cards_in(lines).len() + malformed_in(lines).len() == lines.len(),
    decreases lines.len(),
{
    if lines.len() > 0 {
        lemma_lines_accounted(lines.drop_last());
    }
}

/// What reading a dictionary gives: the cards, and the positions of the
/// lines that were skipped.
pub struct Loaded {
    /// The cards, in the order of their lines.
    pub cards: Vec<Card>,
    /// The positions, counted from one, of the lines that are no card.
    pub malformed: Vec<usize>,
}

/// Reads the lines of a dictionary. A line that is no card is skipped and
/// its position noted; the others become cards, in order.
pub fn read_dictionary(lines: &Vec<String>) -> (loaded: Loaded)
    ensures
        loaded.cards.deep_view() == cards_in(lines.deep_view()),
        loaded.malformed@ == malformed_in(lines.deep_view()),
        loaded.cards@.len() + loaded.malformed@.len() == lines@.len(),
{
    let mut cards: Vec<Card> = Vec::new();
    let mut skipped: Vec<usize> = Vec::new();
    let ghost texts = lines.deep_view();
    let mut i: usize = 0;
    while i < lines.len()
        invariant
            i <= lines@.len(),
            texts == lines.deep_view(),
            cards.deep_view() == cards_in(texts.take(i as int)),
            skipped@ == malformed_in(texts.take(i as int)),
        decreases lines@.len() - i,
    {
        assert(texts.take(i + 1).drop_last() =~= texts.take(i as int));
        match parse_card(lines[i].as_str()) {
            Some(card) => {
                cards.push(card);
            },
            None => {
                skipped.push(i + 1);
            },
        }
        i = i + 1;
    }
    proof {
        assert(texts.take(i as int) =~= texts);
        lemma_lines_accounted(texts);
    }
    Loaded { cards: cards, malformed: skipped }
}

/// The lines of the dictionary that holds `cards`.
pub open spec fn written(cards: Seq<CardView>) -> Seq<Seq<char>> {
    cards.map_values(|card: CardView| rendered(card))
}

/// Writes a dictionary as lines of text: one line for each card, in order.
pub fn write_dictionary(cards: &Vec<Card>) -> (lines: Vec<String>)
    ensures
        lines.deep_view() == written(cards.deep_view()),
{
    let mut lines: Vec<String> = Vec::new();
    let mut i: usize = 0;
    while i < cards.len()
        invariant
            i <= cards@.len(),
            lines@.len() == i,
            forall|j: int| 0 <= j < i ==> (#[trigger] lines@[j])@ == rendered(cards@[j]@),
        decreases cards@.len() - i,
    {
        lines.push(cards[i].render());
        i = i + 1;
    }
    lines
}

/// Reading the lines that were written for plain cards gives the cards
/// back, and finds no line malformed.
pub proof fn lemma_read_written(cards: Seq<CardView>)
    requires
        forall|i: int| 0 <= i < cards.len() ==> (#[trigger] cards[i]).plain(),
    ensures
        cards_in(written(cards)) == cards,
        malformed_in(written(cards)) == Seq::<usize>::empty(),
    decreases cards.len(),
{
    if cards.len() > 0 {
        let before = cards.drop_last();
        assert(written(cards).drop_last() =~= written(before));
        lemma_read_written(before);
        lemma_parse_render(cards.last());
    }
}

} // verus!
