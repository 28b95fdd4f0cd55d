//! Writing a dictionary by hand: one line of input at a time.

use crate::card::{parse_card, parsed, Card};
use crate::text::{trim, trimmed};
use vstd::prelude::*;
use vstd::string::StringSliceAdditionalSpecFns;

verus! {

/// What became of one line of input.
pub struct Entry {
    /// The line was a card and has been added.
    pub added: bool,
    /// The line was no card and the user should be told what to enter.
    pub hint: bool,
    /// The line ends the input.
    pub done: bool,
}

/// A line that ends the input: at most one byte long, its line end
/// included, and nothing but white space.
pub open spec fn bare(input: Seq<char>, bytes: nat) -> bool {
    trimmed(input).len() == 0 && bytes <= 1
}

/// Takes one line of input, as it was read and with its line end. Without
/// the white space around it the line is read as a card and, if it is one,
/// added to `cards`. A bare line end, or no input at all, ends the input;
/// any other line that is no card calls for a hint.
pub fn create_step(cards: &mut Vec<Card>, input: &str) -> (entry: Entry)
    ensures
        match parsed(trimmed(input@)) {
            Some(card) => {
                &&& entry.added
                &&& final(cards)@.len() == old(cards)@.len() + 1
                &&& final(cards)@.drop_last() == old(cards)@
                &&& final(cards)@.last()@ == card
            },
            None => !entry.added && final(cards)@ == old(cards)@,
        },
        entry.done == bare(input@, input.spec_bytes().len()),
        entry.hint == (!entry.added && !entry.done),
{
    let line = trim(input);
    let done = line.is_empty() && input.as_bytes().len() <= 1;
    match parse_card(line) {
        Some(card) => {
            cards.push(card);
            Entry { added: true, hint: false, done: done }
        },
        None => Entry { added: false, hint: !done, done: done },
    }
}

} // verus!
