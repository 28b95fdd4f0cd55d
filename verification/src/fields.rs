//! The fields of a line: the pieces of text between its commas.

use crate::text::{lemma_trimmed_once, trimmed};
use vstd::prelude::*;

verus! {

/// The number of characters of `s` before its first comma; the length of
/// `s` where it has none.
pub open spec fn comma_at(s: Seq<char>) -> int
    decreases s.len(),
{
    if s.len() == 0 || s.first() == ',' {
        0
    } else {
        1 + comma_at(s.drop_first())
    }
}

/// The fields of `s`: the pieces between its commas, in order. A text
/// with `n` commas has `n + 1` fields, empty ones included.
pub open spec fn fields(s: Seq<char>) -> Seq<Seq<char>>
    decreases s.len(),
{
    let k = comma_at(s);
    if 0 <= k < s.len() {
        seq![s.take(k)] + fields(s.skip(k + 1))
    } else {
        seq![s]
    }
}

/// A text that can stand as a field and be read back as it is: it holds
/// no comma and no white space at either end.
pub open spec fn plain(s: Seq<char>) -> bool {
    !s.contains(',') && trimmed(s) == s
}

/// The first position at or after `from` that holds a comma; the length
/// of `chars` where there is none.
pub fn find_comma(chars: &Vec<char>, from: usize) -> (k: usize)
    requires
        from <= chars@.len(),
    ensures
        from <= k <= chars@.len(),
        k - from == comma_at(chars@.skip(from as int)),
{
    let mut k: usize = from;
    while k < chars.len() && chars[k] != ','
        invariant
            from <= k <= chars@.len(),
            forall|i: int| from <= i < k ==> #[trigger] chars@[i] != ',',
        decreases chars@.len() - k,
    {
        k = k + 1;
    }
    proof {
        lemma_comma_at_is(chars@.skip(from as int), k - from);
    }
    k
}

/// `comma_at(s)` lies within `s`, no comma stands before it, and where it
/// is not the end of `s` a comma stands there.
pub proof fn lemma_comma_at(s: Seq<char>)
    ensures
        0 <= comma_at(s) <= s.len(),
        forall|i: int| 0 <= i < comma_at(s) ==> #[trigger] s[i] != ',',
        comma_at(s) < s.len() ==> s[comma_at(s)] == ',',
    decreases s.len(),
{
    if !(s.len() == 0 || s.first() == ',') {
        let rest = s.drop_first();
        lemma_comma_at(rest);
        assert forall|i: int| 0 <= i < comma_at(s) implies #[trigger] s[i] != ',' by {
            if i > 0 {
                assert(s[i] == rest[i - 1]);
            }
        }
    }
}

/// A position `k` that has no comma before it, and is a comma or the end
/// of `s`, is `comma_at(s)`.
pub proof fn lemma_comma_at_is(s: Seq<char>, k: int)
    requires
        0 <= k <= s.len(),
        forall|i: int| 0 <= i < k ==> #[trigger] s[i] != ',',
        k < s.len() ==> s[k] == ',',
    ensures
        comma_at(s) == k,
    decreases k,
{
    if k > 0 {
        lemma_comma_at_is(s.drop_first(), k - 1);
    }
}

/// The fields of `s` from position `start` on: the piece up to the next
/// comma, then the fields behind that comma.
pub proof fn lemma_fields_from(s: Seq<char>, start: int)
    requires
        0 <= start <= s.len(),
    ensures
        ({
            let end = start + comma_at(s.skip(start));
            &&& start <= end <= s.len()
            &&& end < s.len() ==> fields(s.skip(start)) == seq![s.subrange(start, end)] + fields(
                s.skip(end + 1),
            )
            &&& end == s.len() ==> fields(s.skip(start)) == seq![s.subrange(start, end)]
        }),
{
    let rest = s.skip(start);
    let k = comma_at(rest);
    lemma_comma_at(rest);
    assert(rest.take(k) =~= s.subrange(start, start + k));
    if k < rest.len() {
        assert(rest.skip(k + 1) =~= s.skip(start + k + 1));
    }
}

/// A text without a comma is its own single field.
pub proof fn lemma_fields_single(s: Seq<char>)
    requires
        !s.contains(','),
    ensures
        fields(s) == seq![s],
{
    lemma_comma_at_is(s, s.len() as int);
}

/// A comma and a text without commas behind `s` add that text as one more
/// field.
pub proof fn lemma_fields_append(s: Seq<char>, last: Seq<char>)
    requires
        !last.contains(','),
    ensures
        fields(s + seq![','] + last) == fields(s).push(last),
    decreases s.len(),
{
    let whole = s + seq![','] + last;
    let k = comma_at(s);
    lemma_comma_at(s);
    lemma_comma_at_is(whole, k);
    if k < s.len() {
        let rest = s.skip(k + 1);
        assert(whole.take(k) =~= s.take(k));
        assert(whole.skip(k + 1) =~= rest + seq![','] + last);
        lemma_fields_append(rest, last);
    } else {
        assert(whole.take(k) =~= s);
        assert(whole.skip(k + 1) =~= last);
        lemma_fields_single(last);
    }
}

/// No field holds a comma.
pub proof fn lemma_fields_comma_free(s: Seq<char>, i: int)
    requires
        0 <= i < fields(s).len(),
    ensures
        !fields(s)[i].contains(','),
    decreases s.len(),
{
    lemma_comma_at(s);
    if i > 0 {
        lemma_fields_comma_free(s.skip(comma_at(s) + 1), i - 1);
    }
}

/// Every field is plain once it is trimmed.
pub proof fn lemma_trimmed_field_is_plain(s: Seq<char>, i: int)
    requires
        0 <= i < fields(s).len(),
    ensures
        plain(trimmed(fields(s)[i])),
{
    lemma_fields_comma_free(s, i);
    lemma_trimmed_once(fields(s)[i]);
}

} // verus!
