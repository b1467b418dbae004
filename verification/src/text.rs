//! String operations of the standard library that the rest of the crate
//! relies on, with their meaning over sequences of characters.

use vstd::prelude::*;

verus! {

/// `needle` occurs in `hay` starting at position `at`.
pub open spec fn occurs_at(needle: Seq<char>, hay: Seq<char>, at: int) -> bool {
    &&& 0 <= at
    &&& at + needle.len() <= hay.len()
    &&& hay.subrange(at, at + needle.len()) == needle
}

/// `needle` occurs somewhere in `hay` as a contiguous run of characters.
/// The empty sequence occurs in every sequence.
pub open spec fn is_substring(needle: Seq<char>, hay: Seq<char>) -> bool {
    exists|at: int| occurs_at(needle, hay, at)
}

/// `text` with every occurrence of the character `from` replaced by the
/// characters of `to`.
pub open spec fn replaced(text: Seq<char>, from: char, to: Seq<char>) -> Seq<char>
    decreases text.len(),
{
    if text.len() == 0 {
        Seq::empty()
    } else {
        replaced(text.drop_last(), from, to) + (if text.last() == from {
            to
        } else {
            seq![text.last()]
        })
    }
}

/// Equality of string slices, `str`'s `PartialEq::eq`. Trusted: two slices
/// are equal exactly when they hold the same characters.
pub assume_specification[ <str as PartialEq>::eq ](a: &str, b: &str) -> (r: bool)
    ensures
        r == (a@ == b@),
;

/// Calls `str::contains` with a string slice as the pattern. Trusted: it
/// says whether `needle` occurs in `hay`.
#[verifier::external_body]
pub(crate) fn contains(hay: &str, needle: &str) -> (found: bool)
    ensures
        found == is_substring(needle@, hay@),
{
    hay.contains(needle)
}

/// Calls `str::replace` with a character as the pattern. Trusted: the new
/// string is `text` with each occurrence of `from` replaced by `to`.
#[verifier::external_body]
pub(crate) fn replace(text: &str, from: char, to: &str) -> (out: String)
    ensures
        out@ == replaced(text@, from, to@),
{
    text.replace(from, to)
}

/// Replacing a character by one character changes the text position by
/// position.
pub proof fn lemma_replaced_by_one(text: Seq<char>, from: char, to: char)
    ensures
        replaced(text, from, seq![to]) == text.map_values(
            |c: char|
                if c == from {
                    to
                } else {
                    c
                },
        ),
    decreases text.len(),
{
    if text.len() > 0 {
        lemma_replaced_by_one(text.drop_last(), from, to);
    }
}

/// Every sequence occurs in itself, and the empty sequence occurs
/// everywhere.
pub proof fn lemma_substring_basics(a: Seq<char>, b: Seq<char>)
    ensures
        is_substring(a, a),
        is_substring(Seq::empty(), b),
{
    assert(a.subrange(0, a.len() as int) == a);
    assert(occurs_at(a, a, 0));
    assert(b.subrange(0, 0) == Seq::<char>::empty());
    assert(occurs_at(Seq::empty(), b, 0));
}

} // verus!
