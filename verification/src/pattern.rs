//! The textual patterns by which references are recognised, and the regular
//! expression engine that searches for them.
//!
//! The engine is the `regex` crate. Nothing in this crate reasons about how
//! it matches: what a search returns is given a name, and the functions
//! built on a search say exactly what they make of that result.

use vstd::prelude::*;

verus! {

/// A reference to a commit: an optional `Fixes: ` label, at least eight
/// lower-case hexadecimal digits, and the title in parentheses and quotes.
pub const COMMIT_REF: &'static str = "(Fixes: )?([0-9a-f]{8,}) ?\\(\"([^\"]+)\"\\)";

/// The summary line of a revert, with the title of the reverted commit.
pub const REVERT_HEADER: &'static str = "Revert \"([^\"]+)\"";

/// The sentence in the body of a revert that names the reverted commit.
pub const REVERT_HASH: &'static str = "This reverts commit ([0-9a-f]+)";

/// A description of a commit by hash and title.
pub const HASH_AND_TITLE: &'static str = "([0-9a-f]{8,}) ?\\(\"([^\"]+)\"\\)";

/// One match of a pattern: for each capture group, in the order of the
/// opening parentheses and starting with the whole match as group 0, the
/// text that the group matched, or `None` if it took no part in the match.
pub type Groups = Vec<Option<String>>;

/// Whether `Regex::new` accepts `pattern`.
pub uninterp spec fn pattern_compiles(pattern: Seq<char>) -> bool;

/// What `Regex::captures` finds for `pattern` in `text`: the groups of the
/// leftmost match, if there is a match.
pub uninterp spec fn first_match(pattern: Seq<char>, text: Seq<char>) -> Option<
    Seq<Option<Seq<char>>>,
>;

/// What `Regex::captures_iter` yields for `pattern` in `text`: the groups of
/// the successive non-overlapping matches, from left to right.
pub uninterp spec fn all_matches(pattern: Seq<char>, text: Seq<char>) -> Seq<
    Seq<Option<Seq<char>>>,
>;

/// The engine accepts all four patterns of this crate.
pub open spec fn patterns_ready() -> bool {
    &&& pattern_compiles(COMMIT_REF@)
    &&& pattern_compiles(REVERT_HEADER@)
    &&& pattern_compiles(REVERT_HASH@)
    &&& pattern_compiles(HASH_AND_TITLE@)
}

/// Calls `regex::Regex::new` and says whether it returned a regular
/// expression. Trusted: the outcome depends on the pattern alone, and a
/// pattern that is rejected comes back as an error, never as a panic.
#[verifier::external_body]
pub(crate) fn compiles(pattern: &str) -> (ok: bool)
    ensures
        ok == pattern_compiles(pattern@),
{
    regex::Regex::new(pattern).is_ok()
}

/// Calls `regex::Regex::captures` on the compiled pattern and copies the
/// groups of the match out of `regex::Captures::iter`. Trusted: the search
/// does not panic, and what it finds depends on the pattern and the text
/// alone.
#[verifier::external_body]
pub(crate) fn captures(pattern: &str, text: &str) -> (found: Option<Groups>)
    requires
        pattern_compiles(pattern@),
    ensures
        found.deep_view() == first_match(pattern@, text@),
{
    let re = regex::Regex::new(pattern).unwrap();
    re.captures(text).map(|c| c.iter().map(|g| g.map(|m| m.as_str().to_string())).collect())
}

/// Calls `regex::Regex::captures_iter` on the compiled pattern and copies
/// the groups of every match out of `regex::Captures::iter`. Trusted: the
/// search does not panic, and what it finds depends on the pattern and the
/// text alone.
#[verifier::external_body]
pub(crate) fn captures_iter(pattern: &str, text: &str) -> (found: Vec<Groups>)
    requires
        pattern_compiles(pattern@),
    ensures
        found.deep_view() == all_matches(pattern@, text@),
{
    let re = regex::Regex::new(pattern).unwrap();
    re.captures_iter(text).map(
        |c| c.iter().map(|g| g.map(|m| m.as_str().to_string())).collect(),
    ).collect()
}

/// Whether the engine accepts every pattern of this crate. The functions
/// that search for a pattern require it; a caller that has seen `true`
/// here once may call them from then on.
pub fn patterns_compile() -> (ok: bool)
    ensures
        ok == patterns_ready(),
{
    compiles(COMMIT_REF) && compiles(REVERT_HEADER) && compiles(REVERT_HASH) && compiles(
        HASH_AND_TITLE,
    )
}

} // verus!
