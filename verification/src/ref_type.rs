//! The kinds of reference one commit can make to another, ordered by strength.

use vstd::prelude::*;

verus! {

/// How a commit refers to an earlier one. The variants are ordered by the
/// strength of the follow-up: `Note < Fix < Revert`.
#[derive(Clone, Copy, Debug, PartialEq, Eq, PartialOrd, Ord, Hash, Structural)]
pub enum RefType {
    /// A bare mention of the hash and title.
    Note,
    /// An explicit `Fixes:` annotation.
    Fix,
    /// The commit reverts the other one.
    Revert,
}

impl RefType {
    /// Position of the variant in the order `Note < Fix < Revert`.
    pub open spec fn rank(self) -> nat {
        match self {
            RefType::Note => 0,
            RefType::Fix => 1,
            RefType::Revert => 2,
        }
    }

    /// The stronger of two reference types.
    pub open spec fn stronger(self, other: RefType) -> RefType {
        if self.rank() >= other.rank() {
            self
        } else {
            other
        }
    }

    /// Whether a search follows an edge of this type: notes are skipped
    /// when `no_notices` is set, fixes and reverts are always followed.
    pub open spec fn follows(self, no_notices: bool) -> bool {
        self != RefType::Note || !no_notices
    }

    /// Position of the variant in the order `Note < Fix < Revert`.
    pub fn strength(self) -> (r: u8)
        ensures
            r == self.rank(),
    {
        match self {
            RefType::Note => 0,
            RefType::Fix => 1,
            RefType::Revert => 2,
        }
    }

    /// The stronger of two reference types.
    pub fn max(self, other: RefType) -> (r: RefType)
        ensures
            r == self.stronger(other),
    {
        if self.strength() >= other.strength() {
            self
        } else {
            other
        }
    }

    /// Whether a search follows an edge of this type.
    pub fn should_follow(self, no_notices: bool) -> (r: bool)
        ensures
            r == self.follows(no_notices),
    {
        match self {
            RefType::Note => !no_notices,
            _ => true,
        }
    }
}

/// The rank orders the variants totally: equal ranks mean equal variants,
/// and the stronger of two types bounds both and is one of them.
pub proof fn lemma_rank_orders(a: RefType, b: RefType)
    ensures
        a.rank() == b.rank() <==> a == b,
        a.stronger(b).rank() >= a.rank(),
        a.stronger(b).rank() >= b.rank(),
        a.stronger(b) == a || a.stronger(b) == b,
{
}

} // verus!
