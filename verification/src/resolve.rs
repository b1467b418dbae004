//! Holding what the repository found for a mention against the mention:
//! the hash decides, the title is advisory.

use crate::commit::{CommitInfo, CommitInfoView};
use crate::extract::{RefEntry, RefEntryView};
use crate::text::{contains, is_substring, lemma_substring_basics};
use vstd::prelude::*;

verus! {

/// How the title that a text gives for a commit compares with the
/// commit's own title.
#[derive(Clone, Copy, Debug, PartialEq, Eq, Structural)]
pub enum TitleMatch {
    /// The two are the same.
    Exact,
    /// They differ, but one is contained in the other.
    Similar,
    /// Neither is contained in the other.
    Mismatch,
}

/// How `got` compares with the commit's own title `actual`.
pub open spec fn title_match(actual: Seq<char>, got: Seq<char>) -> TitleMatch {
    if actual == got {
        TitleMatch::Exact
    } else if is_substring(actual, got) || is_substring(got, actual) {
        TitleMatch::Similar
    } else {
        TitleMatch::Mismatch
    }
}

/// The two titles are sort of the same: one is contained in the other.
/// Equal titles are.
pub open spec fn titles_agree(actual: Seq<char>, got: Seq<char>) -> bool {
    is_substring(actual, got) || is_substring(got, actual)
}

/// A commit that a mention was resolved to: its full hash, and whether the
/// title recorded in the mention is the commit's summary.
#[derive(Debug)]
pub struct ResolvedCommit {
    pub id: String,
    pub title_matches: bool,
}

/// The mathematical value of a [`ResolvedCommit`].
pub ghost struct ResolvedCommitView {
    pub id: Seq<char>,
    pub title_matches: bool,
}

impl View for ResolvedCommit {
    type V = ResolvedCommitView;

    open spec fn view(&self) -> ResolvedCommitView {
        ResolvedCommitView { id: self.id@, title_matches: self.title_matches }
    }
}

impl DeepView for ResolvedCommit {
    type V = ResolvedCommitView;

    open spec fn deep_view(&self) -> ResolvedCommitView {
        self@
    }
}

/// What a mention resolves to, given what the repository found for its
/// hash. Nothing found: the mention is dropped. Otherwise the commit found
/// is accepted whatever its title; the title matches only if the commit
/// has a summary and the mention quotes it exactly.
pub open spec fn resolution(found: Option<CommitInfoView>, entry: RefEntryView) -> Option<
    ResolvedCommitView,
> {
    match found {
        None => None,
        Some(commit) => Some(
            ResolvedCommitView {
                id: commit.id,
                title_matches: commit.summary == Some(entry.title),
            },
        ),
    }
}

/// Compares the title that a text gives for a commit with the commit's own.
pub fn compare_titles(real_title: &str, got_title: &str) -> (outcome: TitleMatch)
    ensures
        outcome == title_match(real_title@, got_title@),
{
    if real_title.eq(got_title) {
        TitleMatch::Exact
    } else if contains(got_title, real_title) || contains(real_title, got_title) {
        TitleMatch::Similar
    } else {
        TitleMatch::Mismatch
    }
}

/// Whether two titles are sort of the same: true if `real_title` is
/// contained in `got_title` or the other way round.
pub fn check_commit_titles(real_title: &str, got_title: &str) -> (agree: bool)
    ensures
        agree == titles_agree(real_title@, got_title@),
        agree == (title_match(real_title@, got_title@) != TitleMatch::Mismatch),
{
    proof {
        lemma_substring_basics(real_title@, got_title@);
    }
    contains(got_title, real_title) || contains(real_title, got_title)
}

/// Resolves a mention, given what the repository found when it was asked
/// for the commit whose hash begins with the mention's hash.
pub fn get_commit_by_ref_entry(found: Option<&CommitInfo>, ref_entry: &RefEntry) -> (resolved:
    Option<ResolvedCommit>)
    ensures
        resolved.deep_view() == resolution(found.deep_view(), ref_entry@),
{
    match found {
        None => None,
        Some(commit) => {
            let title_matches = match &commit.summary {
                Some(summary) => *summary == ref_entry.title,
                None => false,
            };
            Some(ResolvedCommit { id: commit.id.clone(), title_matches })
        },
    }
}

} // verus!
