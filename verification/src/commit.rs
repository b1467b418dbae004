//! What the library knows of a commit.

use vstd::prelude::*;

verus! {

/// What stands for the summary of a commit that has none, where commits
/// are listed.
pub const NO_SUMMARY: &'static str = "<no summary>";

/// The title under which a commit without a summary is filed and headed.
pub const NO_TITLE: &'static str = "<no title>";

/// A commit as the repository reports it: its full hash and its summary
/// line. The summary is absent when the commit has no readable first line.
#[derive(Debug)]
pub struct CommitInfo {
    pub id: String,
    pub summary: Option<String>,
}

/// The mathematical value of a [`CommitInfo`].
pub ghost struct CommitInfoView {
    pub id: Seq<char>,
    pub summary: Option<Seq<char>>,
}

impl View for CommitInfo {
    type V = CommitInfoView;

    open spec fn view(&self) -> CommitInfoView {
        CommitInfoView { id: self.id@, summary: self.summary.deep_view() }
    }
}

impl DeepView for CommitInfo {
    type V = CommitInfoView;

    open spec fn deep_view(&self) -> CommitInfoView {
        self@
    }
}

impl Clone for CommitInfo {
    fn clone(&self) -> (copy: Self)
        ensures
            copy@ == self@,
    {
        let summary = match &self.summary {
            Some(s) => Some(s.clone()),
            None => None,
        };
        CommitInfo { id: self.id.clone(), summary }
    }
}

impl CommitInfo {
    pub fn new(id: String, summary: Option<String>) -> (info: Self)
        ensures
            info.id == id,
            info.summary == summary,
    {
        CommitInfo { id, summary }
    }
}

} // verus!
