//! Reading the references to other commits out of one commit's text.

use crate::pattern::{
    all_matches, captures, captures_iter, first_match, patterns_compile, patterns_ready, Groups,
    COMMIT_REF, REVERT_HASH, REVERT_HEADER,
};
use crate::ref_type::RefType;
use crate::text::{lemma_replaced_by_one, replace};
use vstd::prelude::*;

verus! {

/// A mention of another commit, as it stands in a commit message: the hash
/// as written (often abbreviated), the title as quoted, and the kind of
/// reference.
#[derive(Debug)]
pub struct RefEntry {
    pub hash: String,
    pub title: String,
    pub ref_type: RefType,
}

/// The mathematical value of a [`RefEntry`].
pub ghost struct RefEntryView {
    pub hash: Seq<char>,
    pub title: Seq<char>,
    pub ref_type: RefType,
}

impl View for RefEntry {
    type V = RefEntryView;

    open spec fn view(&self) -> RefEntryView {
        RefEntryView { hash: self.hash@, title: self.title@, ref_type: self.ref_type }
    }
}

impl DeepView for RefEntry {
    type V = RefEntryView;

    open spec fn deep_view(&self) -> RefEntryView {
        self@
    }
}

impl Clone for RefEntry {
    fn clone(&self) -> (copy: Self)
        ensures
            copy@ == self@,
    {
        RefEntry { hash: self.hash.clone(), title: self.title.clone(), ref_type: self.ref_type }
    }
}

/// The mention that one match of [`COMMIT_REF`] stands for. Group 1 is the
/// `Fixes: ` label, group 2 the hash, group 3 the title. A match without a
/// hash or a title stands for nothing.
pub open spec fn mention_of(groups: Seq<Option<Seq<char>>>) -> Option<RefEntryView> {
    if groups.len() > 3 && groups[2] is Some && groups[3] is Some {
        Some(
            RefEntryView {
                hash: groups[2]->0,
                title: groups[3]->0,
                ref_type: if groups[1] is Some {
                    RefType::Fix
                } else {
                    RefType::Note
                },
            },
        )
    } else {
        None
    }
}

/// The mentions that a run of matches of [`COMMIT_REF`] stands for, in order.
pub open spec fn mentions_of(matches: Seq<Seq<Option<Seq<char>>>>) -> Seq<RefEntryView> {
    matches.filter_map(|groups: Seq<Option<Seq<char>>>| mention_of(groups))
}

/// The revert that a match of [`REVERT_HEADER`] in the summary and a match
/// of [`REVERT_HASH`] in the message stand for: group 1 of the first is the
/// title, group 1 of the second the hash. Both must be there.
pub open spec fn revert_of(
    header: Option<Seq<Option<Seq<char>>>>,
    hash: Option<Seq<Option<Seq<char>>>>,
) -> Option<RefEntryView> {
    if header is Some && hash is Some && header->0.len() > 1 && hash->0.len() > 1
        && header->0[1] is Some && hash->0[1] is Some {
        Some(
            RefEntryView {
                hash: hash->0[1]->0,
                title: header->0[1]->0,
                ref_type: RefType::Revert,
            },
        )
    } else {
        None
    }
}

/// The revert that a commit with this summary and message declares, if any.
pub open spec fn revert_in(summary: Option<Seq<char>>, message: Option<Seq<char>>) -> Option<
    RefEntryView,
> {
    if summary is Some && message is Some {
        revert_of(first_match(REVERT_HEADER@, summary->0), first_match(REVERT_HASH@, message->0))
    } else {
        None
    }
}

/// The message as it is searched: every line break replaced by a space, so
/// that a reference wrapped over two lines is still found.
pub open spec fn flattened(message: Seq<char>) -> Seq<char> {
    message.map_values(
        |c: char|
            if c == '\n' {
                ' '
            } else {
                c
            },
    )
}

/// Every mention in a commit with this summary and message: the matches of
/// [`COMMIT_REF`] in the flattened message, in order, followed by the
/// revert if the commit declares one.
pub open spec fn references_in(summary: Option<Seq<char>>, message: Seq<char>) -> Seq<
    RefEntryView,
> {
    mentions_of(all_matches(COMMIT_REF@, flattened(message))) + match revert_in(
        summary,
        Some(message),
    ) {
        Some(entry) => seq![entry],
        None => Seq::empty(),
    }
}

/// Turns one match of [`COMMIT_REF`] into the mention it stands for.
pub fn mention_from_groups(groups: &Groups) -> (entry: Option<RefEntry>)
    ensures
        entry.deep_view() == mention_of(groups.deep_view()),
{
    if groups.len() > 3 {
        match (&groups[2], &groups[3]) {
            (Some(hash), Some(title)) => {
                let ref_type = if groups[1].is_some() {
                    RefType::Fix
                } else {
                    RefType::Note
                };
                Some(RefEntry { hash: hash.clone(), title: title.clone(), ref_type })
            },
            _ => None,
        }
    } else {
        None
    }
}

/// Turns the matches of [`COMMIT_REF`] in a message into mentions, keeping
/// their order.
pub fn references_from_matches(matches: &Vec<Groups>) -> (entries: Vec<RefEntry>)
    ensures
        entries.deep_view() == mentions_of(matches.deep_view()),
{
    let mut entries: Vec<RefEntry> = Vec::new();
    let ghost all = matches.deep_view();
    let ghost f = |groups: Seq<Option<Seq<char>>>| mention_of(groups);
    for i in 0..matches.len()
        invariant
            all == matches.deep_view(),
            f == (|groups: Seq<Option<Seq<char>>>| mention_of(groups)),
            entries.deep_view() == all.take(i as int).filter_map(f),
    {
        proof {
            all.lemma_filter_map_take_succ(f, i as int);
        }
        if let Some(entry) = mention_from_groups(&matches[i]) {
            entries.push(entry);
        }
    }
    assert(all.take(matches.len() as int) == all);
    entries
}

/// Builds the revert mention from a match of [`REVERT_HEADER`] in the
/// summary and a match of [`REVERT_HASH`] in the message.
pub fn revert_from_matches(header: &Option<Groups>, hash: &Option<Groups>) -> (entry: Option<
    RefEntry,
>)
    ensures
        entry.deep_view() == revert_of(header.deep_view(), hash.deep_view()),
{
    match (header, hash) {
        (Some(h), Some(c)) => {
            if h.len() > 1 && c.len() > 1 {
                match (&h[1], &c[1]) {
                    (Some(title), Some(commit)) => Some(
                        RefEntry {
                            hash: commit.clone(),
                            title: title.clone(),
                            ref_type: RefType::Revert,
                        },
                    ),
                    _ => None,
                }
            } else {
                None
            }
        },
        _ => None,
    }
}

/// The revert that a commit declares: its summary must hold
/// `Revert "<title>"` and its message `This reverts commit <hash>`. A commit
/// without a summary or a message declares none.
pub fn extract_revert(summary: Option<&str>, message: Option<&str>) -> (entry: Option<RefEntry>)
    requires
        patterns_ready(),
    ensures
        entry.deep_view() == revert_in(summary.deep_view(), message.deep_view()),
{
    match (summary, message) {
        (Some(s), Some(m)) => {
            let header = captures(REVERT_HEADER, s);
            if header.is_none() {
                return None;
            }
            let hash = captures(REVERT_HASH, m);
            revert_from_matches(&header, &hash)
        },
        _ => None,
    }
}

/// Every mention of another commit in a commit's text: each
/// `<hash> ("<title>")` in the message, typed `Fix` after a `Fixes: ` label
/// and `Note` otherwise, then the revert if the commit declares one. The
/// list is in the order of the text and may name a commit more than once.
pub fn extract_references(summary: Option<&str>, message: &str) -> (entries: Vec<RefEntry>)
    requires
        patterns_ready(),
    ensures
        entries.deep_view() == references_in(summary.deep_view(), message@),
{
    let flat = replace(message, '\n', " ");
    proof {
        reveal_strlit(" ");
        assert(" "@ =~= seq![' ']);
        lemma_replaced_by_one(message@, '\n', ' ');
    }
    let matches = captures_iter(COMMIT_REF, flat.as_str());
    let mut entries = references_from_matches(&matches);
    if let Some(entry) = extract_revert(summary, Some(message)) {
        entries.push(entry);
    }
    entries
}

/// [`extract_references`] for a caller that has not yet checked the
/// patterns: `None` if the engine rejects one of them.
pub fn try_extract_references(summary: Option<&str>, message: &str) -> (entries: Option<
    Vec<RefEntry>,
>)
    ensures
        entries is Some <==> patterns_ready(),
        entries matches Some(found) ==> found.deep_view() == references_in(
            summary.deep_view(),
            message@,
        ),
{
    if patterns_compile() {
        Some(extract_references(summary, message))
    } else {
        None
    }
}

/// Whatever the patterns match, a commit gives at most one revert, and it
/// comes last: every entry before it is a note or a fix.
pub proof fn lemma_revert_comes_last(summary: Option<Seq<char>>, message: Seq<char>, i: int)
    requires
        0 <= i < references_in(summary, message).len(),
        references_in(summary, message)[i].ref_type == RefType::Revert,
    ensures
        i == references_in(summary, message).len() - 1,
        revert_in(summary, Some(message)) == Some(references_in(summary, message)[i]),
{
    let matches = all_matches(COMMIT_REF@, flattened(message));
    let mentions = mentions_of(matches);
    let entry = |groups: Seq<Option<Seq<char>>>| mention_of(groups);
    if i < mentions.len() {
        matches.lemma_filter_map_contains(entry, mentions[i]);
    }
}

} // verus!
