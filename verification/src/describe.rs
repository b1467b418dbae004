//! Finding the commit that a line of free text describes: a hash, a hash
//! with a title, or a title alone.

use crate::commit::{CommitInfo, CommitInfoView, NO_TITLE};
use crate::pattern::{
    captures, first_match, patterns_compile, patterns_ready, Groups, HASH_AND_TITLE,
};
use crate::resolve::{check_commit_titles, titles_agree};
use vstd::hash_map::StringHashMap;
use vstd::prelude::*;
use vstd::string::*;

verus! {

/// What to ask the repository for a line that names a commit by hash: the
/// hash, and the title if the line gives one with it.
#[derive(Debug)]
pub struct HashQuery {
    pub hash: String,
    pub title: Option<String>,
}

/// The mathematical value of a [`HashQuery`].
pub ghost struct HashQueryView {
    pub hash: Seq<char>,
    pub title: Option<Seq<char>>,
}

impl View for HashQuery {
    type V = HashQueryView;

    open spec fn view(&self) -> HashQueryView {
        HashQueryView { hash: self.hash@, title: self.title.deep_view() }
    }
}

impl DeepView for HashQuery {
    type V = HashQueryView;

    open spec fn deep_view(&self) -> HashQueryView {
        self@
    }
}

/// A lower-case hexadecimal digit.
pub open spec fn is_hex_digit(c: char) -> bool {
    ('0' <= c && c <= '9') || ('a' <= c && c <= 'f')
}

/// The line is nothing but a hash: at least eight lower-case hexadecimal
/// digits.
pub open spec fn is_hex_hash(line: Seq<char>) -> bool {
    &&& line.len() >= 8
    &&& forall|i: int| 0 <= i < line.len() ==> is_hex_digit(#[trigger] line[i])
}

/// The query for a line, given the match of [`HASH_AND_TITLE`] in it:
/// group 1 of a match is the hash and group 2 the title; without such a
/// match a line that is nothing but a hash asks for that hash; any other
/// line asks for nothing and is a title.
pub open spec fn query_of(groups: Option<Seq<Option<Seq<char>>>>, line: Seq<char>) -> Option<
    HashQueryView,
> {
    if groups is Some && groups->0.len() > 2 && groups->0[1] is Some && groups->0[2] is Some {
        Some(HashQueryView { hash: groups->0[1]->0, title: Some(groups->0[2]->0) })
    } else if is_hex_hash(line) {
        Some(HashQueryView { hash: line, title: None })
    } else {
        None
    }
}

/// The query for a line.
pub open spec fn query_in(line: Seq<char>) -> Option<HashQueryView> {
    query_of(first_match(HASH_AND_TITLE@, line), line)
}

/// The title under which commit `i` of the list is filed: its summary, or
/// [`NO_TITLE`] if it has none.
pub open spec fn filed_title(list: Seq<CommitInfoView>, i: int) -> Seq<char> {
    match list[i].summary {
        Some(summary) => summary,
        None => NO_TITLE@,
    }
}

/// Commit `i` is the last of the list that is filed under `title`.
pub open spec fn last_filed(list: Seq<CommitInfoView>, i: int, title: Seq<char>) -> bool {
    &&& 0 <= i < list.len()
    &&& filed_title(list, i) == title
    &&& forall|j: int| i < j < list.len() ==> #[trigger] filed_title(list, j) != title
}

/// The index of the titles of a list: each title under which a commit is
/// filed is mapped to the position of the last such commit.
pub open spec fn title_index(list: Seq<CommitInfoView>) -> Map<Seq<char>, usize> {
    Map::new(
        |title: Seq<char>| exists|i: int| last_filed(list, i, title),
        |title: Seq<char>| (choose|i: int| last_filed(list, i, title)) as usize,
    )
}

/// The index maps titles to positions in a list of this length.
pub open spec fn index_fits(index: Map<Seq<char>, usize>, len: nat) -> bool {
    forall|title: Seq<char>| index.contains_key(title) ==> #[trigger] index[title] < len
}

/// Commit `i` of the list has a summary, and it contains the line or is
/// contained in it.
pub open spec fn similar_at(list: Seq<CommitInfoView>, i: int, line: Seq<char>) -> bool {
    &&& 0 <= i < list.len()
    &&& list[i].summary is Some
    &&& titles_agree(list[i].summary->0, line)
}

/// Commit `i` is the first of the list whose summary is similar to the
/// line.
pub open spec fn first_similar(list: Seq<CommitInfoView>, i: int, line: Seq<char>) -> bool {
    &&& similar_at(list, i, line)
    &&& forall|j: int| 0 <= j < i ==> !similar_at(list, j, line)
}

/// The first commit of the list whose summary is similar to the line, if
/// there is one.
pub open spec fn similar_commit(list: Seq<CommitInfoView>, line: Seq<char>) -> Option<
    CommitInfoView,
> {
    if exists|i: int| first_similar(list, i, line) {
        Some(list[choose|i: int| first_similar(list, i, line)])
    } else {
        None
    }
}

/// The commit of the list that a title resolves to: the one that the index
/// gives if the title is in it, else the first with a similar summary.
pub open spec fn title_resolution(
    line: Seq<char>,
    list: Seq<CommitInfoView>,
    index: Map<Seq<char>, usize>,
) -> Option<CommitInfoView> {
    if index.contains_key(line) {
        Some(list[index[line] as int])
    } else {
        similar_commit(list, line)
    }
}

/// The commit that a line resolves to. A line that asks for a hash
/// resolves to what the repository found for it; any other line is a title.
pub open spec fn resolution_of(
    line: Seq<char>,
    found: Option<CommitInfoView>,
    list: Seq<CommitInfoView>,
    index: Map<Seq<char>, usize>,
) -> Option<CommitInfoView> {
    if query_in(line) is Some {
        found
    } else {
        title_resolution(line, list, index)
    }
}

/// The commits that a list of lines resolves to, in the order of the
/// lines; `found` holds for each line what the repository found for its
/// hash. Lines that resolve to nothing are passed over.
pub open spec fn commits_described(
    lines: Seq<Seq<char>>,
    found: Seq<Option<CommitInfoView>>,
    list: Seq<CommitInfoView>,
) -> Seq<CommitInfoView> {
    Seq::new(
        lines.len(),
        |i: int| resolution_of(lines[i], found[i], list, title_index(list)),
    ).filter_map(|commit: Option<CommitInfoView>| commit)
}

/// Whether the line is nothing but a hash.
pub fn is_hash(line: &str) -> (yes: bool)
    ensures
        yes == is_hex_hash(line@),
{
    if line.unicode_len() < 8 {
        return false;
    }
    for c in it: line.chars()
        invariant
            it.seq() == line@,
            forall|i: int| 0 <= i < it.index() ==> is_hex_digit(#[trigger] line@[i]),
    {
        if !((c >= '0' && c <= '9') || (c >= 'a' && c <= 'f')) {
            return false;
        }
    }
    true
}

/// Builds the query for a line from the match of [`HASH_AND_TITLE`] in it.
pub fn query_from_match(groups: &Option<Groups>, line: &str) -> (query: Option<HashQuery>)
    ensures
        query.deep_view() == query_of(groups.deep_view(), line@),
{
    match groups {
        Some(found) => {
            if found.len() > 2 {
                match (&found[1], &found[2]) {
                    (Some(hash), Some(title)) => {
                        return Some(HashQuery { hash: hash.clone(), title: Some(title.clone()) });
                    },
                    _ => {},
                }
            }
        },
        None => {},
    }
    if is_hash(line) {
        Some(HashQuery { hash: line.to_owned(), title: None })
    } else {
        None
    }
}

/// What to ask the repository before the line can be resolved: the hash
/// of a `<hash> ("<title>")` pair found in the line, with that title, or
/// the whole line if it is nothing but a hash. `None` means that the line
/// is a title.
pub fn description_query(line: &str) -> (query: Option<HashQuery>)
    requires
        patterns_ready(),
    ensures
        query.deep_view() == query_in(line@),
{
    let groups = captures(HASH_AND_TITLE, line);
    query_from_match(&groups, line)
}

/// [`description_query`] for a caller that has not yet checked the
/// patterns: the outer `None` says that the engine rejects one of them.
pub fn try_description_query(line: &str) -> (query: Option<Option<HashQuery>>)
    ensures
        query is Some <==> patterns_ready(),
        query matches Some(found) ==> found.deep_view() == query_in(line@),
{
    if patterns_compile() {
        Some(description_query(line))
    } else {
        None
    }
}

/// No two commits are the last under the same title.
pub proof fn lemma_last_filed_unique(list: Seq<CommitInfoView>, title: Seq<char>, i: int, j: int)
    requires
        last_filed(list, i, title),
        last_filed(list, j, title),
    ensures
        i == j,
{
}

/// The index of the titles of a list of commits. A commit without a
/// summary is filed under [`NO_TITLE`]; of commits with the same title the
/// last one is found.
pub fn title_mapping(commit_list: &Vec<CommitInfo>) -> (index: StringHashMap<usize>)
    ensures
        index@ == title_index(commit_list.deep_view()),
        index_fits(index@, commit_list.deep_view().len()),
{
    let mut index: StringHashMap<usize> = StringHashMap::new();
    let ghost list = commit_list.deep_view();
    for i in 0..commit_list.len()
        invariant
            list == commit_list.deep_view(),
            index@ == title_index(list.take(i as int)),
    {
        let ghost before = index@;
        let ghost head = list.take(i as int);
        let ghost now = list.take(i + 1);
        let title = match &commit_list[i].summary {
            Some(summary) => summary.clone(),
            None => NO_TITLE.to_owned(),
        };
        proof {
            assert forall|j: int| 0 <= j < i implies filed_title(now, j) == filed_title(
                head,
                j,
            ) by {}
        }
        index.insert(title, i);
        proof {
            let after = index@;
            let goal = title_index(now);
            assert forall|t: Seq<char>| after.contains_key(t) <==> goal.contains_key(t) by {
                if t == title@ {
                    assert(last_filed(now, i as int, t));
                } else {
                    if before.contains_key(t) {
                        let j = choose|j: int| last_filed(head, j, t);
                        assert(last_filed(now, j, t));
                    }
                    if goal.contains_key(t) {
                        let j = choose|j: int| last_filed(now, j, t);
                        assert(last_filed(head, j, t));
                    }
                }
            }
            assert forall|t: Seq<char>| after.contains_key(t) implies after[t] == goal[t] by {
                let j = choose|j: int| last_filed(now, j, t);
                if t == title@ {
                    lemma_last_filed_unique(now, t, i as int, j);
                } else {
                    let old_j = choose|j: int| last_filed(head, j, t);
                    lemma_last_filed_unique(now, t, old_j, j);
                }
            }
        }
    }
    proof {
        assert(list.take(commit_list.len() as int) =~= list);
    }
    index
}

/// Resolves a title to a commit of the list: by the index if the title is
/// in it, else to the first commit whose summary contains the title or is
/// contained in it.
pub fn resolve_title(
    line: &str,
    commit_list: &Vec<CommitInfo>,
    title_mapping: &StringHashMap<usize>,
) -> (commit: Option<CommitInfo>)
    requires
        index_fits(title_mapping@, commit_list.deep_view().len()),
    ensures
        commit.deep_view() == title_resolution(line@, commit_list.deep_view(), title_mapping@),
{
    let ghost list = commit_list.deep_view();
    match title_mapping.get(line) {
        Some(position) => Some(commit_list[*position].clone()),
        None => {
            for i in 0..commit_list.len()
                invariant
                    list == commit_list.deep_view(),
                    !title_mapping@.contains_key(line@),
                    forall|j: int| 0 <= j < i ==> !similar_at(list, j, line@),
            {
                let similar = match &commit_list[i].summary {
                    Some(summary) => check_commit_titles(summary.as_str(), line),
                    None => false,
                };
                if similar {
                    proof {
                        assert(first_similar(list, i as int, line@));
                    }
                    return Some(commit_list[i].clone());
                }
            }
            None
        },
    }
}

/// Resolves a line of free text to a commit. `found` is what the
/// repository found for the hash of [`description_query`], if the line has
/// one. The first rule that applies decides:
///
/// 1. a line with a `<hash> ("<title>")` pair, or one that is nothing but
///    a hash, resolves to what the repository found, or to nothing;
/// 2. a line that is a title in the index resolves to the commit at the
///    position that the index gives;
/// 3. any other line resolves to the first commit of the list whose
///    summary contains the line or is contained in it, or to nothing.
pub fn parse_commit_description(
    line: &str,
    found: Option<CommitInfo>,
    commit_list: &Vec<CommitInfo>,
    title_mapping: &StringHashMap<usize>,
) -> (commit: Option<CommitInfo>)
    requires
        patterns_ready(),
        index_fits(title_mapping@, commit_list.deep_view().len()),
    ensures
        commit.deep_view() == resolution_of(
            line@,
            found.deep_view(),
            commit_list.deep_view(),
            title_mapping@,
        ),
{
    match description_query(line) {
        Some(_) => found,
        None => resolve_title(line, commit_list, title_mapping),
    }
}

/// [`parse_commit_description`] for a caller that has not yet checked the
/// patterns: the outer `None` says that the engine rejects one of them.
pub fn try_parse_commit_description(
    line: &str,
    found: Option<CommitInfo>,
    commit_list: &Vec<CommitInfo>,
    title_mapping: &StringHashMap<usize>,
) -> (commit: Option<Option<CommitInfo>>)
    requires
        index_fits(title_mapping@, commit_list.deep_view().len()),
    ensures
        commit is Some <==> patterns_ready(),
        commit matches Some(resolved) ==> resolved.deep_view() == resolution_of(
            line@,
            found.deep_view(),
            commit_list.deep_view(),
            title_mapping@,
        ),
{
    if patterns_compile() {
        Some(parse_commit_description(line, found, commit_list, title_mapping))
    } else {
        None
    }
}

/// Resolves the lines of a list of known commits against the inspected
/// commits: each line to a commit as [`parse_commit_description`] does,
/// with the index of the titles of `commit_list`. `found` holds for each
/// line what the repository found for the hash of that line's query.
/// Lines that resolve to nothing are passed over.
pub fn read_commits(
    lines: &Vec<String>,
    found: &Vec<Option<CommitInfo>>,
    commit_list: &Vec<CommitInfo>,
) -> (commits: Vec<CommitInfo>)
    requires
        patterns_ready(),
        found.len() == lines.len(),
    ensures
        commits.deep_view() == commits_described(
            lines.deep_view(),
            found.deep_view(),
            commit_list.deep_view(),
        ),
{
    let index = title_mapping(commit_list);
    let ghost list = commit_list.deep_view();
    let ghost texts = lines.deep_view();
    let ghost hits = found.deep_view();
    let ghost each = Seq::new(
        texts.len(),
        |i: int| resolution_of(texts[i], hits[i], list, title_index(list)),
    );
    let ghost keep = |commit: Option<CommitInfoView>| commit;
    let mut commits: Vec<CommitInfo> = Vec::new();
    for i in 0..lines.len()
        invariant
            patterns_ready(),
            found.len() == lines.len(),
            list == commit_list.deep_view(),
            texts == lines.deep_view(),
            hits == found.deep_view(),
            index@ == title_index(list),
            index_fits(index@, list.len()),
            each == Seq::new(
                texts.len(),
                |i: int| resolution_of(texts[i], hits[i], list, title_index(list)),
            ),
            keep == (|commit: Option<CommitInfoView>| commit),
            commits.deep_view() == each.take(i as int).filter_map(keep),
    {
        let hit = match &found[i] {
            Some(commit) => Some(commit.clone()),
            None => None,
        };
        proof {
            each.lemma_filter_map_take_succ(keep, i as int);
        }
        match parse_commit_description(lines[i].as_str(), hit, commit_list, &index) {
            Some(commit) => {
                commits.push(commit);
            },
            None => {},
        }
    }
    proof {
        assert(each.take(lines.len() as int) =~= each);
    }
    commits
}

/// [`read_commits`] for a caller that has not yet checked the patterns:
/// `None` says that the engine rejects one of them.
pub fn try_read_commits(
    lines: &Vec<String>,
    found: &Vec<Option<CommitInfo>>,
    commit_list: &Vec<CommitInfo>,
) -> (commits: Option<Vec<CommitInfo>>)
    requires
        found.len() == lines.len(),
    ensures
        commits is Some <==> patterns_ready(),
        commits matches Some(resolved) ==> resolved.deep_view() == commits_described(
            lines.deep_view(),
            found.deep_view(),
            commit_list.deep_view(),
        ),
{
    if patterns_compile() {
        Some(read_commits(lines, found, commit_list))
    } else {
        None
    }
}

/// A title that is the exact summary of a commit of the list is in the
/// index of the list, and the index leads to a commit with exactly that
/// summary: such a title is resolved by the index and never by the search
/// for similar titles, whatever other titles contain it.
pub proof fn lemma_exact_title_is_indexed(list: Seq<CommitInfoView>, i: int, line: Seq<char>)
    requires
        0 <= i < list.len() <= usize::MAX,
        list[i].summary == Some(line),
    ensures
        title_index(list).contains_key(line),
        i <= title_index(list)[line] < list.len(),
        filed_title(list, title_index(list)[line] as int) == line,
        title_resolution(line, list, title_index(list)) == Some(
            list[title_index(list)[line] as int],
        ),
{
    assert(filed_title(list, i) == line);
    lemma_some_last_filed(list, i, line, list.len() as int);
    assert(list.take(list.len() as int) =~= list);
}

/// If a commit before position `upto` is filed under `title`, one of
/// them is the last before `upto` that is.
proof fn lemma_some_last_filed(list: Seq<CommitInfoView>, i: int, title: Seq<char>, upto: int)
    requires
        0 <= i < upto <= list.len(),
        filed_title(list, i) == title,
    ensures
        exists|j: int| last_filed(list.take(upto), j, title),
    decreases upto - i,
{
    let head = list.take(upto);
    assert forall|j: int| 0 <= j < upto implies filed_title(head, j) == filed_title(list, j) by {}
    if forall|j: int| i < j < upto ==> #[trigger] filed_title(list, j) != title {
        assert(last_filed(head, i, title));
    } else {
        let j = choose|j: int| i < j < upto && #[trigger] filed_title(list, j) == title;
        lemma_some_last_filed(list, j, title, upto);
    }
}

} // verus!
