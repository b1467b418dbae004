//! The reference graph: which commits of the inspected range reference
//! which, and who references a commit directly or through others.

use crate::graph_laws::lemma_references;
use crate::reach::{
    all_below, closed_graph, discover, discovered, lemma_discovered, lemma_distinct_below_len,
    lemma_scan_keeps_state, reaches, search, search_state, Adjacency,
};
use crate::ref_type::RefType;
use vstd::hash_map::StringHashMap;
use vstd::prelude::*;

verus! {

/// One mention in a commit, after the repository was asked for the hash it
/// names: the full hash of the commit that was found, if one was, and the
/// kind of reference.
#[derive(Debug)]
pub struct Mention {
    pub target: Option<String>,
    pub ref_type: RefType,
}

/// The mathematical value of a [`Mention`].
pub ghost struct MentionView {
    pub target: Option<Seq<char>>,
    pub ref_type: RefType,
}

impl View for Mention {
    type V = MentionView;

    open spec fn view(&self) -> MentionView {
        MentionView { target: self.target.deep_view(), ref_type: self.ref_type }
    }
}

impl DeepView for Mention {
    type V = MentionView;

    open spec fn deep_view(&self) -> MentionView {
        self@
    }
}

/// What became of one mention when its commit was added to the graph.
#[derive(Clone, Copy, Debug, PartialEq, Eq, Structural)]
pub enum MentionOutcome {
    /// The repository knows no commit by the hash: the mention is dropped.
    Unresolved,
    /// The commit it names has not been observed: it lies outside the
    /// inspected range, or the commits do not come oldest first. The
    /// mention is dropped.
    Unobserved,
    /// The mention counts towards an edge.
    Recorded,
}

/// One commit of the walk: its full hash and the mentions found in it, in
/// the order of the text.
#[derive(Debug)]
pub struct WalkedCommit {
    pub id: String,
    pub mentions: Vec<Mention>,
}

/// The mathematical value of a [`WalkedCommit`].
pub ghost struct WalkedCommitView {
    pub id: Seq<char>,
    pub mentions: Seq<MentionView>,
}

impl View for WalkedCommit {
    type V = WalkedCommitView;

    open spec fn view(&self) -> WalkedCommitView {
        WalkedCommitView { id: self.id@, mentions: self.mentions.deep_view() }
    }
}

impl DeepView for WalkedCommit {
    type V = WalkedCommitView;

    open spec fn deep_view(&self) -> WalkedCommitView {
        self@
    }
}

/// The mathematical value of a [`RefGraph`]: the hashes of the observed
/// commits in the order of observation, which gives each its index, and
/// for each commit the commits that reference it.
#[verifier::ext_equal]
pub ghost struct GraphView {
    pub ids: Seq<Seq<char>>,
    pub referenced_by: Adjacency,
}

impl GraphView {
    /// No commit is listed twice, each has its adjacency list, every edge
    /// comes from an observed commit, and the indices fit the machine.
    pub open spec fn wf(self) -> bool {
        &&& self.ids.no_duplicates()
        &&& self.ids.len() <= usize::MAX
        &&& self.referenced_by.len() == self.ids.len()
        &&& closed_graph(self.referenced_by)
    }

    /// The graph without commits.
    pub open spec fn empty() -> GraphView {
        GraphView { ids: Seq::empty(), referenced_by: Seq::empty() }
    }

    /// The graph after `id` has been observed: a commit seen for the first
    /// time gets the next index and an empty adjacency list.
    pub open spec fn observe(self, id: Seq<char>) -> GraphView {
        if self.ids.contains(id) {
            self
        } else {
            GraphView {
                ids: self.ids.push(id),
                referenced_by: self.referenced_by.push(Seq::empty()),
            }
        }
    }

    /// The strongest kind among the mentions that name the commit at index
    /// `target`, or `None` if none of them names it.
    pub open spec fn strongest(self, mentions: Seq<MentionView>, target: int) -> Option<RefType>
        decreases mentions.len(),
    {
        if mentions.len() == 0 {
            None
        } else {
            let earlier = self.strongest(mentions.drop_last(), target);
            let mention = mentions.last();
            if mention.target == Some(self.ids[target]) {
                match earlier {
                    Some(kind) => Some(kind.stronger(mention.ref_type)),
                    None => Some(mention.ref_type),
                }
            } else {
                earlier
            }
        }
    }

    /// What becomes of a mention in a graph with these commits.
    pub open spec fn outcome(self, mention: MentionView) -> MentionOutcome {
        match mention.target {
            None => MentionOutcome::Unresolved,
            Some(id) => if self.ids.contains(id) {
                MentionOutcome::Recorded
            } else {
                MentionOutcome::Unobserved
            },
        }
    }

    /// What becomes of each mention when the commit `id` is added.
    pub open spec fn outcomes(self, id: Seq<char>, mentions: Seq<MentionView>) -> Seq<
        MentionOutcome,
    > {
        Seq::new(mentions.len(), |k: int| self.observe(id).outcome(mentions[k]))
    }

    /// The graph after the commit `id` with these mentions has been added:
    /// the commit is observed, and every observed commit that the mentions
    /// name gets one new edge from it, of the strongest kind among the
    /// mentions that name it. Mentions of anything else leave no trace.
    pub open spec fn with_commit(self, id: Seq<char>, mentions: Seq<MentionView>) -> GraphView {
        let seen = self.observe(id);
        let source = seen.ids.index_of(id) as usize;
        GraphView {
            ids: seen.ids,
            referenced_by: Seq::new(
                seen.referenced_by.len(),
                |target: int|
                    match seen.strongest(mentions, target) {
                        Some(kind) => seen.referenced_by[target].push((source, kind)),
                        None => seen.referenced_by[target],
                    },
            ),
        }
    }

    /// The graph that a walk builds: the commits are added one after the
    /// other to the empty graph.
    pub open spec fn built_from(commits: Seq<WalkedCommitView>) -> GraphView
        decreases commits.len(),
    {
        if commits.len() == 0 {
            GraphView::empty()
        } else {
            GraphView::built_from(commits.drop_last()).with_commit(
                commits.last().id,
                commits.last().mentions,
            )
        }
    }

    /// Every edge leads to a commit from one observed no earlier: no commit
    /// is referenced by a commit that came before it.
    pub open spec fn chronological(self) -> bool {
        forall|target: int, k: int|
            0 <= target < self.referenced_by.len() && 0 <= k < self.referenced_by[target].len()
                ==> target <= (#[trigger] self.referenced_by[target][k]).0
    }

    /// No commit references another by more than one edge.
    pub open spec fn single_edges(self) -> bool {
        forall|target: int, a: int, b: int|
            0 <= target < self.referenced_by.len() && 0 <= a < b
                < self.referenced_by[target].len() ==> (
            #[trigger] self.referenced_by[target][a]).0 != (
            #[trigger] self.referenced_by[target][b]).0
    }

    /// The hashes of the commits that a search from the commit at index
    /// `start` discovers, in the order of discovery.
    pub open spec fn references_of_index(self, start: usize, no_notices: bool) -> Seq<Seq<char>> {
        discovered(self.referenced_by, start, no_notices).map_values(
            |node: usize| self.ids[node as int],
        )
    }

    /// The hashes of the commits that reference the commit `id`, directly
    /// or through others, in the order in which the search discovers them.
    /// Nothing references a commit that has not been observed.
    pub open spec fn references(self, id: Seq<char>, no_notices: bool) -> Seq<Seq<char>> {
        if self.ids.contains(id) {
            self.references_of_index(self.ids.index_of(id) as usize, no_notices)
        } else {
            Seq::empty()
        }
    }

    /// The commit `other` is another commit than `id` and references it,
    /// directly or through a chain of followed edges.
    pub open spec fn is_referenced_by(
        self,
        id: Seq<char>,
        other: Seq<char>,
        no_notices: bool,
    ) -> bool {
        exists|target: usize, source: usize|
            target < self.ids.len() && source < self.ids.len() && self.ids[target as int] == id
                && self.ids[source as int] == other && source != target && #[trigger] reaches(
                self.referenced_by,
                target,
                source,
                no_notices,
            )
    }
}

/// One of the first `upto` pairs names `target`.
spec fn names(pairs: Seq<(usize, RefType)>, upto: int, target: int) -> bool {
    exists|a: int| 0 <= a < upto && (#[trigger] pairs[a]).0 == target
}

/// The pairs name nodes below `n`, and no two of them the same node.
spec fn distinct_targets(pairs: Seq<(usize, RefType)>, n: nat) -> bool {
    &&& forall|a: int| 0 <= a < pairs.len() ==> (#[trigger] pairs[a]).0 < n
    &&& forall|a: int, b: int|
        0 <= a < pairs.len() && 0 <= b < pairs.len() && a != b ==> (#[trigger] pairs[a]).0 != (
        #[trigger] pairs[b]).0
}

/// `pairs` holds, for a graph with these commits, what `mentions` come to:
/// one pair for each observed commit that they name, with the strongest
/// kind among the mentions that name it.
spec fn merged(graph: GraphView, mentions: Seq<MentionView>, pairs: Seq<(usize, RefType)>) -> bool {
    &&& distinct_targets(pairs, graph.ids.len())
    &&& forall|a: int|
        0 <= a < pairs.len() ==> graph.strongest(mentions, (#[trigger] pairs[a]).0 as int)
            == Some(pairs[a].1)
    &&& forall|target: int|
        0 <= target < graph.ids.len() && (#[trigger] graph.strongest(mentions, target)) is Some
            ==> names(pairs, pairs.len() as int, target)
}

/// `after` is `before` with one edge from `source` for each of the first
/// `upto` pairs, at the end of the list of the node that the pair names.
spec fn recorded(
    before: Adjacency,
    source: usize,
    pairs: Seq<(usize, RefType)>,
    upto: int,
    after: Adjacency,
) -> bool {
    &&& after.len() == before.len()
    &&& forall|a: int|
        0 <= a < upto ==> after[(#[trigger] pairs[a]).0 as int] == before[pairs[a].0 as int].push(
            (source, pairs[a].1),
        )
    &&& forall|t: int|
        0 <= t < before.len() && !names(pairs, upto, t) ==> #[trigger] after[t] == before[t]
}

/// `after` is `before` with one more mention of `target` merged in: the
/// pair that names `target` has risen to the stronger kind, or, if there
/// was none, a new pair follows the others.
spec fn merged_into(
    before: Seq<(usize, RefType)>,
    target: usize,
    kind: RefType,
    after: Seq<(usize, RefType)>,
) -> bool {
    if names(before, before.len() as int, target as int) {
        exists|at: int|
            0 <= at < before.len() && (#[trigger] before[at]).0 == target && after
                == before.update(at, (target, before[at].1.stronger(kind)))
    } else {
        after == before.push((target, kind))
    }
}

/// A mention that is dropped leaves the pairs as they are.
proof fn lemma_merge_dropped(
    graph: GraphView,
    earlier: Seq<MentionView>,
    mention: MentionView,
    pairs: Seq<(usize, RefType)>,
)
    requires
        merged(graph, earlier, pairs),
        graph.outcome(mention) != MentionOutcome::Recorded,
    ensures
        merged(graph, earlier.push(mention), pairs),
{
    let now = earlier.push(mention);
    assert(now.drop_last() =~= earlier);
    assert forall|t: int| 0 <= t < graph.ids.len() implies graph.strongest(now, t)
        == graph.strongest(earlier, t) by {
        assert(graph.ids.contains(graph.ids[t]));
    }
    assert forall|t: int|
        0 <= t < graph.ids.len() && (#[trigger] graph.strongest(now, t)) is Some implies names(
        pairs,
        pairs.len() as int,
        t,
    ) by {
        assert(graph.strongest(earlier, t) is Some);
    }
}

/// A mention of the commit at index `target`, merged into the pairs, keeps
/// them in step with the mentions.
proof fn lemma_merge_recorded(
    graph: GraphView,
    earlier: Seq<MentionView>,
    mention: MentionView,
    target: usize,
    before: Seq<(usize, RefType)>,
    after: Seq<(usize, RefType)>,
)
    requires
        graph.ids.no_duplicates(),
        merged(graph, earlier, before),
        target < graph.ids.len(),
        mention.target == Some(graph.ids[target as int]),
        merged_into(before, target, mention.ref_type, after),
    ensures
        merged(graph, earlier.push(mention), after),
{
    let now = earlier.push(mention);
    assert(now.drop_last() =~= earlier);
    assert forall|u: int| 0 <= u < graph.ids.len() && u != target implies graph.strongest(now, u)
        == graph.strongest(earlier, u) by {}
    let at = if names(before, before.len() as int, target as int) {
        choose|at: int|
            0 <= at < before.len() && (#[trigger] before[at]).0 == target && after
                == before.update(at, (target, before[at].1.stronger(mention.ref_type)))
    } else {
        before.len() as int
    };
    assert(after[at].0 == target);
    assert(graph.strongest(now, target as int) == Some(after[at].1)) by {
        if graph.strongest(earlier, target as int) is Some {
            assert(names(before, before.len() as int, target as int));
        }
    }
    assert forall|a: int| 0 <= a < after.len() implies (#[trigger] after[a]).0 < graph.ids.len()
        && graph.strongest(now, after[a].0 as int) == Some(after[a].1) by {
        if a != at {
            assert(after[a] == before[a]);
        }
    }
    assert forall|a: int| 0 <= a < after.len() implies graph.strongest(
        now,
        (#[trigger] after[a]).0 as int,
    ) == Some(after[a].1) by {}
    assert forall|a: int, b: int|
        0 <= a < after.len() && 0 <= b < after.len() && a != b implies (#[trigger] after[a]).0
        != (#[trigger] after[b]).0 by {
        if a != at {
            assert(after[a] == before[a]);
        }
        if b != at {
            assert(after[b] == before[b]);
        }
    }
    assert forall|u: int|
        0 <= u < graph.ids.len() && (#[trigger] graph.strongest(now, u)) is Some implies names(
        after,
        after.len() as int,
        u,
    ) by {
        if u == target {
        } else {
            assert(names(before, before.len() as int, u));
            let a = choose|a: int| 0 <= a < before.len() && (#[trigger] before[a]).0 == u;
            assert(after[a] == before[a]);
        }
    }
}

/// Merges one more mention of the node `target` into the pairs.
fn merge(added: &mut Vec<(usize, RefType)>, target: usize, kind: RefType)
    ensures
        merged_into(old(added)@, target, kind, final(added)@),
{
    let mut at: usize = 0;
    while at < added.len() && added[at].0 != target
        invariant
            at <= added.len(),
            forall|a: int| 0 <= a < at ==> (#[trigger] added@[a]).0 != target,
        decreases added.len() - at,
    {
        at += 1;
    }
    if at < added.len() {
        let stronger = added[at].1.max(kind);
        added[at] = (target, stronger);
    } else {
        added.push((target, kind));
    }
}

/// The reference graph of the inspected range. Commits are numbered in the
/// order in which they are observed; edges are kept in reverse, from a
/// commit to the commits that reference it.
pub struct RefGraph {
    referenced_by: Vec<Vec<(usize, RefType)>>,
    hash_to_id: StringHashMap<usize>,
    id_to_hash: Vec<String>,
}

impl View for RefGraph {
    type V = GraphView;

    closed spec fn view(&self) -> GraphView {
        GraphView {
            ids: self.id_to_hash.deep_view(),
            referenced_by: Seq::new(
                self.referenced_by@.len(),
                |target: int| self.referenced_by@[target]@,
            ),
        }
    }
}

impl RefGraph {
    /// The graph's invariant: its value is well formed, and the index
    /// finds each observed commit, and nothing else, at its position.
    pub closed spec fn wf(&self) -> bool {
        &&& self@.wf()
        &&& forall|id: Seq<char>| #[trigger]
            self.hash_to_id@.contains_key(id) <==> self@.ids.contains(id)
        &&& forall|i: int|
            0 <= i < self@.ids.len() ==> self.hash_to_id@[#[trigger] self@.ids[i]] == i
    }

    /// A well-formed graph has a well-formed value.
    pub proof fn lemma_wf_view(&self)
        requires
            self.wf(),
        ensures
            self@.wf(),
    {
    }

    /// The graph without commits.
    pub fn empty() -> (graph: RefGraph)
        ensures
            graph.wf(),
            graph@ == GraphView::empty(),
    {
        RefGraph {
            referenced_by: Vec::new(),
            hash_to_id: StringHashMap::new(),
            id_to_hash: Vec::new(),
        }
    }

    /// The graph of a walk: the commits are added in the order given, which
    /// must be oldest first for references to be recorded. A reference to a
    /// commit that comes later in the list, or not at all, leaves no edge.
    pub fn new(commits: &Vec<WalkedCommit>) -> (graph: RefGraph)
        ensures
            graph.wf(),
            graph@ == GraphView::built_from(commits.deep_view()),
    {
        let mut graph = RefGraph::empty();
        let ghost all = commits.deep_view();
        for i in 0..commits.len()
            invariant
                all == commits.deep_view(),
                graph.wf(),
                graph@ == GraphView::built_from(all.take(i as int)),
        {
            proof {
                assert(all.take(i + 1).drop_last() =~= all.take(i as int));
            }
            let commit = &commits[i];
            graph.add_commit(commit.id.as_str(), &commit.mentions);
        }
        proof {
            assert(all.take(commits.len() as int) =~= all);
        }
        graph
    }

    /// The number of observed commits.
    pub fn len(&self) -> (n: usize)
        ensures
            n == self@.ids.len(),
    {
        self.id_to_hash.len()
    }

    /// The index of a commit, if it has been observed.
    pub fn lookup(&self, id: &str) -> (index: Option<usize>)
        requires
            self.wf(),
        ensures
            index is Some <==> self@.ids.contains(id@),
            index matches Some(i) ==> i < self@.ids.len() && self@.ids[i as int] == id@,
    {
        match self.hash_to_id.get(id) {
            Some(i) => Some(*i),
            None => None,
        }
    }

    /// The index of a commit; a commit seen for the first time is given
    /// the next one.
    fn lookup_or_alloc(&mut self, id: &str) -> (index: usize)
        requires
            old(self).wf(),
        ensures
            final(self).wf(),
            final(self)@ == old(self)@.observe(id@),
            index < final(self)@.ids.len(),
            final(self)@.ids[index as int] == id@,
    {
        match self.lookup(id) {
            Some(index) => index,
            None => {
                let index = self.id_to_hash.len();
                self.referenced_by.push(Vec::new());
                self.id_to_hash.push(id.to_owned());
                self.hash_to_id.insert(id.to_owned(), index);
                proof {
                    let before = old(self)@;
                    let after = self@;
                    assert(after.ids =~= before.ids.push(id@));
                    assert(after.referenced_by =~= before.referenced_by.push(Seq::empty()));
                    assert(after.ids.len() == self.id_to_hash.len());
                    assert forall|other: Seq<char>| #[trigger]
                        self.hash_to_id@.contains_key(other) <==> after.ids.contains(other) by {
                        if other == id@ {
                            assert(after.ids[index as int] == other);
                        } else if before.ids.contains(other) {
                            let at = choose|at: int|
                                0 <= at < before.ids.len() && before.ids[at] == other;
                            assert(after.ids[at] == other);
                        }
                    }
                }
                index
            },
        }
    }

    /// Records one edge from `source` for each of the pairs, in the list
    /// of the commit that the pair names.
    fn record(&mut self, source: usize, added: &Vec<(usize, RefType)>)
        requires
            old(self).wf(),
            source < old(self)@.ids.len(),
            distinct_targets(added@, old(self)@.ids.len()),
        ensures
            final(self).wf(),
            final(self)@.ids == old(self)@.ids,
            recorded(
                old(self)@.referenced_by,
                source,
                added@,
                added@.len() as int,
                final(self)@.referenced_by,
            ),
    {
        let ghost start = self@;
        let ghost pairs = added@;
        for j in 0..added.len()
            invariant
                pairs == added@,
                start == old(self)@,
                start.wf(),
                source < start.ids.len(),
                distinct_targets(pairs, start.ids.len()),
                self.wf(),
                self@.ids == start.ids,
                recorded(start.referenced_by, source, pairs, j as int, self@.referenced_by),
        {
            let (target, kind) = added[j];
            let ghost prior = self@;
            assert(pairs[j as int].0 == target);
            assert(!names(pairs, j as int, target as int));
            self.referenced_by[target].push((source, kind));
            proof {
                let now = self@;
                assert(now.ids == prior.ids);
                assert(now.referenced_by.len() == prior.referenced_by.len());
                assert(now.referenced_by[target as int]
                    == prior.referenced_by[target as int].push((source, kind)));
                assert forall|t: int|
                    0 <= t < now.referenced_by.len() && t != target implies now.referenced_by[t]
                    == prior.referenced_by[t] by {}
                assert(closed_graph(now.referenced_by)) by {
                    assert forall|t: int, k: int|
                        0 <= t < now.referenced_by.len() && 0 <= k
                            < now.referenced_by[t].len() implies (
                    #[trigger] now.referenced_by[t][k]).0 < now.referenced_by.len() by {
                        if t == target && k == prior.referenced_by[t].len() {
                        } else {
                            assert(now.referenced_by[t][k] == prior.referenced_by[t][k]);
                        }
                    }
                }
                assert forall|t: int|
                    0 <= t < start.ids.len() && !names(
                        pairs,
                        j + 1,
                        t,
                    ) implies #[trigger] now.referenced_by[t] == start.referenced_by[t] by {
                    assert(t != target);
                    if names(pairs, j as int, t) {
                        let a = choose|a: int| 0 <= a < j && (#[trigger] pairs[a]).0 == t;
                        assert(0 <= a < j + 1);
                    }
                }
            }
        }
    }

    /// Adds one commit of the walk with the mentions found in it. The
    /// commit is observed first, so it may mention itself. Each mention
    /// that names an observed commit counts towards one edge to this commit
    /// in that commit's list, of the strongest kind among such mentions;
    /// the others are dropped. The result says, mention by mention, which
    /// was the case.
    pub fn add_commit(&mut self, id: &str, mentions: &Vec<Mention>) -> (outcomes: Vec<
        MentionOutcome,
    >)
        requires
            old(self).wf(),
        ensures
            final(self).wf(),
            final(self)@ == old(self)@.with_commit(id@, mentions.deep_view()),
            outcomes@ == old(self)@.outcomes(id@, mentions.deep_view()),
    {
        let source = self.lookup_or_alloc(id);
        let ghost seen = self@;
        let ghost all = mentions.deep_view();
        let mut added: Vec<(usize, RefType)> = Vec::new();
        let mut outcomes: Vec<MentionOutcome> = Vec::new();
        for i in 0..mentions.len()
            invariant
                self.wf(),
                self@ == seen,
                all == mentions.deep_view(),
                outcomes@.len() == i,
                forall|k: int| 0 <= k < i ==> #[trigger] outcomes@[k] == seen.outcome(all[k]),
                merged(seen, all.take(i as int), added@),
        {
            let mention = &mentions[i];
            let ghost before = added@;
            let recorded = match &mention.target {
                None => None,
                Some(target) => self.lookup(target.as_str()),
            };
            match recorded {
                Some(target) => {
                    merge(&mut added, target, mention.ref_type);
                    outcomes.push(MentionOutcome::Recorded);
                    proof {
                        lemma_merge_recorded(
                            seen,
                            all.take(i as int),
                            mention@,
                            target,
                            before,
                            added@,
                        );
                    }
                },
                None => {
                    outcomes.push(
                        if mention.target.is_some() {
                            MentionOutcome::Unobserved
                        } else {
                            MentionOutcome::Unresolved
                        },
                    );
                    proof {
                        lemma_merge_dropped(seen, all.take(i as int), mention@, before);
                    }
                },
            }
            proof {
                assert(all.take(i + 1) =~= all.take(i as int).push(mention@));
            }
        }
        proof {
            assert(all.take(mentions.len() as int) =~= all);
        }
        self.record(source, &added);
        outcomes
    }

    /// The edges to the commit at `index`: for each commit that references
    /// it, that commit's index and the kind of the reference, in the order
    /// in which the edges were recorded.
    pub fn referenced_by(&self, index: usize) -> (edges: &Vec<(usize, RefType)>)
        requires
            self.wf(),
            index < self@.ids.len(),
        ensures
            edges@ == self@.referenced_by[index as int],
    {
        &self.referenced_by[index]
    }

    /// The hashes of the observed commits, in the order of their indices.
    pub fn get_oids(&self) -> (ids: &Vec<String>)
        ensures
            ids.deep_view() == self@.ids,
    {
        &self.id_to_hash
    }
}

/// The marks of a search agree with its list of seen nodes: among the
/// first `n` nodes, exactly the seen ones carry the current number.
spec fn marked(visited: Seq<u64>, flag: u64, n: int, seen: Seq<usize>) -> bool {
    forall|i: int| 0 <= i < n ==> (#[trigger] visited[i] == flag <==> seen.contains(i as usize))
}

/// Marking one more node keeps the marks in step with the seen nodes.
proof fn lemma_mark(visited: Seq<u64>, flag: u64, n: usize, seen: Seq<usize>, node: usize)
    requires
        marked(visited, flag, n as int, seen),
        node < n <= visited.len(),
    ensures
        marked(visited.update(node as int, flag), flag, n as int, seen.push(node)),
{
    let marks = visited.update(node as int, flag);
    let after = seen.push(node);
    assert forall|i: int| 0 <= i < n implies (#[trigger] marks[i] == flag <==> after.contains(
        i as usize,
    )) by {
        if i == node {
            assert(after[seen.len() as int] == node);
        } else {
            assert(marks[i] == visited[i]);
            if seen.contains(i as usize) {
                let k = choose|k: int| 0 <= k < seen.len() && seen[k] == i as usize;
                assert(after[k] == i as usize);
            }
            if after.contains(i as usize) {
                let k = choose|k: int| 0 <= k < after.len() && after[k] == i as usize;
                assert(seen[k] == i as usize);
            }
        }
    }
}

/// The scratch state that the searches share. Each node carries the number
/// of the last search that visited it, and each search takes a new number,
/// so that the marks never need clearing between searches. A caller keeps
/// one value and hands it to every query; no two queries use it at once.
pub struct Traversal {
    flag: u64,
    visited: Vec<u64>,
}

impl Traversal {
    /// No node carries a number that has not been given out yet.
    pub closed spec fn wf(&self) -> bool {
        forall|i: int| 0 <= i < self.visited@.len() ==> #[trigger] self.visited@[i] <= self.flag
    }

    /// No node carries the current number.
    spec fn fresh(&self) -> bool {
        forall|i: int| 0 <= i < self.visited@.len() ==> #[trigger] self.visited@[i] < self.flag
    }

    /// A scratch state in which no search has run.
    pub fn new() -> (ctx: Traversal)
        ensures
            ctx.wf(),
    {
        Traversal { flag: 0, visited: Vec::new() }
    }

    /// Opens a search over `n` nodes: gives it a new number, which no node
    /// carries. When the numbers run out, all marks are cleared and the
    /// count starts over.
    fn begin(&mut self, n: usize)
        requires
            old(self).wf(),
        ensures
            final(self).wf(),
            final(self).visited@.len() >= n,
            final(self).fresh(),
    {
        while self.visited.len() < n
            invariant
                self.wf(),
            decreases n - self.visited.len(),
        {
            self.visited.push(0);
        }
        if self.flag == u64::MAX {
            let len = self.visited.len();
            for i in 0..len
                invariant
                    len == self.visited@.len(),
                    len >= n,
                    forall|k: int| 0 <= k < i ==> #[trigger] self.visited@[k] == 0,
            {
                self.visited[i] = 0;
            }
            self.flag = 0;
        }
        self.flag = self.flag + 1;
    }
}

impl RefGraph {
    /// One round of the search: scans the adjacency list of `node` and puts
    /// every source of a followed edge that is not marked yet on the stack
    /// and on the list of found nodes, and marks it. `seen` is the list of
    /// the nodes that are marked so far.
    fn scan(
        &self,
        ctx: &mut Traversal,
        node: usize,
        no_notices: bool,
        stack: &mut Vec<usize>,
        found: &mut Vec<usize>,
        Ghost(seen): Ghost<Seq<usize>>,
    )
        requires
            self.wf(),
            old(ctx).wf(),
            node < self@.ids.len() <= old(ctx).visited@.len(),
            marked(old(ctx).visited@, old(ctx).flag, self@.ids.len() as int, seen),
        ensures
            final(ctx).wf(),
            final(ctx).flag == old(ctx).flag,
            final(ctx).visited@.len() == old(ctx).visited@.len(),
            final(stack)@ == old(stack)@ + discover(
                self@.referenced_by[node as int],
                seen,
                no_notices,
            ),
            final(found)@ == old(found)@ + discover(
                self@.referenced_by[node as int],
                seen,
                no_notices,
            ),
            marked(
                final(ctx).visited@,
                final(ctx).flag,
                self@.ids.len() as int,
                seen + discover(self@.referenced_by[node as int], seen, no_notices),
            ),
    {
        let n = self.referenced_by.len();
        let flag = ctx.flag;
        let edges = &self.referenced_by[node];
        let ghost adj = self@.referenced_by;
        let ghost goal = discover(edges@, seen, no_notices);
        let ghost mut news: Seq<usize> = Seq::empty();
        proof {
            assert(edges@.skip(0) =~= edges@);
        }
        for j in 0..edges.len()
            invariant
                closed_graph(adj),
                n == adj.len(),
                node < n,
                adj[node as int] == edges@,
                ctx.wf(),
                ctx.flag == flag,
                ctx.visited@.len() == old(ctx).visited@.len(),
                ctx.visited@.len() >= n,
                stack@ == old(stack)@ + news,
                found@ == old(found)@ + news,
                marked(ctx.visited@, flag, n as int, seen + news),
                news + discover(edges@.skip(j as int), seen + news, no_notices) == goal,
        {
            let (source, kind) = edges[j];
            let ghost rest = edges@.skip(j as int);
            proof {
                assert(rest.drop_first() =~= edges@.skip(j + 1));
            }
            if ctx.visited[source] != flag && kind.should_follow(no_notices) {
                let ghost marks = ctx.visited@;
                stack.push(source);
                found.push(source);
                ctx.visited[source] = flag;
                proof {
                    let grown = news.push(source);
                    lemma_mark(marks, flag, n, seen + news, source);
                    news = grown;
                }
            }
        }
    }

    /// The nodes that reference the node `start`, directly or through
    /// others, found by a depth-first search with an explicit stack. The
    /// result lists each such node once, in the order of discovery, and
    /// never the start node, whatever cycles the graph has.
    pub fn dfs(&self, ctx: &mut Traversal, start: usize, no_notices: bool) -> (found: Vec<usize>)
        requires
            self.wf(),
            old(ctx).wf(),
            start < self@.ids.len(),
        ensures
            final(ctx).wf(),
            found@ == discovered(self@.referenced_by, start, no_notices),
            found@.no_duplicates(),
            !found@.contains(start),
            all_below(found@, self@.ids.len()),
            forall|node: usize|
                #![trigger found@.contains(node)]
                #![trigger reaches(self@.referenced_by, start, node, no_notices)]
                found@.contains(node) <==> node != start && reaches(
                    self@.referenced_by,
                    start,
                    node,
                    no_notices,
                ),
    {
        let n = self.referenced_by.len();
        let ghost adj = self@.referenced_by;
        let ghost origin = seq![start];
        ctx.begin(n);
        let mut stack: Vec<usize> = Vec::new();
        let mut found: Vec<usize> = Vec::new();
        let ghost unmarked = ctx.visited@;
        stack.push(start);
        ctx.visited[start] = ctx.flag;
        proof {
            lemma_mark(unmarked, ctx.flag, n, Seq::empty(), start);
        }
        while stack.len() > 0
            invariant
                self.wf(),
                adj == self@.referenced_by,
                origin == seq![start],
                n == adj.len(),
                ctx.wf(),
                ctx.visited@.len() >= n,
                search_state(adj, stack@, origin + found@),
                marked(ctx.visited@, ctx.flag, n as int, origin + found@),
                found@ + search(adj, stack@, origin + found@, no_notices) == discovered(
                    adj,
                    start,
                    no_notices,
                ),
            decreases n - found@.len(), stack@.len(),
        {
            let ghost seen = origin + found@;
            let node = stack.pop().unwrap();
            let ghost news = discover(adj[node as int], seen, no_notices);
            proof {
                lemma_scan_keeps_state(adj, node, seen, no_notices);
                lemma_distinct_below_len(seen, n as nat);
            }
            self.scan(ctx, node, no_notices, &mut stack, &mut found, Ghost(seen));
            proof {
                assert(origin + found@ =~= seen + news);
            }
        }
        proof {
            lemma_discovered(adj, start, no_notices);
        }
        found
    }

    /// The hashes of the commits that reference the commit at index
    /// `start`, directly or through others, in the order of discovery.
    pub fn get_references_by_id(
        &self,
        ctx: &mut Traversal,
        start: usize,
        no_notices: bool,
    ) -> (refs: Vec<String>)
        requires
            self.wf(),
            old(ctx).wf(),
            start < self@.ids.len(),
        ensures
            final(ctx).wf(),
            refs.deep_view() == self@.references_of_index(start, no_notices),
    {
        let nodes = self.dfs(ctx, start, no_notices);
        let mut refs: Vec<String> = Vec::new();
        let ghost name = |node: usize| self@.ids[node as int];
        for i in 0..nodes.len()
            invariant
                self.wf(),
                all_below(nodes@, self@.ids.len()),
                name == (|node: usize| self@.ids[node as int]),
                refs.deep_view() == nodes@.take(i as int).map_values(name),
        {
            let node = nodes[i];
            let ghost before = refs.deep_view();
            refs.push(self.id_to_hash[node].clone());
            proof {
                assert(refs.deep_view() =~= before.push(self@.ids[node as int]));
            }
        }
        refs
    }

    /// The hashes of the commits that reference the commit `oid`, directly
    /// or through a chain of references: each such commit once, never
    /// `oid` itself, in the order in which the search discovers them.
    /// Notes are followed unless `no_notices` is set; fixes and reverts
    /// always are. Nothing references a commit that was not observed.
    pub fn get_references(&self, ctx: &mut Traversal, oid: &str, no_notices: bool) -> (refs: Vec<
        String,
    >)
        requires
            self.wf(),
            old(ctx).wf(),
        ensures
            final(ctx).wf(),
            refs.deep_view() == self@.references(oid@, no_notices),
            refs.deep_view().no_duplicates(),
            !refs.deep_view().contains(oid@),
            forall|other: Seq<char>|
                #![trigger refs.deep_view().contains(other)]
                #![trigger self@.is_referenced_by(oid@, other, no_notices)]
                refs.deep_view().contains(other) <==> self@.is_referenced_by(
                    oid@,
                    other,
                    no_notices,
                ),
    {
        proof {
            lemma_references(self@, oid@, no_notices);
        }
        match self.lookup(oid) {
            Some(start) => self.get_references_by_id(ctx, start, no_notices),
            None => Vec::new(),
        }
    }
}

} // verus!
