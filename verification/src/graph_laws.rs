//! What holds of every reference graph, stated over its mathematical value.

use crate::reach::{
    closed_graph, discovered, lemma_discovered, lemma_notes_only_add, lemma_reaches_transitive,
    reaches,
};
use crate::ref_graph::{GraphView, MentionOutcome, MentionView, WalkedCommitView};
use crate::ref_type::RefType;
use vstd::prelude::*;

verus! {

/// Mention `i` names the commit at index `target`.
pub open spec fn mention_names(
    graph: GraphView,
    mentions: Seq<MentionView>,
    i: int,
    target: int,
) -> bool {
    0 <= i < mentions.len() && mentions[i].target == Some(graph.ids[target])
}

/// The hashes of the commits of a walk are pairwise different.
pub open spec fn distinct_commits(commits: Seq<WalkedCommitView>) -> bool {
    forall|i: int, j: int|
        0 <= i < commits.len() && 0 <= j < commits.len() && i != j ==> (#[trigger] commits[i]).id
            != (#[trigger] commits[j]).id
}

/// The kind of the edge that a commit's mentions leave at a target is the
/// maximum, by rank, of the kinds of the mentions that name the target:
/// one of them has it and none is stronger. There is no edge exactly when
/// no mention names the target.
pub proof fn lemma_strongest_is_maximum(graph: GraphView, mentions: Seq<MentionView>, target: int)
    ensures
        graph.strongest(mentions, target) matches Some(kind) ==> {
            &&& exists|i: int| #[trigger]
                mention_names(graph, mentions, i, target) && mentions[i].ref_type == kind
            &&& forall|i: int| #[trigger]
                mention_names(graph, mentions, i, target) ==> mentions[i].ref_type.rank()
                    <= kind.rank()
        },
        graph.strongest(mentions, target) is None ==> forall|i: int|
            !#[trigger] mention_names(graph, mentions, i, target),
    decreases mentions.len(),
{
    if mentions.len() > 0 {
        let head = mentions.drop_last();
        let last = mentions.len() - 1;
        lemma_strongest_is_maximum(graph, head, target);
        assert forall|i: int| #[trigger]
            mention_names(graph, mentions, i, target) && i < last implies mention_names(
            graph,
            head,
            i,
            target,
        ) by {
            assert(head[i] == mentions[i]);
        }
        match graph.strongest(mentions, target) {
            Some(kind) => {
                if mentions[last].target == Some(graph.ids[target]) && mentions[last].ref_type
                    == kind {
                    assert(mention_names(graph, mentions, last, target));
                } else {
                    let i = choose|i: int| #[trigger]
                        mention_names(graph, head, i, target) && head[i].ref_type == kind;
                    assert(mention_names(graph, mentions, i, target));
                    assert(mentions[i] == head[i]);
                }
                assert forall|i: int| #[trigger]
                    mention_names(graph, mentions, i, target) implies mentions[i].ref_type.rank()
                    <= kind.rank() by {
                    if i < last {
                        assert(mention_names(graph, head, i, target));
                        assert(head[i] == mentions[i]);
                    }
                }
            },
            None => {
                assert forall|i: int| !#[trigger] mention_names(graph, mentions, i, target) by {
                    if mention_names(graph, mentions, i, target) {
                        if i < last {
                            assert(mention_names(graph, head, i, target));
                        }
                    }
                }
            },
        }
    }
}

/// A revert prevails: if one of the mentions that name a commit is a
/// revert, the edge is a revert, whatever the other mentions are.
pub proof fn lemma_revert_prevails(
    graph: GraphView,
    mentions: Seq<MentionView>,
    target: int,
    i: int,
)
    requires
        mention_names(graph, mentions, i, target),
        mentions[i].ref_type == RefType::Revert,
    ensures
        graph.strongest(mentions, target) == Some(RefType::Revert),
{
    lemma_strongest_is_maximum(graph, mentions, target);
}

/// Adding a commit keeps a graph well formed.
pub proof fn lemma_with_commit_wf(graph: GraphView, id: Seq<char>, mentions: Seq<MentionView>)
    requires
        graph.wf(),
        graph.observe(id).ids.len() <= usize::MAX,
    ensures
        graph.observe(id).wf(),
        graph.observe(id).ids.contains(id),
        graph.with_commit(id, mentions).wf(),
        graph.with_commit(id, mentions).ids == graph.observe(id).ids,
{
    let seen = graph.observe(id);
    let next = graph.with_commit(id, mentions);
    if graph.ids.contains(id) {
    } else {
        assert(seen.ids[graph.ids.len() as int] == id);
        assert(closed_graph(seen.referenced_by)) by {
            assert forall|t: int, k: int|
                0 <= t < seen.referenced_by.len() && 0 <= k
                    < seen.referenced_by[t].len() implies (#[trigger] seen.referenced_by[t][k]).0
                < seen.referenced_by.len() by {
                assert(seen.referenced_by[t][k] == graph.referenced_by[t][k]);
            }
        }
    }
    let source = seen.ids.index_of(id);
    assert(0 <= source < seen.ids.len());
    assert(closed_graph(next.referenced_by)) by {
        assert forall|t: int, k: int|
            0 <= t < next.referenced_by.len() && 0 <= k < next.referenced_by[t].len() implies (
        #[trigger] next.referenced_by[t][k]).0 < next.referenced_by.len() by {
            if k < seen.referenced_by[t].len() {
                assert(next.referenced_by[t][k] == seen.referenced_by[t][k]);
            }
        }
    }
}

/// A mention that is not recorded changes nothing: the graph is the one
/// that the other mentions alone give, and it has no node for a commit
/// that only such a mention names.
pub proof fn lemma_dropped_mention_leaves_no_trace(
    graph: GraphView,
    id: Seq<char>,
    mentions: Seq<MentionView>,
    k: int,
)
    requires
        graph.wf(),
        0 <= k < mentions.len(),
        graph.observe(id).outcome(mentions[k]) != MentionOutcome::Recorded,
    ensures
        graph.with_commit(id, mentions) == graph.with_commit(id, mentions.remove(k)),
        mentions[k].target matches Some(named) ==> !graph.with_commit(id, mentions).ids.contains(
            named,
        ),
{
    let seen = graph.observe(id);
    let others = mentions.remove(k);
    assert forall|t: int| 0 <= t < seen.ids.len() implies seen.strongest(mentions, t)
        == seen.strongest(others, t) by {
        assert(seen.ids.contains(seen.ids[t]));
        lemma_strongest_without(seen, mentions, k, t);
    }
    let with_all = graph.with_commit(id, mentions);
    let with_others = graph.with_commit(id, others);
    assert(with_all.referenced_by.len() == with_others.referenced_by.len());
    assert forall|t: int| 0 <= t < with_all.referenced_by.len() implies with_all.referenced_by[t]
        == with_others.referenced_by[t] by {
        assert(seen.referenced_by.len() == seen.ids.len());
        assert(seen.strongest(mentions, t) == seen.strongest(others, t));
    }
    assert(with_all.referenced_by =~= with_others.referenced_by);
    if mentions[k].target is Some {
        assert(!seen.ids.contains(mentions[k].target->0));
    }
}

/// A mention that does not name the target has no part in the strongest
/// kind for it.
pub proof fn lemma_strongest_without(
    graph: GraphView,
    mentions: Seq<MentionView>,
    k: int,
    target: int,
)
    requires
        0 <= k < mentions.len(),
        mentions[k].target != Some(graph.ids[target]),
    ensures
        graph.strongest(mentions, target) == graph.strongest(mentions.remove(k), target),
    decreases mentions.len(),
{
    let last = mentions.len() - 1;
    if k == last {
        assert(mentions.remove(k) =~= mentions.drop_last());
    } else {
        let head = mentions.drop_last();
        lemma_strongest_without(graph, head, k, target);
        assert(mentions.remove(k).drop_last() =~= head.remove(k));
        assert(mentions.remove(k).last() == mentions.last());
    }
}

/// A commit that is observed for the first time gets edges to itself
/// only from itself or later commits: adding it keeps every edge pointing
/// from the later commit to the earlier, and keeps the edges between any
/// two commits single.
pub proof fn lemma_new_commit_keeps_order(
    graph: GraphView,
    id: Seq<char>,
    mentions: Seq<MentionView>,
)
    requires
        graph.wf(),
        graph.chronological(),
        graph.single_edges(),
        graph.ids.len() < usize::MAX,
        !graph.ids.contains(id),
    ensures
        graph.with_commit(id, mentions).chronological(),
        graph.with_commit(id, mentions).single_edges(),
        graph.with_commit(id, mentions).ids == graph.ids.push(id),
{
    let seen = graph.observe(id);
    let next = graph.with_commit(id, mentions);
    let source = seen.ids.index_of(id) as usize;
    assert(seen.ids[graph.ids.len() as int] == id);
    lemma_with_commit_wf(graph, id, mentions);
    assert(source == graph.ids.len());
    let n = graph.ids.len() as int;
    assert(seen.referenced_by[n] == Seq::<(usize, RefType)>::empty());
    assert forall|t: int| 0 <= t < n implies seen.referenced_by[t] == graph.referenced_by[t] by {}
    assert forall|t: int, k: int|
        0 <= t < next.referenced_by.len() && 0 <= k < next.referenced_by[t].len() implies t <= (
    #[trigger] next.referenced_by[t][k]).0 by {
        if k < seen.referenced_by[t].len() {
            assert(t < n);
            assert(next.referenced_by[t][k] == seen.referenced_by[t][k]);
            assert(t <= graph.referenced_by[t][k].0);
        } else {
            assert(next.referenced_by[t][k].0 == source);
        }
    }
    assert forall|t: int, a: int, b: int|
        0 <= t < next.referenced_by.len() && 0 <= a < b < next.referenced_by[t].len() implies (
    #[trigger] next.referenced_by[t][a]).0 != (#[trigger] next.referenced_by[t][b]).0 by {
        assert(a < seen.referenced_by[t].len());
        assert(t < n);
        assert(next.referenced_by[t][a] == seen.referenced_by[t][a]);
        assert(graph.referenced_by[t][a].0 < graph.referenced_by.len());
        if b < seen.referenced_by[t].len() {
            assert(next.referenced_by[t][b] == seen.referenced_by[t][b]);
        } else {
            assert(next.referenced_by[t][b].0 == source);
        }
    }
}

/// The graph of a walk over pairwise different commits numbers them in the
/// order of the walk, and whatever that order is, every edge points from a
/// commit to one that came no later in the walk: a reference to a commit
/// that the walk reaches only afterwards leaves no edge. Between any two
/// commits there is at most one edge.
pub proof fn lemma_walk_keeps_order(commits: Seq<WalkedCommitView>)
    requires
        distinct_commits(commits),
        commits.len() <= usize::MAX,
    ensures
        GraphView::built_from(commits).wf(),
        GraphView::built_from(commits).ids == commits.map_values(|c: WalkedCommitView| c.id),
        GraphView::built_from(commits).chronological(),
        GraphView::built_from(commits).single_edges(),
    decreases commits.len(),
{
    let ids = commits.map_values(|c: WalkedCommitView| c.id);
    if commits.len() == 0 {
        assert(GraphView::built_from(commits).ids =~= ids);
    } else {
        let head = commits.drop_last();
        let last = commits.last();
        let graph = GraphView::built_from(head);
        assert(distinct_commits(head)) by {
            assert forall|i: int, j: int|
                0 <= i < head.len() && 0 <= j < head.len() && i != j implies (#[trigger] head[i]).id
                != (#[trigger] head[j]).id by {
                assert(head[i] == commits[i] && head[j] == commits[j]);
            }
        }
        lemma_walk_keeps_order(head);
        assert(!graph.ids.contains(last.id)) by {
            if graph.ids.contains(last.id) {
                let i = choose|i: int| 0 <= i < graph.ids.len() && graph.ids[i] == last.id;
                assert(head[i] == commits[i]);
                assert(commits[i].id == commits[commits.len() - 1].id);
            }
        }
        lemma_with_commit_wf(graph, last.id, last.mentions);
        lemma_new_commit_keeps_order(graph, last.id, last.mentions);
        assert(graph.ids.push(last.id) =~= ids);
    }
}

/// Commit `i` of the walk is the commit `id`.
pub open spec fn walked_at(commits: Seq<WalkedCommitView>, i: int, id: Seq<char>) -> bool {
    0 <= i < commits.len() && commits[i].id == id
}

/// The commit `id` is one of the commits of the walk.
pub open spec fn is_walked(commits: Seq<WalkedCommitView>, id: Seq<char>) -> bool {
    exists|i: int| walked_at(commits, i, id)
}

/// Mention `m` of commit `j` of the walk names the commit `id`.
pub open spec fn mentioned_at(
    commits: Seq<WalkedCommitView>,
    j: int,
    m: int,
    id: Seq<char>,
) -> bool {
    &&& 0 <= j < commits.len()
    &&& 0 <= m < commits[j].mentions.len()
    &&& commits[j].mentions[m].target == Some(id)
}

/// The walk accounts for an edge from `source` to `target`: at some
/// position it hands over `source` with a mention of `target`, and
/// `target` itself at that position or before.
pub open spec fn accounts_for(
    commits: Seq<WalkedCommitView>,
    source: Seq<char>,
    target: Seq<char>,
) -> bool {
    exists|i: int, j: int, m: int|
        #![trigger walked_at(commits, i, target), mentioned_at(commits, j, m, target)]
        i <= j && walked_at(commits, i, target) && walked_at(commits, j, source) && mentioned_at(
            commits,
            j,
            m,
            target,
        )
}

/// Whatever the order and the content of a walk, its graph holds only
/// commits of the walk, and only edges that the walk accounts for: a
/// commit is referenced only by a commit that mentions it and that the
/// walk hands over no earlier than the commit itself. A reference to a
/// commit that comes only later in the walk leaves no edge.
pub proof fn lemma_walk_accounts_for_edges(commits: Seq<WalkedCommitView>)
    requires
        commits.len() <= usize::MAX,
    ensures
        GraphView::built_from(commits).wf(),
        GraphView::built_from(commits).ids.len() <= commits.len(),
        forall|node: int|
            0 <= node < GraphView::built_from(commits).ids.len() ==> is_walked(
                commits,
                #[trigger] GraphView::built_from(commits).ids[node],
            ),
        forall|target: int, k: int|
            0 <= target < GraphView::built_from(commits).referenced_by.len() && 0 <= k
                < GraphView::built_from(commits).referenced_by[target].len() ==> accounts_for(
                commits,
                GraphView::built_from(commits).ids[(
                #[trigger] GraphView::built_from(commits).referenced_by[target][k]).0 as int],
                GraphView::built_from(commits).ids[target],
            ),
    decreases commits.len(),
{
    let built = GraphView::built_from(commits);
    if commits.len() > 0 {
        let head = commits.drop_last();
        let last = commits.last();
        let at = commits.len() - 1;
        let graph = GraphView::built_from(head);
        let seen = graph.observe(last.id);
        lemma_walk_accounts_for_edges(head);
        lemma_with_commit_wf(graph, last.id, last.mentions);
        let source = seen.ids.index_of(last.id) as usize;
        assert(seen.ids[source as int] == last.id);
        assert forall|node: int| 0 <= node < built.ids.len() implies is_walked(
            commits,
            #[trigger] built.ids[node],
        ) by {
            if node < graph.ids.len() {
                assert(is_walked(head, graph.ids[node]));
                let i = choose|i: int| walked_at(head, i, graph.ids[node]);
                assert(walked_at(commits, i, built.ids[node]));
            } else {
                assert(walked_at(commits, at, built.ids[node]));
            }
        }
        assert forall|target: int, k: int|
            0 <= target < built.referenced_by.len() && 0 <= k
                < built.referenced_by[target].len() implies accounts_for(
            commits,
            built.ids[(#[trigger] built.referenced_by[target][k]).0 as int],
            built.ids[target],
        ) by {
            let named = built.ids[target];
            if k < seen.referenced_by[target].len() {
                assert(target < graph.ids.len());
                let from = graph.ids[graph.referenced_by[target][k].0 as int];
                assert(built.referenced_by[target][k] == graph.referenced_by[target][k]);
                assert(accounts_for(head, from, named));
                let (i, j, m) = choose|i: int, j: int, m: int|
                    #![trigger walked_at(head, i, named), mentioned_at(head, j, m, named)]
                    i <= j && walked_at(head, i, named) && walked_at(head, j, from)
                        && mentioned_at(head, j, m, named);
                assert(walked_at(commits, i, named));
                assert(walked_at(commits, j, from));
                assert(mentioned_at(commits, j, m, named));
            } else {
                assert(built.referenced_by[target][k].0 == source);
                lemma_strongest_is_maximum(seen, last.mentions, target);
                let m = choose|m: int| mention_names(seen, last.mentions, m, target);
                assert(is_walked(commits, named));
                let i = choose|i: int| walked_at(commits, i, named);
                assert(walked_at(commits, i, named));
                assert(walked_at(commits, at, last.id));
                assert(mentioned_at(commits, at, m, named));
            }
        }
    }
}

/// What a query returns: every commit other than `id` that references it
/// directly or through a chain of followed edges, each once, and nothing
/// else.
pub proof fn lemma_references(graph: GraphView, id: Seq<char>, no_notices: bool)
    requires
        graph.wf(),
    ensures
        graph.references(id, no_notices).no_duplicates(),
        !graph.references(id, no_notices).contains(id),
        forall|other: Seq<char>|
            #![trigger graph.references(id, no_notices).contains(other)]
            #![trigger graph.is_referenced_by(id, other, no_notices)]
            graph.references(id, no_notices).contains(other) <==> graph.is_referenced_by(
                id,
                other,
                no_notices,
            ),
{
    let refs = graph.references(id, no_notices);
    let adj = graph.referenced_by;
    if graph.ids.contains(id) {
        let start = graph.ids.index_of(id) as usize;
        let nodes = discovered(adj, start, no_notices);
        lemma_discovered(adj, start, no_notices);
        assert forall|a: int, b: int|
            0 <= a < refs.len() && 0 <= b < refs.len() && a != b implies refs[a] != refs[b] by {
            assert(nodes[a] < graph.ids.len() && nodes[b] < graph.ids.len());
        }
        if refs.contains(id) {
            let a = choose|a: int| 0 <= a < refs.len() && refs[a] == id;
            assert(nodes[a] < graph.ids.len());
            assert(nodes.contains(nodes[a]));
        }
        assert forall|other: Seq<char>| refs.contains(other) implies graph.is_referenced_by(
            id,
            other,
            no_notices,
        ) by {
            let a = choose|a: int| 0 <= a < refs.len() && refs[a] == other;
            assert(nodes[a] < graph.ids.len());
            assert(nodes.contains(nodes[a]));
            assert(reaches(adj, start, nodes[a], no_notices));
        }
        assert forall|other: Seq<char>|
            graph.is_referenced_by(id, other, no_notices) implies refs.contains(other) by {
            let (target, source) = choose|target: usize, source: usize|
                target < graph.ids.len() && source < graph.ids.len() && graph.ids[target as int]
                    == id && graph.ids[source as int] == other && source != target
                    && #[trigger] reaches(adj, target, source, no_notices);
            assert(target == start);
            assert(nodes.contains(source));
            let a = choose|a: int| 0 <= a < nodes.len() && nodes[a] == source;
            assert(refs[a] == other);
        }
    } else {
        assert forall|other: Seq<char>| !graph.is_referenced_by(id, other, no_notices) by {
            if graph.is_referenced_by(id, other, no_notices) {
                let (target, source) = choose|target: usize, source: usize|
                    target < graph.ids.len() && source < graph.ids.len() && graph.ids[target as int]
                        == id && graph.ids[source as int] == other && source != target
                        && #[trigger] reaches(adj, target, source, no_notices);
                assert(graph.ids.contains(graph.ids[target as int]));
            }
        }
    }
}

/// Following notes can only add to what a query returns: every commit that
/// is returned with notes left out is also returned with notes followed.
pub proof fn lemma_notes_widen_references(graph: GraphView, id: Seq<char>, other: Seq<char>)
    requires
        graph.wf(),
        graph.references(id, true).contains(other),
    ensures
        graph.references(id, false).contains(other),
{
    lemma_references(graph, id, true);
    lemma_references(graph, id, false);
    assert(graph.is_referenced_by(id, other, true));
    let (target, source) = choose|target: usize, source: usize|
        target < graph.ids.len() && source < graph.ids.len() && graph.ids[target as int] == id
            && graph.ids[source as int] == other && source != target && #[trigger] reaches(
            graph.referenced_by,
            target,
            source,
            true,
        );
    lemma_notes_only_add(graph.referenced_by, target, source);
    assert(graph.is_referenced_by(id, other, false));
}

/// References chain: a commit that references one of the commits that
/// reference `id` references `id` too, unless it is `id` itself.
pub proof fn lemma_references_chain(
    graph: GraphView,
    id: Seq<char>,
    between: Seq<char>,
    other: Seq<char>,
    no_notices: bool,
)
    requires
        graph.wf(),
        graph.references(id, no_notices).contains(between),
        graph.references(between, no_notices).contains(other),
        other != id,
    ensures
        graph.references(id, no_notices).contains(other),
{
    let adj = graph.referenced_by;
    lemma_references(graph, id, no_notices);
    lemma_references(graph, between, no_notices);
    assert(graph.is_referenced_by(id, between, no_notices));
    assert(graph.is_referenced_by(between, other, no_notices));
    let (start, middle) = choose|target: usize, source: usize|
        target < graph.ids.len() && source < graph.ids.len() && graph.ids[target as int] == id
            && graph.ids[source as int] == between && source != target && #[trigger] reaches(
            adj,
            target,
            source,
            no_notices,
        );
    let (again, end) = choose|target: usize, source: usize|
        target < graph.ids.len() && source < graph.ids.len() && graph.ids[target as int] == between
            && graph.ids[source as int] == other && source != target && #[trigger] reaches(
            adj,
            target,
            source,
            no_notices,
        );
    assert(again == middle);
    lemma_reaches_transitive(adj, start, middle, end, no_notices);
    assert(graph.is_referenced_by(id, other, no_notices));
}

} // verus!
