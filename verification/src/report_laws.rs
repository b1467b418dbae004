//! What holds of the reports, whatever the graph.

use crate::commit::CommitInfoView;
use crate::graph_laws::lemma_references;
use crate::reach::discovered;
use crate::ref_graph::GraphView;
use crate::report::{
    dump_block, is_known, mentioned_line, missing_nodes, missing_of, missing_upto, referencing,
    unmentioned_line,
};
use vstd::prelude::*;

verus! {

/// The commit `id` is not known and references one of the first `upto`
/// known commits, directly or through others.
pub open spec fn misses(
    graph: GraphView,
    known: Seq<CommitInfoView>,
    no_notices: bool,
    upto: int,
    id: Seq<char>,
) -> bool {
    &&& !is_known(known, id)
    &&& exists|k: int|
        0 <= k < upto && #[trigger] graph.is_referenced_by(known[k].id, id, no_notices)
}

/// A commit that no other commit references, directly or through others,
/// is reported by the one line that says that it is not mentioned
/// anywhere; any other commit by a heading and one line for each commit
/// that references it.
pub proof fn lemma_dump_block(
    graph: GraphView,
    summaries: Seq<Option<Seq<char>>>,
    node: int,
    no_notices: bool,
)
    requires
        graph.wf(),
        0 <= node < graph.ids.len(),
    ensures
        (forall|other: Seq<char>| !graph.is_referenced_by(graph.ids[node], other, no_notices))
            ==> dump_block(graph, summaries, node, no_notices) == seq![
            unmentioned_line(graph.ids[node], summaries[node]),
        ],
        (exists|other: Seq<char>| graph.is_referenced_by(graph.ids[node], other, no_notices)) ==> {
            &&& dump_block(graph, summaries, node, no_notices)[0] == mentioned_line(
                graph.ids[node],
                summaries[node],
            )
            &&& dump_block(graph, summaries, node, no_notices).len() == 1 + graph.references(
                graph.ids[node],
                no_notices,
            ).len()
        },
{
    let id = graph.ids[node];
    let refs = graph.references(id, no_notices);
    let nodes = discovered(graph.referenced_by, node as usize, no_notices);
    lemma_references(graph, id, no_notices);
    assert(graph.ids.contains(id));
    assert(graph.ids.index_of(id) == node);
    assert(refs.len() == nodes.len());
    if forall|other: Seq<char>| !graph.is_referenced_by(id, other, no_notices) {
        if refs.len() > 0 {
            assert(refs.contains(refs[0]));
            assert(graph.is_referenced_by(id, refs[0], no_notices));
        }
        assert(nodes.len() == 0);
    }
    if exists|other: Seq<char>| graph.is_referenced_by(id, other, no_notices) {
        let other = choose|other: Seq<char>| graph.is_referenced_by(id, other, no_notices);
        assert(refs.contains(other));
    }
}

/// What a known commit is missing: the commits that reference it, directly
/// or through others, and are not known.
pub proof fn lemma_missing_of(
    graph: GraphView,
    known: Seq<CommitInfoView>,
    k: int,
    no_notices: bool,
    id: Seq<char>,
)
    requires
        graph.wf(),
        0 <= k < known.len(),
    ensures
        missing_of(graph, known, k, no_notices).contains(id) <==> !is_known(known, id)
            && graph.is_referenced_by(known[k].id, id, no_notices),
{
    let target = known[k].id;
    let nodes = referencing(graph, target, no_notices);
    let unknown = |node: usize| !is_known(known, graph.ids[node as int]);
    let name = |node: usize| graph.ids[node as int];
    let gaps = missing_nodes(graph, known, k, no_notices);
    let more = missing_of(graph, known, k, no_notices);
    let refs = graph.references(target, no_notices);
    lemma_references(graph, target, no_notices);
    assert(refs =~= nodes.map_values(name));
    if more.contains(id) {
        let w = choose|w: int| 0 <= w < more.len() && more[w] == id;
        nodes.lemma_filter_pred(unknown, w);
        nodes.lemma_filter_contains_rev(unknown, gaps[w]);
        let v = choose|v: int| 0 <= v < nodes.len() && nodes[v] == gaps[w];
        assert(refs[v] == id);
        assert(refs.contains(id));
    }
    if !is_known(known, id) && graph.is_referenced_by(target, id, no_notices) {
        assert(refs.contains(id));
        let v = choose|v: int| 0 <= v < refs.len() && refs[v] == id;
        nodes.lemma_filter_contains(unknown, v);
        let w = choose|w: int| 0 <= w < gaps.len() && gaps[w] == nodes[v];
        assert(more[w] == id);
    }
}

/// Leaving out what is listed already keeps a list free of repetitions.
pub proof fn lemma_remove_duplicates_distinct(more: Seq<Seq<char>>, seen: Seq<Seq<char>>)
    requires
        seen.no_duplicates(),
    ensures
        more.remove_duplicates(seen).no_duplicates(),
    decreases more.len(),
{
    if more.len() == 0 {
    } else if seen.contains(more[0]) {
        lemma_remove_duplicates_distinct(more.skip(1), seen);
    } else {
        let grown = seen + seq![more[0]];
        assert forall|a: int, b: int|
            0 <= a < grown.len() && 0 <= b < grown.len() && a != b implies grown[a]
            != grown[b] by {
            if a < seen.len() && b < seen.len() {
            } else if a < seen.len() {
                assert(seen.contains(seen[a]));
            } else {
                assert(seen.contains(seen[b]));
            }
        }
        lemma_remove_duplicates_distinct(more.skip(1), grown);
    }
}

/// The missing commits of a check: a commit is among them exactly when it
/// is not known and references one of the known commits, directly or
/// through others; and none is listed twice.
pub proof fn lemma_missing(
    graph: GraphView,
    known: Seq<CommitInfoView>,
    no_notices: bool,
    upto: int,
)
    requires
        graph.wf(),
        0 <= upto <= known.len(),
    ensures
        missing_upto(graph, known, no_notices, upto).no_duplicates(),
        forall|id: Seq<char>|
            #![trigger missing_upto(graph, known, no_notices, upto).contains(id)]
            #![trigger misses(graph, known, no_notices, upto, id)]
            missing_upto(graph, known, no_notices, upto).contains(id) <==> misses(
                graph,
                known,
                no_notices,
                upto,
                id,
            ),
    decreases upto,
{
    let all = missing_upto(graph, known, no_notices, upto);
    if upto > 0 {
        let k = upto - 1;
        let earlier = missing_upto(graph, known, no_notices, k);
        let more = missing_of(graph, known, k, no_notices);
        let both = more + earlier;
        lemma_missing(graph, known, no_notices, k);
        lemma_remove_duplicates_distinct(more, earlier);
        more.lemma_remove_duplicates_properties(earlier);
        assert forall|id: Seq<char>|
            #![trigger all.contains(id)]
            #![trigger misses(graph, known, no_notices, upto, id)]
            all.contains(id) <==> misses(graph, known, no_notices, upto, id) by {
            lemma_missing_of(graph, known, k, no_notices, id);
            if all.contains(id) {
                assert(both.contains(id));
                let w = choose|w: int| 0 <= w < both.len() && both[w] == id;
                if w < more.len() {
                    assert(more.contains(id));
                } else {
                    assert(earlier[w - more.len()] == id);
                    assert(earlier.contains(id));
                    assert(misses(graph, known, no_notices, k, id));
                    let j = choose|j: int|
                        0 <= j < k && #[trigger] graph.is_referenced_by(
                            known[j].id,
                            id,
                            no_notices,
                        );
                    assert(0 <= j < upto);
                }
            }
            if misses(graph, known, no_notices, upto, id) {
                let j = choose|j: int|
                    0 <= j < upto && #[trigger] graph.is_referenced_by(
                        known[j].id,
                        id,
                        no_notices,
                    );
                if j == k {
                    assert(more.contains(id));
                    let w = choose|w: int| 0 <= w < more.len() && more[w] == id;
                    assert(both[w] == id);
                } else {
                    assert(misses(graph, known, no_notices, k, id));
                    assert(earlier.contains(id));
                    let w = choose|w: int| 0 <= w < earlier.len() && earlier[w] == id;
                    assert(both[more.len() + w] == id);
                }
                assert(both.contains(id));
            }
        }
    }
}

} // verus!
