//! Reachability over reverse adjacency, and the order in which a
//! depth-first search discovers what is reachable.
//!
//! Nodes are indices. A graph here is its reverse adjacency alone: for each
//! node, the list of `(source, kind)` pairs of the commits that reference it.
//! An edge therefore leads from a commit to a commit that references it.

use crate::ref_type::RefType;
use vstd::prelude::*;

verus! {

/// Reverse adjacency: entry `t` lists the commits that reference node `t`.
pub type Adjacency = Seq<Seq<(usize, RefType)>>;

/// Every source named in an adjacency list is a node of the graph.
pub open spec fn closed_graph(adj: Adjacency) -> bool {
    forall|t: int, k: int|
        0 <= t < adj.len() && 0 <= k < adj[t].len() ==> (#[trigger] adj[t][k]).0 < adj.len()
}

/// Entry `k` of the list of `target` is a followed edge to `source`.
pub open spec fn edge_at(
    adj: Adjacency,
    target: usize,
    k: int,
    source: usize,
    no_notices: bool,
) -> bool {
    &&& target < adj.len()
    &&& 0 <= k < adj[target as int].len()
    &&& adj[target as int][k].0 == source
    &&& adj[target as int][k].1.follows(no_notices)
}

/// `source` references `target` by an edge that the filter lets through.
pub open spec fn has_edge(adj: Adjacency, target: usize, source: usize, no_notices: bool) -> bool {
    exists|k: int| edge_at(adj, target, k, source, no_notices)
}

/// Step `i` of `path` is a followed edge.
pub open spec fn link(adj: Adjacency, path: Seq<usize>, i: int, no_notices: bool) -> bool {
    has_edge(adj, path[i], path[i + 1], no_notices)
}

/// `path` has at least one step, and each step is a followed edge.
pub open spec fn is_chain(adj: Adjacency, path: Seq<usize>, no_notices: bool) -> bool {
    &&& path.len() >= 2
    &&& forall|i: int| 0 <= i < path.len() - 1 ==> #[trigger] link(adj, path, i, no_notices)
}

/// `path` is a chain of followed edges that starts at `from` and ends at `to`.
pub open spec fn chain_between(
    adj: Adjacency,
    path: Seq<usize>,
    from: usize,
    to: usize,
    no_notices: bool,
) -> bool {
    &&& is_chain(adj, path, no_notices)
    &&& path.first() == from
    &&& path.last() == to
}

/// `to` references `from`, directly or through a chain of followed edges.
pub open spec fn reaches(adj: Adjacency, from: usize, to: usize, no_notices: bool) -> bool {
    exists|path: Seq<usize>| chain_between(adj, path, from, to, no_notices)
}

/// Every element of `s` is below `n`.
pub open spec fn all_below(s: Seq<usize>, n: nat) -> bool {
    forall|i: int| 0 <= i < s.len() ==> #[trigger] s[i] < n
}

/// The nodes that a scan of one adjacency list discovers, in order: the
/// sources of followed edges that are neither in `seen` nor discovered
/// earlier in the same scan.
pub open spec fn discover(
    edges: Seq<(usize, RefType)>,
    seen: Seq<usize>,
    no_notices: bool,
) -> Seq<usize>
    decreases edges.len(),
{
    if edges.len() == 0 {
        Seq::empty()
    } else {
        let edge = edges.first();
        if !seen.contains(edge.0) && edge.1.follows(no_notices) {
            seq![edge.0] + discover(edges.drop_first(), seen.push(edge.0), no_notices)
        } else {
            discover(edges.drop_first(), seen, no_notices)
        }
    }
}

/// What a search in progress needs of its state: the graph is closed, the
/// nodes seen so far are distinct nodes of the graph, and the stack holds
/// nodes of the graph.
pub open spec fn search_state(adj: Adjacency, stack: Seq<usize>, seen: Seq<usize>) -> bool {
    &&& closed_graph(adj)
    &&& seen.no_duplicates()
    &&& all_below(seen, adj.len())
    &&& all_below(stack, adj.len())
}

/// The nodes that a depth-first search discovers from here on, in order.
/// Each round takes the node on top of the stack, scans its adjacency list,
/// and puts what the scan discovers on the list of seen nodes and on the
/// stack.
pub open spec fn search(
    adj: Adjacency,
    stack: Seq<usize>,
    seen: Seq<usize>,
    no_notices: bool,
) -> Seq<usize>
    decreases adj.len() - seen.len(), stack.len(),
    when search_state(adj, stack, seen)
    via search_decreases
{
    if stack.len() == 0 {
        Seq::empty()
    } else {
        let found = discover(adj[stack.last() as int], seen, no_notices);
        found + search(adj, stack.drop_last() + found, seen + found, no_notices)
    }
}

/// The nodes that a depth-first search from `start` discovers, in the order
/// of discovery. The start node itself is not among them.
pub open spec fn discovered(adj: Adjacency, start: usize, no_notices: bool) -> Seq<usize> {
    search(adj, seq![start], seq![start], no_notices)
}

/// A sequence of distinct numbers below `n` has at most `n` elements.
pub proof fn lemma_distinct_below_len(s: Seq<usize>, n: nat)
    requires
        s.no_duplicates(),
        all_below(s, n),
    ensures
        s.len() <= n,
    decreases n,
{
    if n == 0 {
        if s.len() > 0 {
            assert(s[0] < n);
        }
    } else {
        let top = (n - 1) as nat;
        if exists|i: int| 0 <= i < s.len() && s[i] == top {
            let i = choose|i: int| 0 <= i < s.len() && s[i] == top;
            let rest = s.remove(i);
            assert forall|a: int, b: int|
                0 <= a < rest.len() && 0 <= b < rest.len() && a != b implies rest[a]
                != rest[b] by {
                let a0 = if a < i { a } else { a + 1 };
                let b0 = if b < i { b } else { b + 1 };
                assert(rest[a] == s[a0] && rest[b] == s[b0]);
            }
            assert forall|a: int| 0 <= a < rest.len() implies #[trigger] rest[a] < top by {
                let a0 = if a < i { a } else { a + 1 };
                assert(rest[a] == s[a0]);
                assert(s[a0] < n);
            }
            lemma_distinct_below_len(rest, top);
        } else {
            assert forall|a: int| 0 <= a < s.len() implies #[trigger] s[a] < top by {
                assert(s[a] < n);
            }
            lemma_distinct_below_len(s, top);
        }
    }
}

/// What a scan discovers: distinct nodes not seen before, each the source
/// of a followed edge of the list, and together with the seen nodes all
/// the sources of followed edges of the list.
pub proof fn lemma_discover(edges: Seq<(usize, RefType)>, seen: Seq<usize>, no_notices: bool)
    ensures
        discover(edges, seen, no_notices).no_duplicates(),
        forall|j: int|
            0 <= j < discover(edges, seen, no_notices).len() ==> {
                let x = #[trigger] discover(edges, seen, no_notices)[j];
                &&& !seen.contains(x)
                &&& exists|k: int|
                    0 <= k < edges.len() && (#[trigger] edges[k]).0 == x && edges[k].1.follows(
                        no_notices,
                    )
            },
        forall|k: int|
            0 <= k < edges.len() && (#[trigger] edges[k]).1.follows(no_notices) ==> seen.contains(
                edges[k].0,
            ) || discover(edges, seen, no_notices).contains(edges[k].0),
    decreases edges.len(),
{
    let found = discover(edges, seen, no_notices);
    if edges.len() == 0 {
    } else {
        let edge = edges.first();
        let rest = edges.drop_first();
        if !seen.contains(edge.0) && edge.1.follows(no_notices) {
            let seen2 = seen.push(edge.0);
            let tail = discover(rest, seen2, no_notices);
            lemma_discover(rest, seen2, no_notices);
            assert(found == seq![edge.0] + tail);
            assert(seen2.contains(edge.0)) by {
                assert(seen2[seen.len() as int] == edge.0);
            }
            assert forall|j: int| 0 <= j < found.len() implies {
                let x = #[trigger] found[j];
                &&& !seen.contains(x)
                &&& exists|k: int|
                    0 <= k < edges.len() && (#[trigger] edges[k]).0 == x && edges[k].1.follows(
                        no_notices,
                    )
            } by {
                let x = found[j];
                if j == 0 {
                    assert(edges[0].0 == x);
                } else {
                    assert(x == tail[j - 1]);
                    assert(!seen2.contains(x));
                    if seen.contains(x) {
                        let i = choose|i: int| 0 <= i < seen.len() && seen[i] == x;
                        assert(seen2[i] == x);
                    }
                    let k = choose|k: int|
                        0 <= k < rest.len() && (#[trigger] rest[k]).0 == x && rest[k].1.follows(
                            no_notices,
                        );
                    assert(edges[k + 1] == rest[k]);
                }
            }
            assert(found.no_duplicates()) by {
                assert forall|a: int, b: int|
                    0 <= a < found.len() && 0 <= b < found.len() && a != b implies found[a]
                    != found[b] by {
                    if a == 0 {
                        assert(found[b] == tail[b - 1]);
                        assert(!seen2.contains(tail[b - 1]));
                    } else if b == 0 {
                        assert(found[a] == tail[a - 1]);
                        assert(!seen2.contains(tail[a - 1]));
                    } else {
                        assert(found[a] == tail[a - 1]);
                        assert(found[b] == tail[b - 1]);
                    }
                }
            }
            assert forall|k: int|
                0 <= k < edges.len() && (#[trigger] edges[k]).1.follows(
                    no_notices,
                ) implies seen.contains(edges[k].0) || found.contains(edges[k].0) by {
                if k == 0 {
                    assert(found[0] == edge.0);
                } else {
                    assert(edges[k] == rest[k - 1]);
                    let x = edges[k].0;
                    if seen2.contains(x) {
                        let i = choose|i: int| 0 <= i < seen2.len() && seen2[i] == x;
                        if i < seen.len() {
                            assert(seen[i] == x);
                        } else {
                            assert(found[0] == x);
                        }
                    } else {
                        let j = choose|j: int| 0 <= j < tail.len() && tail[j] == x;
                        assert(found[j + 1] == x);
                    }
                }
            }
        } else {
            let tail = discover(rest, seen, no_notices);
            lemma_discover(rest, seen, no_notices);
            assert(found == tail);
            assert forall|j: int| 0 <= j < found.len() implies {
                let x = #[trigger] found[j];
                &&& !seen.contains(x)
                &&& exists|k: int|
                    0 <= k < edges.len() && (#[trigger] edges[k]).0 == x && edges[k].1.follows(
                        no_notices,
                    )
            } by {
                let x = found[j];
                let k = choose|k: int|
                    0 <= k < rest.len() && (#[trigger] rest[k]).0 == x && rest[k].1.follows(
                        no_notices,
                    );
                assert(edges[k + 1] == rest[k]);
            }
            assert forall|k: int|
                0 <= k < edges.len() && (#[trigger] edges[k]).1.follows(
                    no_notices,
                ) implies seen.contains(edges[k].0) || found.contains(edges[k].0) by {
                if k == 0 {
                } else {
                    assert(edges[k] == rest[k - 1]);
                }
            }
        }
    }
}

/// A scan from a node of the graph keeps the list of seen nodes a list of
/// distinct nodes of the graph.
pub proof fn lemma_scan_keeps_state(adj: Adjacency, node: usize, seen: Seq<usize>, no_notices: bool)
    requires
        closed_graph(adj),
        node < adj.len(),
        seen.no_duplicates(),
        all_below(seen, adj.len()),
    ensures
        all_below(discover(adj[node as int], seen, no_notices), adj.len()),
        (seen + discover(adj[node as int], seen, no_notices)).no_duplicates(),
        all_below(seen + discover(adj[node as int], seen, no_notices), adj.len()),
        seen.len() + discover(adj[node as int], seen, no_notices).len() <= adj.len(),
{
    let edges = adj[node as int];
    let found = discover(edges, seen, no_notices);
    let both = seen + found;
    lemma_discover(edges, seen, no_notices);
    assert forall|j: int| 0 <= j < found.len() implies #[trigger] found[j] < adj.len() by {
        let x = found[j];
        let k = choose|k: int|
            0 <= k < edges.len() && (#[trigger] edges[k]).0 == x && edges[k].1.follows(no_notices);
        assert(adj[node as int][k].0 < adj.len());
    }
    assert forall|a: int, b: int|
        0 <= a < both.len() && 0 <= b < both.len() && a != b implies both[a] != both[b] by {
        if a < seen.len() && b < seen.len() {
        } else if a >= seen.len() && b >= seen.len() {
            assert(both[a] == found[a - seen.len()]);
            assert(both[b] == found[b - seen.len()]);
        } else if a < seen.len() {
            let x = found[b - seen.len()];
            assert(!seen.contains(x));
        } else {
            let x = found[a - seen.len()];
            assert(!seen.contains(x));
        }
    }
    assert forall|i: int| 0 <= i < both.len() implies #[trigger] both[i] < adj.len() by {
        if i < seen.len() {
            assert(seen[i] < adj.len());
        } else {
            assert(both[i] == found[i - seen.len()]);
        }
    }
    lemma_distinct_below_len(both, adj.len());
}

#[via_fn]
proof fn search_decreases(adj: Adjacency, stack: Seq<usize>, seen: Seq<usize>, no_notices: bool) {
    if stack.len() > 0 {
        let node = stack.last();
        assert(node < adj.len());
        let found = discover(adj[node as int], seen, no_notices);
        lemma_scan_keeps_state(adj, node, seen, no_notices);
        if found.len() == 0 {
            assert(seen + found =~= seen);
            assert(stack.drop_last() + found =~= stack.drop_last());
        }
    }
}

/// Every node on the stack is among the seen nodes.
pub open spec fn stack_seen(stack: Seq<usize>, seen: Seq<usize>) -> bool {
    forall|i: int| 0 <= i < stack.len() ==> seen.contains(#[trigger] stack[i])
}

/// Every seen node that is not on the stack has been scanned: the sources
/// of its followed edges are all among the seen nodes.
pub open spec fn settled(
    adj: Adjacency,
    stack: Seq<usize>,
    seen: Seq<usize>,
    no_notices: bool,
) -> bool {
    forall|x: usize, u: usize|
        seen.contains(x) && !stack.contains(x) && #[trigger] has_edge(adj, x, u, no_notices)
            ==> seen.contains(u)
}

/// Entry `i` of the stack reaches `node`.
pub open spec fn comes_from(
    adj: Adjacency,
    stack: Seq<usize>,
    i: int,
    node: usize,
    no_notices: bool,
) -> bool {
    0 <= i < stack.len() && reaches(adj, stack[i], node, no_notices)
}

/// Some entry of the stack reaches `node`.
pub open spec fn from_stack(
    adj: Adjacency,
    stack: Seq<usize>,
    node: usize,
    no_notices: bool,
) -> bool {
    exists|i: int| comes_from(adj, stack, i, node, no_notices)
}

/// A followed edge is a chain of one step.
pub proof fn lemma_edge_reaches(adj: Adjacency, target: usize, source: usize, no_notices: bool)
    requires
        has_edge(adj, target, source, no_notices),
    ensures
        reaches(adj, target, source, no_notices),
{
    let path = seq![target, source];
    assert(link(adj, path, 0, no_notices));
    assert(chain_between(adj, path, target, source, no_notices));
}

/// Chains compose: what reaches `b` from `a`, and `c` from `b`, reaches `c`
/// from `a`.
pub proof fn lemma_reaches_transitive(
    adj: Adjacency,
    a: usize,
    b: usize,
    c: usize,
    no_notices: bool,
)
    requires
        reaches(adj, a, b, no_notices),
        reaches(adj, b, c, no_notices),
    ensures
        reaches(adj, a, c, no_notices),
{
    let head = choose|path: Seq<usize>| chain_between(adj, path, a, b, no_notices);
    let tail = choose|path: Seq<usize>| chain_between(adj, path, b, c, no_notices);
    let path = head + tail.drop_first();
    let joint = head.len() - 1;
    assert forall|i: int| 0 <= i < path.len() - 1 implies #[trigger] link(
        adj,
        path,
        i,
        no_notices,
    ) by {
        if i < joint {
            assert(link(adj, head, i, no_notices));
            assert(path[i] == head[i] && path[i + 1] == head[i + 1]);
        } else {
            let j = i - joint;
            assert(link(adj, tail, j, no_notices));
            assert(path[i] == tail[j]);
            assert(path[i + 1] == tail[j + 1]);
        }
    }
    assert(path.last() == tail.last());
    assert(chain_between(adj, path, a, c, no_notices));
}

/// A set of nodes in which every node has been scanned holds every node
/// that a chain from one of its members passes through.
pub proof fn lemma_settled_holds_chain(
    adj: Adjacency,
    nodes: Seq<usize>,
    path: Seq<usize>,
    i: int,
    no_notices: bool,
)
    requires
        settled(adj, Seq::empty(), nodes, no_notices),
        is_chain(adj, path, no_notices),
        nodes.contains(path[0]),
        0 <= i < path.len(),
    ensures
        nodes.contains(path[i]),
    decreases i,
{
    if i > 0 {
        lemma_settled_holds_chain(adj, nodes, path, i - 1, no_notices);
        assert(link(adj, path, i - 1, no_notices));
        assert(has_edge(adj, path[i - 1], path[i], no_notices));
        assert(!Seq::<usize>::empty().contains(path[i - 1]));
    }
}

/// What a search from a sound state discovers: nodes of the graph, distinct
/// from each other and from the nodes seen before, each reached from a node
/// on the stack; and once it is done, every seen node has been scanned.
pub proof fn lemma_search(adj: Adjacency, stack: Seq<usize>, seen: Seq<usize>, no_notices: bool)
    requires
        search_state(adj, stack, seen),
        stack_seen(stack, seen),
        settled(adj, stack, seen, no_notices),
    ensures
        (seen + search(adj, stack, seen, no_notices)).no_duplicates(),
        all_below(search(adj, stack, seen, no_notices), adj.len()),
        settled(adj, Seq::empty(), seen + search(adj, stack, seen, no_notices), no_notices),
        forall|j: int|
            0 <= j < search(adj, stack, seen, no_notices).len() ==> from_stack(
                adj,
                stack,
                #[trigger] search(adj, stack, seen, no_notices)[j],
                no_notices,
            ),
    decreases adj.len() - seen.len(), stack.len(),
{
    let result = search(adj, stack, seen, no_notices);
    if stack.len() == 0 {
        assert(seen + result =~= seen);
        assert forall|x: usize, u: usize|
            seen.contains(x) && !Seq::<usize>::empty().contains(x) && #[trigger] has_edge(
                adj,
                x,
                u,
                no_notices,
            ) implies seen.contains(u) by {
            assert(!stack.contains(x));
        }
    } else {
        let top = stack.len() - 1;
        let node = stack.last();
        let edges = adj[node as int];
        let found = discover(edges, seen, no_notices);
        let stack2 = stack.drop_last() + found;
        let seen2 = seen + found;
        let rest = search(adj, stack2, seen2, no_notices);
        assert(node < adj.len());
        lemma_scan_keeps_state(adj, node, seen, no_notices);
        lemma_discover(edges, seen, no_notices);
        assert(result == found + rest);
        assert(all_below(stack2, adj.len())) by {
            assert forall|i: int| 0 <= i < stack2.len() implies #[trigger] stack2[i]
                < adj.len() by {
                if i < top {
                    assert(stack2[i] == stack[i]);
                } else {
                    assert(stack2[i] == found[i - top]);
                }
            }
        }
        assert(stack_seen(stack2, seen2)) by {
            assert forall|i: int| 0 <= i < stack2.len() implies seen2.contains(
                #[trigger] stack2[i],
            ) by {
                if i < top {
                    assert(stack2[i] == stack[i]);
                    let at = choose|at: int| 0 <= at < seen.len() && seen[at] == stack[i];
                    assert(seen2[at] == stack[i]);
                } else {
                    assert(seen2[seen.len() + (i - top)] == stack2[i]);
                }
            }
        }
        assert(settled(adj, stack2, seen2, no_notices)) by {
            assert forall|x: usize, u: usize|
                seen2.contains(x) && !stack2.contains(x) && #[trigger] has_edge(
                    adj,
                    x,
                    u,
                    no_notices,
                ) implies seen2.contains(u) by {
                let at = choose|at: int| 0 <= at < seen2.len() && seen2[at] == x;
                if at >= seen.len() {
                    assert(stack2[top + (at - seen.len())] == x);
                } else {
                    assert(seen.contains(x));
                    if x == node {
                        let k = choose|k: int| edge_at(adj, x, k, u, no_notices);
                        assert(edges[k].1.follows(no_notices));
                        if seen.contains(u) {
                            let w = choose|w: int| 0 <= w < seen.len() && seen[w] == u;
                            assert(seen2[w] == u);
                        } else {
                            let w = choose|w: int| 0 <= w < found.len() && found[w] == u;
                            assert(seen2[seen.len() + w] == u);
                        }
                    } else {
                        if stack.contains(x) {
                            let w = choose|w: int| 0 <= w < stack.len() && stack[w] == x;
                            assert(stack2[w] == x);
                        }
                        assert(seen.contains(u));
                        let w = choose|w: int| 0 <= w < seen.len() && seen[w] == u;
                        assert(seen2[w] == u);
                    }
                }
            }
        }
        lemma_search(adj, stack2, seen2, no_notices);
        assert(seen + result =~= seen2 + rest);
        assert forall|j: int| 0 <= j < result.len() implies #[trigger] result[j] < adj.len() by {
            if j < found.len() {
                assert(result[j] == found[j]);
            } else {
                assert(result[j] == rest[j - found.len()]);
            }
        }
        assert forall|j: int| 0 <= j < result.len() implies from_stack(
            adj,
            stack,
            #[trigger] result[j],
            no_notices,
        ) by {
            let x = result[j];
            if j < found.len() {
                assert(x == found[j]);
                let k = choose|k: int|
                    0 <= k < edges.len() && (#[trigger] edges[k]).0 == x && edges[k].1.follows(
                        no_notices,
                    );
                assert(edge_at(adj, node, k, x, no_notices));
                lemma_edge_reaches(adj, node, x, no_notices);
                assert(comes_from(adj, stack, top, x, no_notices));
            } else {
                assert(x == rest[j - found.len()]);
                assert(from_stack(adj, stack2, x, no_notices));
                let i = choose|i: int| comes_from(adj, stack2, i, x, no_notices);
                if i < top {
                    assert(stack2[i] == stack[i]);
                    assert(comes_from(adj, stack, i, x, no_notices));
                } else {
                    let y = found[i - top];
                    assert(stack2[i] == y);
                    let k = choose|k: int|
                        0 <= k < edges.len() && (#[trigger] edges[k]).0 == y && edges[k].1.follows(
                            no_notices,
                        );
                    assert(edge_at(adj, node, k, y, no_notices));
                    lemma_edge_reaches(adj, node, y, no_notices);
                    lemma_reaches_transitive(adj, node, y, x, no_notices);
                    assert(comes_from(adj, stack, top, x, no_notices));
                }
            }
        }
    }
}

/// A depth-first search from `start` discovers exactly the nodes other
/// than `start` that reference it directly or through a chain of followed
/// edges, each of them once, whatever the shape of the graph.
pub proof fn lemma_discovered(adj: Adjacency, start: usize, no_notices: bool)
    requires
        closed_graph(adj),
        start < adj.len(),
    ensures
        discovered(adj, start, no_notices).no_duplicates(),
        all_below(discovered(adj, start, no_notices), adj.len()),
        !discovered(adj, start, no_notices).contains(start),
        forall|u: usize|
            discovered(adj, start, no_notices).contains(u) <==> u != start && reaches(
                adj,
                start,
                u,
                no_notices,
            ),
{
    let origin = seq![start];
    let found = discovered(adj, start, no_notices);
    let nodes = origin + found;
    assert(origin[0] == start);
    assert(settled(adj, origin, origin, no_notices)) by {
        assert forall|x: usize, u: usize|
            origin.contains(x) && !origin.contains(x) && #[trigger] has_edge(
                adj,
                x,
                u,
                no_notices,
            ) implies origin.contains(u) by {}
    }
    lemma_search(adj, origin, origin, no_notices);
    assert(found.no_duplicates()) by {
        assert forall|a: int, b: int|
            0 <= a < found.len() && 0 <= b < found.len() && a != b implies found[a] != found[b] by {
            assert(nodes[a + 1] == found[a] && nodes[b + 1] == found[b]);
        }
    }
    assert(!found.contains(start)) by {
        if found.contains(start) {
            let a = choose|a: int| 0 <= a < found.len() && found[a] == start;
            assert(nodes[a + 1] == start && nodes[0] == start);
        }
    }
    assert forall|u: usize| found.contains(u) implies u != start && reaches(
        adj,
        start,
        u,
        no_notices,
    ) by {
        let a = choose|a: int| 0 <= a < found.len() && found[a] == u;
        assert(from_stack(adj, origin, found[a], no_notices));
        let i = choose|i: int| comes_from(adj, origin, i, u, no_notices);
        assert(origin[i] == start);
    }
    assert forall|u: usize| u != start && reaches(adj, start, u, no_notices) implies found.contains(
        u,
    ) by {
        let path = choose|path: Seq<usize>| chain_between(adj, path, start, u, no_notices);
        assert(nodes[0] == start);
        lemma_settled_holds_chain(adj, nodes, path, path.len() - 1, no_notices);
        let at = choose|at: int| 0 <= at < nodes.len() && nodes[at] == u;
        assert(found[at - 1] == u);
    }
}

/// Letting notes through never loses a referencing commit: whatever
/// references `from` with notes left out also references it with notes
/// followed.
pub proof fn lemma_notes_only_add(adj: Adjacency, from: usize, to: usize)
    requires
        reaches(adj, from, to, true),
    ensures
        reaches(adj, from, to, false),
{
    let path = choose|path: Seq<usize>| chain_between(adj, path, from, to, true);
    assert forall|i: int| 0 <= i < path.len() - 1 implies #[trigger] link(adj, path, i, false) by {
        assert(link(adj, path, i, true));
        let target = path[i];
        let source = path[i + 1];
        let k = choose|k: int| edge_at(adj, target, k, source, true);
        assert(edge_at(adj, target, k, source, false));
    }
    assert(chain_between(adj, path, from, to, false));
}

} // verus!
