use refgraph::ref_graph::{Mention, MentionOutcome, RefGraph, Traversal, WalkedCommit};
use refgraph::ref_type::RefType;

fn mention(target: Option<&str>, ref_type: RefType) -> Mention {
    Mention { target: target.map(|t| t.to_string()), ref_type }
}

fn commit(id: &str, mentions: Vec<Mention>) -> WalkedCommit {
    WalkedCommit { id: id.to_string(), mentions }
}

fn refs(graph: &RefGraph, ctx: &mut Traversal, id: &str, no_notices: bool) -> Vec<String> {
    graph.get_references(ctx, id, no_notices)
}

fn sorted(mut v: Vec<String>) -> Vec<String> {
    v.sort();
    v
}

#[test]
fn empty_graph_has_no_commits() {
    let graph = RefGraph::empty();
    let mut ctx = Traversal::new();
    assert_eq!(graph.len(), 0);
    assert!(graph.get_oids().is_empty());
    assert!(graph.lookup("a").is_none());
    assert!(refs(&graph, &mut ctx, "a", false).is_empty());
    let built = RefGraph::new(&vec![]);
    assert_eq!(built.len(), 0);
}

#[test]
fn commits_are_numbered_in_order_of_observation() {
    let mut graph = RefGraph::empty();
    graph.add_commit("a", &vec![]);
    graph.add_commit("b", &vec![]);
    graph.add_commit("c", &vec![]);
    assert_eq!(graph.len(), 3);
    assert_eq!(graph.get_oids(), &vec!["a".to_string(), "b".to_string(), "c".to_string()]);
    assert_eq!(graph.lookup("a"), Some(0));
    assert_eq!(graph.lookup("b"), Some(1));
    assert_eq!(graph.lookup("c"), Some(2));
    assert_eq!(graph.lookup("d"), None);
}

#[test]
fn a_commit_observed_twice_keeps_its_index() {
    let mut graph = RefGraph::empty();
    graph.add_commit("a", &vec![]);
    graph.add_commit("b", &vec![]);
    graph.add_commit("a", &vec![]);
    assert_eq!(graph.len(), 2);
    assert_eq!(graph.lookup("a"), Some(0));
}

#[test]
fn note_and_fix_collapse_to_fix() {
    let mut graph = RefGraph::empty();
    graph.add_commit("a", &vec![]);
    let outcomes = graph.add_commit(
        "b",
        &vec![mention(Some("a"), RefType::Note), mention(Some("a"), RefType::Fix)],
    );
    assert_eq!(outcomes, vec![MentionOutcome::Recorded, MentionOutcome::Recorded]);
    assert_eq!(graph.referenced_by(0), &vec![(1, RefType::Fix)]);
    assert!(graph.referenced_by(1).is_empty());
}

#[test]
fn fix_and_note_collapse_to_fix() {
    let mut graph = RefGraph::empty();
    graph.add_commit("a", &vec![]);
    graph.add_commit(
        "b",
        &vec![mention(Some("a"), RefType::Fix), mention(Some("a"), RefType::Note)],
    );
    assert_eq!(graph.referenced_by(0), &vec![(1, RefType::Fix)]);
}

#[test]
fn note_fix_and_revert_collapse_to_revert() {
    let mut graph = RefGraph::empty();
    graph.add_commit("a", &vec![]);
    graph.add_commit(
        "b",
        &vec![
            mention(Some("a"), RefType::Note),
            mention(Some("a"), RefType::Fix),
            mention(Some("a"), RefType::Revert),
        ],
    );
    assert_eq!(graph.referenced_by(0), &vec![(1, RefType::Revert)]);
    let mut other = RefGraph::empty();
    other.add_commit("a", &vec![]);
    other.add_commit(
        "b",
        &vec![
            mention(Some("a"), RefType::Revert),
            mention(Some("a"), RefType::Note),
            mention(Some("a"), RefType::Fix),
        ],
    );
    assert_eq!(other.referenced_by(0), &vec![(1, RefType::Revert)]);
}

#[test]
fn mentions_of_different_commits_do_not_merge() {
    let mut graph = RefGraph::empty();
    graph.add_commit("a", &vec![]);
    graph.add_commit("b", &vec![]);
    graph.add_commit(
        "c",
        &vec![
            mention(Some("a"), RefType::Note),
            mention(Some("b"), RefType::Revert),
            mention(Some("a"), RefType::Fix),
        ],
    );
    assert_eq!(graph.referenced_by(0), &vec![(2, RefType::Fix)]);
    assert_eq!(graph.referenced_by(1), &vec![(2, RefType::Revert)]);
    assert!(graph.referenced_by(2).is_empty());
}

#[test]
fn edges_keep_the_order_of_the_walk() {
    let mut graph = RefGraph::empty();
    graph.add_commit("a", &vec![]);
    graph.add_commit("b", &vec![mention(Some("a"), RefType::Note)]);
    graph.add_commit("c", &vec![mention(Some("a"), RefType::Fix)]);
    graph.add_commit("d", &vec![mention(Some("a"), RefType::Revert)]);
    assert_eq!(
        graph.referenced_by(0),
        &vec![(1, RefType::Note), (2, RefType::Fix), (3, RefType::Revert)]
    );
}

#[test]
fn unresolved_mention_is_dropped() {
    let mut graph = RefGraph::empty();
    graph.add_commit("a", &vec![]);
    let outcomes = graph.add_commit("b", &vec![mention(None, RefType::Fix)]);
    assert_eq!(outcomes, vec![MentionOutcome::Unresolved]);
    assert_eq!(graph.len(), 2);
    assert!(graph.referenced_by(0).is_empty());
    assert!(graph.referenced_by(1).is_empty());
}

#[test]
fn reference_out_of_range_creates_no_node_and_no_edge() {
    let mut graph = RefGraph::empty();
    let outcomes = graph.add_commit("a", &vec![mention(Some("h"), RefType::Fix)]);
    assert_eq!(outcomes, vec![MentionOutcome::Unobserved]);
    assert_eq!(graph.len(), 1);
    assert_eq!(graph.lookup("h"), None);
    assert!(graph.referenced_by(0).is_empty());
    let mut ctx = Traversal::new();
    assert!(refs(&graph, &mut ctx, "h", false).is_empty());
    assert!(refs(&graph, &mut ctx, "a", false).is_empty());
}

#[test]
fn reference_to_a_later_commit_is_dropped() {
    // b fixes a, but the walk hands b over first.
    let mut graph = RefGraph::empty();
    let first = graph.add_commit("b", &vec![mention(Some("a"), RefType::Fix)]);
    let second = graph.add_commit("a", &vec![]);
    assert_eq!(first, vec![MentionOutcome::Unobserved]);
    assert!(second.is_empty());
    assert_eq!(graph.len(), 2);
    assert!(graph.referenced_by(0).is_empty());
    assert!(graph.referenced_by(1).is_empty());
    let mut ctx = Traversal::new();
    assert!(refs(&graph, &mut ctx, "a", false).is_empty());
    assert!(refs(&graph, &mut ctx, "b", false).is_empty());
}

#[test]
fn same_commits_in_order_record_the_edge() {
    let mut graph = RefGraph::empty();
    graph.add_commit("a", &vec![]);
    let outcomes = graph.add_commit("b", &vec![mention(Some("a"), RefType::Fix)]);
    assert_eq!(outcomes, vec![MentionOutcome::Recorded]);
    assert_eq!(graph.referenced_by(0), &vec![(1, RefType::Fix)]);
}

#[test]
fn a_commit_may_mention_itself() {
    let mut graph = RefGraph::empty();
    let outcomes = graph.add_commit("a", &vec![mention(Some("a"), RefType::Note)]);
    assert_eq!(outcomes, vec![MentionOutcome::Recorded]);
    assert_eq!(graph.referenced_by(0), &vec![(0, RefType::Note)]);
    let mut ctx = Traversal::new();
    assert!(refs(&graph, &mut ctx, "a", false).is_empty());
}

#[test]
fn new_agrees_with_adding_one_by_one() {
    let commits = vec![
        commit("a", vec![]),
        commit("b", vec![mention(Some("a"), RefType::Fix), mention(Some("z"), RefType::Note)]),
        commit("c", vec![mention(Some("b"), RefType::Note), mention(Some("a"), RefType::Revert)]),
    ];
    let graph = RefGraph::new(&commits);
    assert_eq!(graph.len(), 3);
    assert_eq!(graph.referenced_by(0), &vec![(1, RefType::Fix), (2, RefType::Revert)]);
    assert_eq!(graph.referenced_by(1), &vec![(2, RefType::Note)]);
    assert!(graph.referenced_by(2).is_empty());
}

#[test]
fn direct_and_indirect_references_are_found() {
    // a <- b <- c, a <- d, e stands alone
    let graph = RefGraph::new(&vec![
        commit("a", vec![]),
        commit("b", vec![mention(Some("a"), RefType::Fix)]),
        commit("c", vec![mention(Some("b"), RefType::Fix)]),
        commit("d", vec![mention(Some("a"), RefType::Revert)]),
        commit("e", vec![]),
    ]);
    let mut ctx = Traversal::new();
    assert_eq!(refs(&graph, &mut ctx, "a", true), vec!["b", "d", "c"]);
    assert_eq!(refs(&graph, &mut ctx, "b", true), vec!["c"]);
    assert!(refs(&graph, &mut ctx, "c", true).is_empty());
    assert!(refs(&graph, &mut ctx, "d", true).is_empty());
    assert!(refs(&graph, &mut ctx, "e", true).is_empty());
}

#[test]
fn discovery_order_is_depth_first_from_the_last_found() {
    // a <- b, a <- c, b <- d, c <- e
    let graph = RefGraph::new(&vec![
        commit("a", vec![]),
        commit("b", vec![mention(Some("a"), RefType::Fix)]),
        commit("c", vec![mention(Some("a"), RefType::Fix)]),
        commit("d", vec![mention(Some("b"), RefType::Fix)]),
        commit("e", vec![mention(Some("c"), RefType::Fix)]),
    ]);
    let mut ctx = Traversal::new();
    assert_eq!(refs(&graph, &mut ctx, "a", false), vec!["b", "c", "e", "d"]);
    assert_eq!(graph.dfs(&mut ctx, 0, false), vec![1, 2, 4, 3]);
    assert_eq!(graph.get_references_by_id(&mut ctx, 0, false), vec!["b", "c", "e", "d"]);
}

#[test]
fn notes_are_followed_only_when_asked() {
    // a <-note- b <-fix- c, a <-fix- d <-note- e
    let graph = RefGraph::new(&vec![
        commit("a", vec![]),
        commit("b", vec![mention(Some("a"), RefType::Note)]),
        commit("c", vec![mention(Some("b"), RefType::Fix)]),
        commit("d", vec![mention(Some("a"), RefType::Fix)]),
        commit("e", vec![mention(Some("d"), RefType::Note)]),
    ]);
    let mut ctx = Traversal::new();
    let with_notes = refs(&graph, &mut ctx, "a", false);
    let without = refs(&graph, &mut ctx, "a", true);
    assert_eq!(sorted(with_notes.clone()), vec!["b", "c", "d", "e"]);
    assert_eq!(without, vec!["d"]);
    for id in &without {
        assert!(with_notes.contains(id));
    }
    assert_eq!(refs(&graph, &mut ctx, "b", true), vec!["c"]);
}

#[test]
fn following_notes_never_loses_a_reference() {
    let graph = RefGraph::new(&vec![
        commit("a", vec![]),
        commit("b", vec![mention(Some("a"), RefType::Note)]),
        commit("c", vec![mention(Some("a"), RefType::Fix), mention(Some("b"), RefType::Revert)]),
        commit("d", vec![mention(Some("c"), RefType::Note), mention(Some("b"), RefType::Fix)]),
        commit("e", vec![mention(Some("d"), RefType::Revert)]),
    ]);
    let mut ctx = Traversal::new();
    for id in ["a", "b", "c", "d", "e"] {
        let with_notes = refs(&graph, &mut ctx, id, false);
        let without = refs(&graph, &mut ctx, id, true);
        for found in &without {
            assert!(with_notes.contains(found));
        }
    }
}

#[test]
fn cycles_end_and_give_each_commit_once() {
    // a is observed, b mentions a, then a comes again and mentions b.
    let mut graph = RefGraph::empty();
    graph.add_commit("a", &vec![]);
    graph.add_commit("b", &vec![mention(Some("a"), RefType::Fix)]);
    graph.add_commit("a", &vec![mention(Some("b"), RefType::Fix)]);
    graph.add_commit("c", &vec![mention(Some("b"), RefType::Fix), mention(Some("a"), RefType::Fix)]);
    assert_eq!(graph.referenced_by(0), &vec![(1, RefType::Fix), (2, RefType::Fix)]);
    assert_eq!(graph.referenced_by(1), &vec![(0, RefType::Fix), (2, RefType::Fix)]);
    let mut ctx = Traversal::new();
    assert_eq!(refs(&graph, &mut ctx, "a", false), vec!["b", "c"]);
    assert_eq!(refs(&graph, &mut ctx, "b", false), vec!["a", "c"]);
    assert!(refs(&graph, &mut ctx, "c", false).is_empty());
}

#[test]
fn a_diamond_gives_each_commit_once() {
    // a <- b, a <- c, b <- d, c <- d
    let graph = RefGraph::new(&vec![
        commit("a", vec![]),
        commit("b", vec![mention(Some("a"), RefType::Fix)]),
        commit("c", vec![mention(Some("a"), RefType::Fix)]),
        commit("d", vec![mention(Some("b"), RefType::Fix), mention(Some("c"), RefType::Fix)]),
    ]);
    let mut ctx = Traversal::new();
    let found = refs(&graph, &mut ctx, "a", false);
    assert_eq!(found, vec!["b", "c", "d"]);
}

#[test]
fn one_scratch_state_serves_many_queries() {
    let graph = RefGraph::new(&vec![
        commit("a", vec![]),
        commit("b", vec![mention(Some("a"), RefType::Fix)]),
        commit("c", vec![mention(Some("b"), RefType::Fix)]),
    ]);
    let mut ctx = Traversal::new();
    for _ in 0..100 {
        assert_eq!(refs(&graph, &mut ctx, "a", false), vec!["b", "c"]);
        assert_eq!(refs(&graph, &mut ctx, "b", false), vec!["c"]);
        assert!(refs(&graph, &mut ctx, "c", false).is_empty());
    }
}

#[test]
fn a_scratch_state_serves_a_growing_graph() {
    let mut graph = RefGraph::empty();
    let mut ctx = Traversal::new();
    graph.add_commit("a", &vec![]);
    assert!(refs(&graph, &mut ctx, "a", false).is_empty());
    graph.add_commit("b", &vec![mention(Some("a"), RefType::Fix)]);
    assert_eq!(refs(&graph, &mut ctx, "a", false), vec!["b"]);
    graph.add_commit("c", &vec![mention(Some("b"), RefType::Note)]);
    assert_eq!(refs(&graph, &mut ctx, "a", false), vec!["b", "c"]);
    assert_eq!(refs(&graph, &mut ctx, "a", true), vec!["b"]);
}

#[test]
fn unknown_commit_has_no_references() {
    let graph = RefGraph::new(&vec![
        commit("a", vec![]),
        commit("b", vec![mention(Some("a"), RefType::Fix)]),
    ]);
    let mut ctx = Traversal::new();
    assert!(refs(&graph, &mut ctx, "zzz", false).is_empty());
}
