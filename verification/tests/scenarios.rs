use refgraph::commit::CommitInfo;
use refgraph::describe::{description_query, read_commits};
use refgraph::extract::extract_references;
use refgraph::ref_graph::{Mention, MentionOutcome, RefGraph, Traversal};
use refgraph::ref_type::RefType;
use refgraph::resolve::get_commit_by_ref_entry;

const A: &str = "1234abcd5678ef901234abcd5678ef901234abcd";
const B: &str = "b0b0b0b0b0b0b0b0b0b0b0b0b0b0b0b0b0b0b0b0";
const C: &str = "c1c1c1c1c1c1c1c1c1c1c1c1c1c1c1c1c1c1c1c1";

struct Stored {
    id: &'static str,
    summary: &'static str,
    message: &'static str,
}

fn repository() -> Vec<Stored> {
    vec![
        Stored { id: A, summary: "Title of A", message: "Title of A\n\nThe first change.\n" },
        Stored {
            id: B,
            summary: "Repair A",
            message: "Repair A\n\nFixes: 1234abcd (\"Title of A\")\n",
        },
        Stored {
            id: C,
            summary: "Revert \"Title of A\"",
            message: "Revert \"Title of A\"\n\nThis reverts commit 1234abcd.\nFixes: 1234abcd (\"Title of A\")\n",
        },
    ]
}

fn find_by_prefix(repo: &[Stored], prefix: &str) -> Option<CommitInfo> {
    let mut hits = repo.iter().filter(|c| c.id.starts_with(prefix));
    match (hits.next(), hits.next()) {
        (Some(c), None) => Some(CommitInfo::new(c.id.to_string(), Some(c.summary.to_string()))),
        _ => None,
    }
}

fn walk(repo: &[Stored], order: &[usize]) -> (RefGraph, Vec<Vec<MentionOutcome>>) {
    let mut graph = RefGraph::empty();
    let mut log = Vec::new();
    for &i in order {
        let commit = &repo[i];
        let entries = extract_references(Some(commit.summary), commit.message);
        let mut mentions = Vec::new();
        for entry in &entries {
            let found = find_by_prefix(repo, &entry.hash);
            let resolved = get_commit_by_ref_entry(found.as_ref(), entry);
            mentions.push(Mention { target: resolved.map(|r| r.id), ref_type: entry.ref_type });
        }
        log.push(graph.add_commit(commit.id, &mentions));
    }
    (graph, log)
}

#[test]
fn fixes_tag_records_a_fix_edge() {
    let repo = repository();
    let (graph, log) = walk(&repo, &[0, 1]);
    assert_eq!(log, vec![vec![], vec![MentionOutcome::Recorded]]);
    assert_eq!(graph.referenced_by(0), &vec![(1, RefType::Fix)]);
    let mut ctx = Traversal::new();
    assert_eq!(graph.get_references(&mut ctx, A, false), vec![B]);
    assert_eq!(graph.get_references(&mut ctx, A, true), vec![B]);
    assert!(graph.get_references(&mut ctx, B, false).is_empty());
}

#[test]
fn revert_records_a_revert_edge_despite_a_fixes_tag() {
    let repo = repository();
    let (graph, log) = walk(&repo, &[0, 2]);
    assert_eq!(log, vec![vec![], vec![MentionOutcome::Recorded, MentionOutcome::Recorded]]);
    assert_eq!(graph.referenced_by(0), &vec![(1, RefType::Revert)]);
    let mut ctx = Traversal::new();
    assert_eq!(graph.get_references(&mut ctx, A, true), vec![C]);
}

#[test]
fn revert_alone_records_a_revert_edge() {
    let repo = vec![
        Stored { id: A, summary: "Title of A", message: "Title of A\n" },
        Stored {
            id: C,
            summary: "Revert \"Title of A\"",
            message: "Revert \"Title of A\"\n\nThis reverts commit 1234abcd.\n",
        },
    ];
    let (graph, _) = walk(&repo, &[0, 1]);
    assert_eq!(graph.referenced_by(0), &vec![(1, RefType::Revert)]);
}

#[test]
fn commits_out_of_order_record_no_edge() {
    let repo = repository();
    let (graph, log) = walk(&repo, &[1, 0]);
    assert_eq!(log, vec![vec![MentionOutcome::Unobserved], vec![]]);
    assert_eq!(graph.lookup(B), Some(0));
    assert_eq!(graph.lookup(A), Some(1));
    assert!(graph.referenced_by(0).is_empty());
    assert!(graph.referenced_by(1).is_empty());
    let mut ctx = Traversal::new();
    assert!(graph.get_references(&mut ctx, A, false).is_empty());
}

#[test]
fn reference_outside_the_range_records_nothing() {
    let repo = repository();
    // Only B is walked; A is in the repository but not in the range.
    let (graph, log) = walk(&repo, &[1]);
    assert_eq!(log, vec![vec![MentionOutcome::Unobserved]]);
    assert_eq!(graph.len(), 1);
    assert_eq!(graph.lookup(A), None);
    assert!(graph.referenced_by(0).is_empty());
}

#[test]
fn reference_to_a_hash_that_does_not_exist() {
    let repo = vec![Stored {
        id: B,
        summary: "Repair something",
        message: "Repair something\n\nFixes: 99999999 (\"Gone\")\n",
    }];
    let (graph, log) = walk(&repo, &[0]);
    assert_eq!(log, vec![vec![MentionOutcome::Unresolved]]);
    assert_eq!(graph.len(), 1);
    assert!(graph.referenced_by(0).is_empty());
}

#[test]
fn check_reports_the_missing_fix() {
    let repo = repository();
    let (graph, _) = walk(&repo, &[0, 1, 2]);
    let summaries: Vec<Option<String>> =
        repo.iter().map(|c| Some(c.summary.to_string())).collect();
    let inspected: Vec<CommitInfo> = repo
        .iter()
        .map(|c| CommitInfo::new(c.id.to_string(), Some(c.summary.to_string())))
        .collect();
    // The list of what is already there names A by hash and C by title.
    let lines = vec!["1234abcd".to_string(), "Revert \"Title of A\"".to_string()];
    let found: Vec<Option<CommitInfo>> = lines
        .iter()
        .map(|line| description_query(line).and_then(|query| find_by_prefix(&repo, &query.hash)))
        .collect();
    let known = read_commits(&lines, &found, &inspected);
    assert_eq!(known.len(), 2);
    assert_eq!(known[0].id, A);
    assert_eq!(known[1].id, C);
    let mut ctx = Traversal::new();
    let report = graph.check_commits(&mut ctx, &known, &summaries, false);
    assert_eq!(report.missing, vec![B]);
    assert_eq!(
        report.lines,
        vec![
            format!("Commit {} (\"Title of A\") has the following references (maybe indirect):", A),
            format!("    {} (\"Repair A\")", B),
            "Summary: found 1 probably missing commits".to_string(),
        ]
    );
}

#[test]
fn check_of_one_commit_alone() {
    let repo = repository();
    let (graph, _) = walk(&repo, &[0, 1, 2]);
    let summaries: Vec<Option<String>> =
        repo.iter().map(|c| Some(c.summary.to_string())).collect();
    let known = vec![
        CommitInfo::new(A.to_string(), Some("Title of A".to_string())),
        CommitInfo::new(C.to_string(), Some("Revert \"Title of A\"".to_string())),
    ];
    let mut ctx = Traversal::new();
    let fixed: Vec<String> = graph
        .get_references(&mut ctx, A, false)
        .into_iter()
        .filter(|id| !known.iter().any(|k| &k.id == id))
        .collect();
    assert_eq!(fixed, vec![B]);
    let report = graph.check_commits(&mut ctx, &known, &summaries, true);
    assert_eq!(report.missing.len(), 1);
}

#[test]
fn dump_of_the_walk() {
    let repo = repository();
    let (graph, _) = walk(&repo, &[0, 1, 2]);
    let summaries: Vec<Option<String>> =
        repo.iter().map(|c| Some(c.summary.to_string())).collect();
    let mut ctx = Traversal::new();
    let lines = graph.dump_info(&mut ctx, &summaries, true);
    assert_eq!(
        lines,
        vec![
            format!("Found references of commit {} (\"Title of A\")", A),
            format!("  {} (\"Repair A\")", B),
            format!("  {} (\"Revert \"Title of A\"\")", C),
            format!("Commit {} (\"Repair A\") is not mentioned anywhere", B),
            format!("Commit {} (\"Revert \"Title of A\"\") is not mentioned anywhere", C),
        ]
    );
}
