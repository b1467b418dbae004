use refgraph::commit::CommitInfo;
use refgraph::describe::{
    description_query, is_hash, parse_commit_description, query_from_match, read_commits,
    resolve_title, title_mapping, try_description_query, try_parse_commit_description,
    try_read_commits,
};
use refgraph::extract::RefEntry;
use refgraph::ref_type::RefType;
use refgraph::resolve::{check_commit_titles, compare_titles, get_commit_by_ref_entry, TitleMatch};

fn info(id: &str, summary: Option<&str>) -> CommitInfo {
    CommitInfo::new(id.to_string(), summary.map(|s| s.to_string()))
}

fn ids(commit: &Option<CommitInfo>) -> Option<&str> {
    commit.as_ref().map(|c| c.id.as_str())
}

#[test]
fn equal_titles_are_exact() {
    assert_eq!(compare_titles("Add the parser", "Add the parser"), TitleMatch::Exact);
    assert_eq!(compare_titles("", ""), TitleMatch::Exact);
    assert!(check_commit_titles("Add the parser", "Add the parser"));
}

#[test]
fn contained_titles_are_similar() {
    assert_eq!(compare_titles("Add the parser", "Add the parser for dates"), TitleMatch::Similar);
    assert_eq!(compare_titles("Add the parser for dates", "the parser"), TitleMatch::Similar);
    assert_eq!(compare_titles("Add the parser", ""), TitleMatch::Similar);
    assert!(check_commit_titles("Add the parser", "Add the parser for dates"));
    assert!(check_commit_titles("Add the parser for dates", "the parser"));
    assert!(check_commit_titles("", "anything"));
}

#[test]
fn unrelated_titles_are_a_mismatch() {
    assert_eq!(compare_titles("Add the parser", "Remove the lexer"), TitleMatch::Mismatch);
    assert_eq!(compare_titles("abc", "abd"), TitleMatch::Mismatch);
    assert!(!check_commit_titles("Add the parser", "Remove the lexer"));
    assert!(!check_commit_titles("Add the parser", "add the parser"));
}

#[test]
fn titles_with_other_scripts() {
    assert!(check_commit_titles("Füge Überprüfung hinzu", "Überprüfung"));
    assert!(!check_commit_titles("Füge Überprüfung hinzu", "Uberprufung"));
}

#[test]
fn mention_of_unknown_hash_resolves_to_nothing() {
    let entry = RefEntry {
        hash: "1234abcd".to_string(),
        title: "Title of A".to_string(),
        ref_type: RefType::Fix,
    };
    assert!(get_commit_by_ref_entry(None, &entry).is_none());
}

#[test]
fn mention_resolves_by_hash_whatever_the_title() {
    let entry = RefEntry {
        hash: "1234abcd".to_string(),
        title: "Title of A".to_string(),
        ref_type: RefType::Fix,
    };
    let same = info("1234abcd00000000", Some("Title of A"));
    let other = info("1234abcd00000000", Some("Another title"));
    let longer = info("1234abcd00000000", Some("Title of A, extended"));
    let none = info("1234abcd00000000", None);
    let resolved = get_commit_by_ref_entry(Some(&same), &entry).unwrap();
    assert_eq!(resolved.id, "1234abcd00000000");
    assert!(resolved.title_matches);
    let resolved = get_commit_by_ref_entry(Some(&other), &entry).unwrap();
    assert_eq!(resolved.id, "1234abcd00000000");
    assert!(!resolved.title_matches);
    let resolved = get_commit_by_ref_entry(Some(&longer), &entry).unwrap();
    assert!(!resolved.title_matches);
    let resolved = get_commit_by_ref_entry(Some(&none), &entry).unwrap();
    assert_eq!(resolved.id, "1234abcd00000000");
    assert!(!resolved.title_matches);
}

#[test]
fn hashes_are_eight_or_more_hex_digits() {
    assert!(is_hash("1234abcd"));
    assert!(is_hash("0123456789abcdef0123456789abcdef01234567"));
    assert!(!is_hash("1234abc"));
    assert!(!is_hash(""));
    assert!(!is_hash("1234ABCD"));
    assert!(!is_hash("1234abcg"));
    assert!(!is_hash("1234abcd "));
    assert!(!is_hash("1234abcd title"));
    assert!(!is_hash("12345678é"));
}

#[test]
fn line_with_hash_and_title_asks_for_the_hash() {
    let query = description_query("1234abcd (\"Title of A\")").unwrap();
    assert_eq!(query.hash, "1234abcd");
    assert_eq!(query.title.as_deref(), Some("Title of A"));
    let query = description_query("commit 89abcdef01(\"No space\") upstream").unwrap();
    assert_eq!(query.hash, "89abcdef01");
    assert_eq!(query.title.as_deref(), Some("No space"));
}

#[test]
fn line_that_is_a_hash_asks_for_it() {
    let query = description_query("0123456789abcdef").unwrap();
    assert_eq!(query.hash, "0123456789abcdef");
    assert!(query.title.is_none());
}

#[test]
fn other_lines_are_titles() {
    assert!(description_query("Add the parser").is_none());
    assert!(description_query("1234abc").is_none());
    assert!(description_query("1234abcd and more").is_none());
    assert!(description_query("1234abc (\"Seven digits\")").is_none());
    assert!(description_query("").is_none());
}

#[test]
fn checked_query_agrees() {
    let query = try_description_query("1234abcd (\"Title of A\")").unwrap().unwrap();
    assert_eq!(query.hash, "1234abcd");
    assert!(try_description_query("Add the parser").unwrap().is_none());
}

#[test]
fn query_from_match_prefers_the_pair() {
    let groups = Some(vec![
        Some("1234abcd (\"T\")".to_string()),
        Some("1234abcd".to_string()),
        Some("T".to_string()),
    ]);
    let query = query_from_match(&groups, "0123456789abcdef").unwrap();
    assert_eq!(query.hash, "1234abcd");
    assert_eq!(query.title.as_deref(), Some("T"));
    let broken = Some(vec![Some("x".to_string()), None, Some("T".to_string())]);
    let query = query_from_match(&broken, "0123456789abcdef").unwrap();
    assert_eq!(query.hash, "0123456789abcdef");
    assert!(query.title.is_none());
    assert!(query_from_match(&None, "a title").is_none());
}

#[test]
fn index_files_each_title_under_its_last_commit() {
    let list = vec![
        info("a", Some("Add the parser")),
        info("b", Some("Fix the parser")),
        info("c", Some("Add the parser")),
        info("d", None),
    ];
    let index = title_mapping(&list);
    assert_eq!(index.len(), 3);
    assert_eq!(index.get("Add the parser"), Some(&2));
    assert_eq!(index.get("Fix the parser"), Some(&1));
    assert_eq!(index.get("<no title>"), Some(&3));
    assert_eq!(index.get("Add"), None);
}

#[test]
fn exact_title_wins_over_an_earlier_similar_one() {
    let list = vec![
        info("a", Some("Add the parser for dates")),
        info("b", Some("Add the parser")),
        info("c", Some("parser")),
    ];
    let index = title_mapping(&list);
    let found = parse_commit_description("Add the parser", None, &list, &index);
    assert_eq!(ids(&found), Some("b"));
    let found = resolve_title("parser", &list, &index);
    assert_eq!(ids(&found), Some("c"));
}

#[test]
fn similar_title_resolves_to_the_first_match() {
    let list = vec![
        info("a", Some("Remove the lexer")),
        info("b", None),
        info("c", Some("Add the parser for dates")),
        info("d", Some("Add the parser for times")),
    ];
    let index = title_mapping(&list);
    let found = parse_commit_description("Add the parser", None, &list, &index);
    assert_eq!(ids(&found), Some("c"));
    let found = parse_commit_description("Say: Add the parser for times, please", None, &list, &index);
    assert_eq!(ids(&found), Some("d"));
    let found = parse_commit_description("Nothing alike", None, &list, &index);
    assert!(found.is_none());
}

#[test]
fn title_of_a_commit_without_summary() {
    let list = vec![info("a", Some("Add the parser")), info("b", None)];
    let index = title_mapping(&list);
    let found = parse_commit_description("<no title>", None, &list, &index);
    assert_eq!(ids(&found), Some("b"));
}

#[test]
fn line_with_a_hash_resolves_to_what_was_found() {
    let list = vec![info("a", Some("1234abcd")), info("b", Some("Add the parser"))];
    let index = title_mapping(&list);
    let elsewhere = info("1234abcdffff", Some("Outside the range"));
    let found = parse_commit_description("1234abcd", Some(elsewhere.clone()), &list, &index);
    assert_eq!(ids(&found), Some("1234abcdffff"));
    let found = parse_commit_description("1234abcd", None, &list, &index);
    assert!(found.is_none());
    let found = parse_commit_description(
        "1234abcd (\"Add the parser\")",
        Some(elsewhere.clone()),
        &list,
        &index,
    );
    assert_eq!(ids(&found), Some("1234abcdffff"));
    let found = parse_commit_description("1234abcd (\"Add the parser\")", None, &list, &index);
    assert!(found.is_none());
}

#[test]
fn title_ignores_what_was_found() {
    let list = vec![info("a", Some("Add the parser"))];
    let index = title_mapping(&list);
    let stray = info("ffff", Some("Stray"));
    let found = parse_commit_description("Add the parser", Some(stray), &list, &index);
    assert_eq!(ids(&found), Some("a"));
}

#[test]
fn empty_list_resolves_no_title() {
    let list: Vec<CommitInfo> = vec![];
    let index = title_mapping(&list);
    assert_eq!(index.len(), 0);
    assert!(parse_commit_description("Add the parser", None, &list, &index).is_none());
}

#[test]
fn checked_resolution_agrees() {
    let list = vec![info("a", Some("Add the parser"))];
    let index = title_mapping(&list);
    let found = try_parse_commit_description("Add the parser", None, &list, &index).unwrap();
    assert_eq!(ids(&found), Some("a"));
}

#[test]
fn commit_info_can_be_cloned() {
    let a = info("a", Some("Add the parser"));
    let b = a.clone();
    assert_eq!(b.id, "a");
    assert_eq!(b.summary.as_deref(), Some("Add the parser"));
    let c = info("c", None).clone();
    assert_eq!(c.id, "c");
    assert!(c.summary.is_none());
}

#[test]
fn lines_resolve_in_order_and_unresolved_lines_are_passed_over() {
    let list = vec![
        info("aaaa0000", Some("Add the parser")),
        info("bbbb0000", Some("Fix the parser")),
        info("cccc0000", None),
    ];
    let lines: Vec<String> = [
        "Fix the parser",
        "0123456789abcdef",
        "Nothing alike",
        "aaaa0000 (\"Add the parser\")",
        "99999999",
        "the parser",
        "Fix the parser",
    ]
    .iter()
    .map(|s| s.to_string())
    .collect();
    let found = vec![
        None,
        Some(info("0123456789abcdef0000", Some("Elsewhere"))),
        None,
        Some(info("aaaa0000", Some("Add the parser"))),
        None,
        None,
        None,
    ];
    let commits = read_commits(&lines, &found, &list);
    let ids: Vec<&str> = commits.iter().map(|c| c.id.as_str()).collect();
    assert_eq!(ids, vec!["bbbb0000", "0123456789abcdef0000", "aaaa0000", "aaaa0000", "bbbb0000"]);
    let checked = try_read_commits(&lines, &found, &list).unwrap();
    assert_eq!(checked.len(), 5);
}

#[test]
fn no_lines_resolve_to_no_commits() {
    let list = vec![info("aaaa0000", Some("Add the parser"))];
    assert!(read_commits(&vec![], &vec![], &list).is_empty());
}
