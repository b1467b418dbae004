use refgraph::extract::{
    extract_references, extract_revert, mention_from_groups, references_from_matches,
    revert_from_matches, try_extract_references, RefEntry,
};
use refgraph::pattern::patterns_compile;
use refgraph::ref_type::RefType;

fn entry(e: &RefEntry) -> (&str, &str, RefType) {
    (e.hash.as_str(), e.title.as_str(), e.ref_type)
}

fn groups(parts: &[Option<&str>]) -> Vec<Option<String>> {
    parts.iter().map(|p| p.map(|s| s.to_string())).collect()
}

#[test]
fn patterns_are_accepted() {
    assert!(patterns_compile());
}

#[test]
fn fixes_tag_gives_fix() {
    let found = extract_references(
        Some("Repair the parser"),
        "Repair the parser\n\nFixes: 1234abcd (\"Title of A\")\n",
    );
    assert_eq!(found.len(), 1);
    assert_eq!(entry(&found[0]), ("1234abcd", "Title of A", RefType::Fix));
}

#[test]
fn bare_mention_gives_note() {
    let found = extract_references(
        Some("Follow up"),
        "Follow up\n\nSee commit 0123456789abcdef (\"Add the parser\") for details.",
    );
    assert_eq!(found.len(), 1);
    assert_eq!(entry(&found[0]), ("0123456789abcdef", "Add the parser", RefType::Note));
}

#[test]
fn mention_without_space_before_parenthesis() {
    let found = extract_references(Some("x"), "as in deadbeef00(\"No space\")");
    assert_eq!(found.len(), 1);
    assert_eq!(entry(&found[0]), ("deadbeef00", "No space", RefType::Note));
}

#[test]
fn short_hash_is_no_mention() {
    let found = extract_references(Some("x"), "see 1234abc (\"Seven digits\")");
    assert_eq!(found.len(), 0);
}

#[test]
fn upper_case_hash_is_no_mention() {
    let found = extract_references(Some("x"), "see 1234ABCD (\"Upper case\")");
    assert_eq!(found.len(), 0);
}

#[test]
fn empty_title_is_no_mention() {
    let found = extract_references(Some("x"), "see 1234abcd (\"\")");
    assert_eq!(found.len(), 0);
}

#[test]
fn mention_wrapped_over_two_lines() {
    let found = extract_references(
        Some("x"),
        "Fixes: 1234abcd\n(\"Title of A\")\nand 89abcdef (\"A title\nin two lines\")",
    );
    assert_eq!(found.len(), 2);
    assert_eq!(entry(&found[0]), ("1234abcd", "Title of A", RefType::Fix));
    assert_eq!(entry(&found[1]), ("89abcdef", "A title in two lines", RefType::Note));
}

#[test]
fn several_mentions_keep_their_order() {
    let found = extract_references(
        Some("x"),
        "aaaaaaaa (\"one\") then Fixes: bbbbbbbb (\"two\") then aaaaaaaa (\"one\")",
    );
    assert_eq!(found.len(), 3);
    assert_eq!(entry(&found[0]), ("aaaaaaaa", "one", RefType::Note));
    assert_eq!(entry(&found[1]), ("bbbbbbbb", "two", RefType::Fix));
    assert_eq!(entry(&found[2]), ("aaaaaaaa", "one", RefType::Note));
}

#[test]
fn message_without_references() {
    let found = extract_references(Some("Plain"), "Plain\n\nNothing to see here.");
    assert_eq!(found.len(), 0);
}

#[test]
fn revert_is_found() {
    let found = extract_revert(
        Some("Revert \"Title of A\""),
        Some("Revert \"Title of A\"\n\nThis reverts commit 1234abcd."),
    );
    let found = found.unwrap();
    assert_eq!(entry(&found), ("1234abcd", "Title of A", RefType::Revert));
}

#[test]
fn revert_needs_header_and_hash() {
    assert!(extract_revert(Some("Revert \"Title of A\""), Some("no hash here")).is_none());
    assert!(extract_revert(Some("Undo Title of A"), Some("This reverts commit 1234abcd.")).is_none());
    assert!(extract_revert(None, Some("This reverts commit 1234abcd.")).is_none());
    assert!(extract_revert(Some("Revert \"Title of A\""), None).is_none());
}

#[test]
fn revert_hash_may_be_short() {
    let found = extract_revert(Some("Revert \"T\""), Some("This reverts commit 12ab.")).unwrap();
    assert_eq!(entry(&found), ("12ab", "T", RefType::Revert));
}

#[test]
fn revert_comes_after_the_mentions() {
    let found = extract_references(
        Some("Revert \"Title of A\""),
        "Revert \"Title of A\"\n\nThis reverts commit 1234abcd.\nFixes: 1234abcd (\"Title of A\")",
    );
    assert_eq!(found.len(), 2);
    assert_eq!(entry(&found[0]), ("1234abcd", "Title of A", RefType::Fix));
    assert_eq!(entry(&found[1]), ("1234abcd", "Title of A", RefType::Revert));
}

#[test]
fn revert_body_is_searched_unflattened() {
    let found = extract_references(
        Some("Revert \"Title of A\""),
        "Revert \"Title of A\"\n\nThis reverts commit\n1234abcd.",
    );
    assert_eq!(found.len(), 0);
}

#[test]
fn checked_extraction_agrees() {
    let found = try_extract_references(Some("x"), "Fixes: 1234abcd (\"Title of A\")").unwrap();
    assert_eq!(found.len(), 1);
    assert_eq!(entry(&found[0]), ("1234abcd", "Title of A", RefType::Fix));
}

#[test]
fn mention_from_groups_reads_label_hash_and_title() {
    let fix = groups(&[Some("Fixes: 1234abcd (\"T\")"), Some("Fixes: "), Some("1234abcd"), Some("T")]);
    assert_eq!(entry(&mention_from_groups(&fix).unwrap()), ("1234abcd", "T", RefType::Fix));
    let note = groups(&[Some("1234abcd (\"T\")"), None, Some("1234abcd"), Some("T")]);
    assert_eq!(entry(&mention_from_groups(&note).unwrap()), ("1234abcd", "T", RefType::Note));
}

#[test]
fn mention_from_groups_needs_hash_and_title() {
    assert!(mention_from_groups(&groups(&[Some("x"), None, None, Some("T")])).is_none());
    assert!(mention_from_groups(&groups(&[Some("x"), None, Some("1234abcd"), None])).is_none());
    assert!(mention_from_groups(&groups(&[Some("x"), None, Some("1234abcd")])).is_none());
    assert!(mention_from_groups(&groups(&[])).is_none());
}

#[test]
fn references_from_matches_skips_incomplete_matches() {
    let matches = vec![
        groups(&[Some("a"), None, Some("aaaaaaaa"), Some("one")]),
        groups(&[Some("b"), None, None, Some("two")]),
        groups(&[Some("c"), Some("Fixes: "), Some("cccccccc"), Some("three")]),
    ];
    let found = references_from_matches(&matches);
    assert_eq!(found.len(), 2);
    assert_eq!(entry(&found[0]), ("aaaaaaaa", "one", RefType::Note));
    assert_eq!(entry(&found[1]), ("cccccccc", "three", RefType::Fix));
}

#[test]
fn revert_from_matches_takes_title_and_hash() {
    let header = Some(groups(&[Some("Revert \"T\""), Some("T")]));
    let hash = Some(groups(&[Some("This reverts commit 1234abcd"), Some("1234abcd")]));
    let found = revert_from_matches(&header, &hash).unwrap();
    assert_eq!(entry(&found), ("1234abcd", "T", RefType::Revert));
    assert!(revert_from_matches(&None, &hash).is_none());
    assert!(revert_from_matches(&header, &None).is_none());
    assert!(revert_from_matches(&Some(groups(&[Some("x")])), &hash).is_none());
    assert!(revert_from_matches(&header, &Some(groups(&[Some("x"), None]))).is_none());
}

#[test]
fn entries_can_be_cloned() {
    let found = extract_references(Some("x"), "Fixes: 1234abcd (\"Title of A\")");
    let copy = found[0].clone();
    assert_eq!(entry(&copy), ("1234abcd", "Title of A", RefType::Fix));
}

#[test]
fn title_with_a_quote_inside_is_no_mention() {
    let found = extract_references(Some("x"), "see 1234abcd (\"a \"quoted\" title\")");
    assert_eq!(found.len(), 0);
}

#[test]
fn title_may_hold_parentheses_and_other_scripts() {
    let found = extract_references(Some("x"), "Fixes: 1234abcd (\"fix(parser): prüfe Übergänge (again)\")");
    assert_eq!(found.len(), 1);
    assert_eq!(
        entry(&found[0]),
        ("1234abcd", "fix(parser): prüfe Übergänge (again)", RefType::Fix)
    );
}

#[test]
fn label_must_stand_right_before_the_hash() {
    let found = extract_references(Some("x"), "Fixes:  1234abcd (\"two spaces\")");
    assert_eq!(found.len(), 1);
    assert_eq!(entry(&found[0]), ("1234abcd", "two spaces", RefType::Note));
    let found = extract_references(Some("x"), "fixes: 1234abcd (\"lower case\")");
    assert_eq!(entry(&found[0]), ("1234abcd", "lower case", RefType::Note));
}
