use mempalace_core::civil_date::simple_iso_date;
use mempalace_core::edit_distance::edit_distance;
use mempalace_core::fact_checker::{
    check_entity_confusion, check_text, check_text_with_kg, claims_in_text, extract_claims, objects_match,
    EntityQueryResult, FactIssueType,
};

#[test]
fn test_edit_distance_identical() {
    assert_eq!(edit_distance("hello", "hello"), 0);
}

#[test]
fn test_edit_distance_one_change() {
    assert_eq!(edit_distance("hello", "hallo"), 1);
}

#[test]
fn test_edit_distance_one_delete() {
    assert_eq!(edit_distance("hello", "helo"), 1);
}

#[test]
fn test_edit_distance_transpose() {
    // "kitten" -> "sitten" (sub) -> "sittin" (sub) -> "sitting" (ins)
    assert_eq!(edit_distance("kitten", "sitting"), 3);
}

#[test]
fn test_edit_distance_empty_s1() {
    assert_eq!(edit_distance("", "abc"), 3);
}

#[test]
fn test_edit_distance_empty_s2() {
    assert_eq!(edit_distance("abc", ""), 3);
}

#[test]
fn test_extract_claims_bob_is_alices_brother() {
    let claims = extract_claims("Bob is Alice's brother");
    assert_eq!(claims.len(), 1);
    assert_eq!(claims[0].subject, "Bob");
    assert_eq!(claims[0].predicate, "brother");
    assert_eq!(claims[0].object, "Alice");
}

#[test]
fn test_extract_claims_alices_brother_is_bob() {
    let claims = extract_claims("Alice's brother is Bob");
    assert_eq!(claims.len(), 1);
    assert_eq!(claims[0].subject, "Bob");
    assert_eq!(claims[0].predicate, "brother");
    assert_eq!(claims[0].object, "Alice");
}

#[test]
fn test_extract_claims_no_match() {
    let claims = extract_claims("Alice went to the store");
    assert!(claims.is_empty());
}

#[test]
fn test_extract_claims_multiple() {
    let claims = extract_claims("Bob is Alice's brother. Charlie is Dave's cousin.");
    assert_eq!(claims.len(), 2);
    assert_eq!(claims[0].subject, "Bob");
    assert_eq!(claims[1].subject, "Charlie");
}

#[test]
fn test_claims_in_text() {
    assert_eq!(claims_in_text("Bob is Alice's brother"), 1);
    assert_eq!(claims_in_text("no claims here"), 0);
    assert_eq!(claims_in_text(""), 0);
}

#[test]
fn test_objects_match_identical() {
    assert!(objects_match("Alice", "Alice"));
}

#[test]
fn test_objects_match_case_insensitive() {
    assert!(objects_match("Alice", "alice"));
}

#[test]
fn test_objects_match_empty() {
    assert!(!objects_match("", "Alice"));
    assert!(!objects_match("Alice", ""));
}

#[test]
fn test_objects_match_trimmed() {
    assert!(objects_match("  Alice  ", "alice"));
}

#[test]
fn test_simple_iso_date_format() {
    let date = simple_iso_date();
    assert_eq!(date.len(), 10, "expected YYYY-MM-DD format, got: {}", date);
    // Ensure it's a parseable date
    assert_eq!(date.as_bytes()[4], b'-');
    assert_eq!(date.as_bytes()[7], b'-');
}

#[test]
fn test_edit_distance_one_vs_two() {
    // "Jon" -> "John" = 1 edit (insert h)
    assert_eq!(edit_distance("jon", "john"), 1);
    // "Jon" -> "Joan" = 1 edit (delete a)
    assert_eq!(edit_distance("jon", "joan"), 1);
    // "Jon" -> "Jones" = 2 edits (insert e, insert s)
    // "jon" (3 chars) -> "jones" (5 chars): insert 'e', insert 's'
    assert_eq!(edit_distance("jon", "jones"), 2);
}

#[test]
fn test_check_text_empty() {
    let report = check_text("", &Vec::new(), |_s: &str| None, "2026-01-01");
    assert!(report.issues.is_empty());
    assert_eq!(report.claims_checked, 0);
}

#[test]
fn test_check_text_with_kg_empty() {
    let report = check_text_with_kg("", &Vec::new(), "2026-01-01");
    assert!(report.issues.is_empty());
    assert_eq!(report.claims_checked, 0);
}

#[test]
fn test_entity_confusion_empty_names() {
    let names: Vec<String> = Vec::new();
    let issues = check_entity_confusion("Alice is here", &names);
    assert!(issues.is_empty());
}

#[test]
fn test_entity_confusion_no_mentioned() {
    let names = vec!["Bob".to_string()];
    let issues = check_entity_confusion("Alice is here", &names);
    assert!(issues.is_empty());
}

#[test]
fn test_entity_confusion_too_many_edits() {
    let names = vec!["Alexander".to_string()];
    let issues = check_entity_confusion("Alice is here", &names);
    assert!(issues.is_empty());
}

#[test]
fn entity_confusion_reports_near_names() {
    let names = vec!["Alice".to_string(), "Alicia".to_string()];
    let issues = check_entity_confusion("Alice met Bob", &names);
    assert_eq!(issues.len(), 1);
    assert!(matches!(issues[0].issue_type, FactIssueType::SimilarName));
    assert_eq!(issues[0].distance, Some(2));
}

fn fact(predicate: &str, object: &str, current: bool, valid_to: Option<&str>) -> EntityQueryResult {
    EntityQueryResult {
        predicate: predicate.to_string(),
        object: object.to_string(),
        current,
        valid_to: valid_to.map(|s| s.to_string()),
        t_expired: None,
    }
}

#[test]
fn relationship_mismatch_is_reported() {
    let report = check_text(
        "Bob is Alice's brother",
        &Vec::new(),
        |s: &str| if s == "Bob" { Some(vec![fact("husband", "Alice", true, None)]) } else { None },
        "2026-01-01",
    );
    assert_eq!(report.claims_checked, 1);
    assert_eq!(report.issues.len(), 1);
    assert!(matches!(report.issues[0].issue_type, FactIssueType::RelationshipMismatch));
}

#[test]
fn matching_fact_raises_nothing() {
    let report = check_text(
        "Bob is Alice's brother",
        &Vec::new(),
        |_s: &str| Some(vec![fact("brother", "alice", true, None)]),
        "2026-01-01",
    );
    assert!(report.issues.is_empty());
}

#[test]
fn stale_fact_is_reported() {
    let report = check_text(
        "Bob is Alice's brother",
        &Vec::new(),
        |_s: &str| Some(vec![fact("brother", "Alice", false, Some("2025-01-01"))]),
        "2026-01-01",
    );
    assert_eq!(report.issues.len(), 1);
    assert!(matches!(report.issues[0].issue_type, FactIssueType::StaleFact));
    assert_eq!(report.issues[0].valid_to.as_deref(), Some("2025-01-01"));
}

#[test]
fn edit_distance_counts_characters() {
    assert_eq!(edit_distance("é", ""), 1);
    assert_eq!(edit_distance("", "日本"), 2);
    assert_eq!(edit_distance("abc", "é"), 3);
    assert_eq!(edit_distance("Zoë", "Zoe"), 1);
}

#[test]
fn non_ascii_names_are_compared() {
    let names = vec!["Zoë".to_string(), "Zoe".to_string()];
    let issues = check_entity_confusion("Zoe was here", &names);
    let details: Vec<String> = issues.iter().map(|i| i.detail.clone()).collect();
    assert_eq!(issues.len(), 1, "{details:?}");
    assert_eq!(issues[0].distance, Some(1));
}

#[test]
fn the_graph_only_check_reports_no_similar_names() {
    let text = "Jon met Bob. Bob is Jon's brother.";
    let lookups = (0..extract_claims(text).len()).map(|_| None).collect();
    let report = check_text_with_kg(text, &lookups, "2026-01-01");
    assert!(report.issues.is_empty());
}
