use mempalace_core::eval_score::{
    score_compression, score_context_relevance, score_summary, section_tag_count, CompressionObservation,
    SummaryObservation,
};

#[test]
fn compression_empty_input_scores_zero() {
    let obs = CompressionObservation {
        title: None,
        facts: None,
        narrative: None,
        concepts: None,
        importance: None,
    };
    assert_eq!(score_compression(&obs), 0);
}

#[test]
fn compression_ideal_input_near_max() {
    let obs = CompressionObservation {
        title: Some("Why we chose Clerk over Auth0 for auth".into()),
        facts: Some(vec!["Kai".into(), "Priya".into(), "Maya".into(), "Leo".into(), "Soren".into()]),
        narrative: Some("A very long narrative that goes on and on exceeding two hundred characters easily.".into()),
        concepts: Some(vec!["auth".into(), "clerk".into(), "migration".into()]),
        importance: Some(5),
    };
    assert_eq!(score_compression(&obs), 100);
}

#[test]
fn compression_scores_respect_upper_bound() {
    let obs = CompressionObservation {
        title: Some("Valid title here".into()),
        facts: Some(vec!["a".into(), "b".into(), "c".into()]),
        narrative: Some("This is a narrative that is definitely over fifty characters long.".into()),
        concepts: Some(vec!["x".into()]),
        importance: Some(7),
    };
    assert!(score_compression(&obs) <= 100);
}

#[test]
fn compression_mid_range_score() {
    let obs = CompressionObservation {
        title: Some("Valid title".into()),
        facts: Some(vec!["a".into(), "b".into(), "c".into()]),
        narrative: None,
        concepts: Some(vec![]),
        importance: Some(0),
    };
    assert_eq!(score_compression(&obs), 50);
}

#[test]
fn summary_empty_input_scores_zero() {
    let s = SummaryObservation {
        title: None,
        narrative: None,
        key_decisions: None,
        files_modified: None,
        concepts: None,
    };
    assert_eq!(score_summary(&s), 0);
}

#[test]
fn summary_ideal_input_scores_100() {
    let s = SummaryObservation {
        title: Some("Auth migration completed successfully".into()),
        narrative: Some("We migrated from Auth0 to Clerk for better pricing and DX. Kai led the implementation, Maya did the review, and the team approved on 2026-01-15.".into()),
        key_decisions: Some(vec!["Choose Clerk".into(), "Keep existing sessions".into(), "Maya reviews".into()]),
        files_modified: Some(vec!["auth/mod.rs".into(), "middleware/auth.rs".into()]),
        concepts: Some(vec!["clerk".into(), "auth0".into()]),
    };
    assert_eq!(score_summary(&s), 100);
}

#[test]
fn summary_scores_respect_upper_bound() {
    let s = SummaryObservation {
        title: Some("Auth migration".into()),
        narrative: Some("Completed auth migration successfully.".into()),
        key_decisions: Some(vec!["Chose Clerk".into()]),
        files_modified: Some(vec!["a.rs".into()]),
        concepts: Some(vec!["auth".into()]),
    };
    assert!(score_summary(&s) <= 100);
}

#[test]
fn summary_mid_range_score() {
    let s = SummaryObservation {
        title: Some("Auth done".into()),
        narrative: Some("Migrated auth to Clerk in January.".into()),
        key_decisions: Some(vec![]),
        files_modified: Some(vec![]),
        concepts: Some(vec![]),
    };
    assert_eq!(score_summary(&s), 45);
}

#[test]
fn context_relevance_empty_context_scores_zero() {
    assert_eq!(score_context_relevance("", "mempalace"), 0);
}

#[test]
fn context_relevance_empty_project_still_scores() {
    // context has content → +20, no project match to add, other criteria
    assert!(score_context_relevance("hello world", "") >= 20);
}

#[test]
fn context_relevance_ideal_input_scores_100() {
    let ctx = "<file>src/main.rs</file><symbol>main</symbol><diff>--- a/src/main.rs</diff><commit>abc123</commit> long ".repeat(20);
    let score = score_context_relevance(&ctx, "mempalace");
    assert_eq!(score, 80);
}

#[test]
fn context_relevance_scores_respect_upper_bound() {
    let ctx = "a".repeat(600);
    let score = score_context_relevance(&ctx, "project");
    assert!(score <= 100);
}

#[test]
fn context_relevance_mid_range_score() {
    let ctx = "<file>src/main.rs</file><symbol>main</symbol> ".repeat(10);
    let score = score_context_relevance(&ctx, "");
    assert_eq!(score, 70);
}

#[test]
fn section_tag_count_basic() {
    assert_eq!(section_tag_count("<file>src/main.rs</file>"), 1);
}

#[test]
fn section_tag_count_multiple() {
    assert_eq!(section_tag_count("<file>a</file><symbol>b</symbol><diff>c</diff>"), 3);
}

#[test]
fn section_tag_count_no_tags() {
    assert_eq!(section_tag_count("no tags here"), 0);
}

#[test]
fn section_tag_count_unclosed() {
    // Unclosed tags should not count
    assert_eq!(section_tag_count("<file"), 0);
}

#[test]
fn section_tag_count_mixed_content() {
    // Should count only properly formed tags
    assert_eq!(section_tag_count("hello <file>world</file> and <symbol>foo</symbol>"), 2);
}
