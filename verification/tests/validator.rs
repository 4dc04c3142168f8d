use mempalace_core::eval::validator::{validate_and_correct_compression, validate_and_correct_summary, ValidationResult};
use mempalace_core::types::{CompressedObservation, ObservationType};

fn good_obs() -> CompressedObservation {
    CompressedObservation {
        id: "test".to_string(),
        session_id: "sess".to_string(),
        timestamp: 1_700_000_000,
        observation_type: ObservationType::FileRead,
        title: "Read main.rs".to_string(),
        subtitle: None,
        facts: vec!["File has 100 lines".to_string()],
        narrative: "Read the main.rs file which contains the entry point".to_string(),
        concepts: vec!["rust".to_string()],
        files: vec!["src/main.rs".to_string()],
        importance: 5,
        confidence_hundredths: 80,
        image_ref: None,
        image_description: None,
        modality: "text".to_string(),
        agent_id: None,
    }
}

#[test]
fn test_validate_good_observation() {
    let mut obs = good_obs();
    let result = validate_and_correct_compression(&mut obs);
    assert!(result.valid);
    assert_eq!(result.retries, 0);
    assert!(result.issues.is_empty());
}

#[test]
fn test_validate_empty_title_gets_fixed() {
    let mut obs = good_obs();
    obs.title = String::new();
    let result = validate_and_correct_compression(&mut obs);
    assert!(result.valid, "should self-correct: {:?}", result.issues);
    assert!(!obs.title.is_empty());
}

#[test]
fn test_validate_empty_narrative_gets_fixed() {
    let mut obs = good_obs();
    obs.narrative = String::new();
    let result = validate_and_correct_compression(&mut obs);
    assert!(result.valid, "should self-correct: {:?}", result.issues);
    assert!(!obs.narrative.is_empty());
}

#[test]
fn test_validate_importance_clamped() {
    let mut obs = good_obs();
    obs.importance = 25;
    let result = validate_and_correct_compression(&mut obs);
    assert!(result.valid);
    assert!(obs.importance <= 10);
}

#[test]
fn test_validate_importance_zero_gets_fixed() {
    let mut obs = good_obs();
    obs.importance = 0;
    let result = validate_and_correct_compression(&mut obs);
    assert!(result.valid);
    assert!(obs.importance >= 1);
}

#[test]
fn test_validate_empty_facts_and_concepts_gets_fixed() {
    let mut obs = good_obs();
    obs.facts.clear();
    obs.concepts.clear();
    let result = validate_and_correct_compression(&mut obs);
    assert!(result.valid, "should self-correct: {:?}", result.issues);
    assert!(!obs.concepts.is_empty());
}

#[test]
fn test_validate_long_title_truncated() {
    let mut obs = good_obs();
    obs.title = "x".repeat(300);
    let result = validate_and_correct_compression(&mut obs);
    assert!(result.valid);
    assert!(obs.title.len() <= 200);
}

#[test]
fn test_validate_summary_good() {
    let mut title = "Auth Implementation".to_string();
    let mut narrative = "Implemented JWT auth.\n\nAdded middleware.".to_string();
    let mut decisions = vec!["Use JWT".to_string()];
    let mut files = vec!["src/auth.rs".to_string()];
    let mut concepts = vec!["auth".to_string()];
    let result = validate_and_correct_summary(
        &mut title,
        &mut narrative,
        &mut decisions,
        &mut files,
        &mut concepts,
    );
    assert!(result.valid);
    assert_eq!(result.retries, 0);
}

#[test]
fn test_validate_summary_empty_gets_fixed() {
    let mut title = String::new();
    let mut narrative = String::new();
    let mut decisions = Vec::new();
    let mut files = Vec::new();
    let mut concepts = Vec::new();
    let result = validate_and_correct_summary(
        &mut title,
        &mut narrative,
        &mut decisions,
        &mut files,
        &mut concepts,
    );
    assert!(result.valid, "should self-correct: {:?}", result.issues);
    assert!(!title.is_empty());
    assert!(!narrative.is_empty());
}

#[test]
fn test_validate_result_failed_shape() {
    let result = ValidationResult::failed(20, 25, 2, vec!["bad score".to_string()]);
    assert!(!result.valid);
    assert_eq!(result.initial_score, 20);
    assert_eq!(result.final_score, 25);
    assert_eq!(result.retries, 2);
    assert_eq!(result.issues.len(), 1);
}
