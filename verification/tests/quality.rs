use mempalace_core::eval::quality::{score_compression, score_summary, SummaryQualityInput};
use mempalace_core::types::{CompressedObservation, ObservationType};

fn make_test_obs() -> CompressedObservation {
    CompressedObservation {
        id: "test".to_string(),
        session_id: "sess".to_string(),
        timestamp: 1_700_000_000,
        observation_type: ObservationType::FileRead,
        title: "Read main.rs".to_string(),
        subtitle: None,
        facts: vec![
            "File has 100 lines".to_string(),
            "Uses Rust".to_string(),
            "Imports serde".to_string(),
        ],
        narrative: "Read the main.rs file which contains the entry point for the application with error handling".to_string(),
        concepts: vec!["rust".to_string(), "async".to_string()],
        files: vec!["src/main.rs".to_string()],
        importance: 7,
        confidence_hundredths: 80,
        image_ref: None,
        image_description: None,
        modality: "text".to_string(),
        agent_id: None,
    }
}

#[test]
fn test_score_compression_perfect() {
    let obs = make_test_obs();
    assert_eq!(score_compression(&obs), 100);
}

#[test]
fn test_score_compression_empty() {
    let obs = CompressedObservation {
        id: "test".to_string(),
        session_id: "sess".to_string(),
        timestamp: 1_700_000_000,
        observation_type: ObservationType::Other,
        title: "".to_string(),
        subtitle: None,
        facts: vec![],
        narrative: "".to_string(),
        concepts: vec![],
        files: vec![],
        importance: 0,
        confidence_hundredths: 0,
        image_ref: None,
        image_description: None,
        modality: "text".to_string(),
        agent_id: None,
    };
    assert_eq!(score_compression(&obs), 0);
}

#[test]
fn test_score_compression_partial() {
    let obs = CompressedObservation {
        id: "test".to_string(),
        session_id: "sess".to_string(),
        timestamp: 1_700_000_000,
        observation_type: ObservationType::FileRead,
        title: "Read".to_string(),
        subtitle: None,
        facts: vec!["one fact".to_string()],
        narrative: "Short narrative here".to_string(),
        concepts: vec![],
        files: vec![],
        importance: 5,
        confidence_hundredths: 50,
        image_ref: None,
        image_description: None,
        modality: "text".to_string(),
        agent_id: None,
    };
    let score = score_compression(&obs);
    assert!(score > 0 && score < 100);
}

#[test]
fn test_score_summary_perfect() {
    let input = SummaryQualityInput {
        title: "Auth Implementation",
        narrative: "Implemented JWT authentication with refresh tokens.\n\nAdded middleware for token validation.",
        key_decisions: &[
            "Use JWT".to_string(),
            "Add refresh tokens".to_string(),
            "Use HTTPS only".to_string(),
        ],
        files_modified: &["src/auth.rs".to_string(), "src/middleware.rs".to_string()],
        concepts: &[
            "JWT".to_string(),
            "authentication".to_string(),
            "security".to_string(),
        ],
    };
    assert_eq!(score_summary(&input), 100);
}

#[test]
fn test_score_summary_empty() {
    let input = SummaryQualityInput {
        title: "",
        narrative: "",
        key_decisions: &[],
        files_modified: &[],
        concepts: &[],
    };
    assert_eq!(score_summary(&input), 0);
}

#[test]
fn test_score_summary_partial() {
    let input = SummaryQualityInput {
        title: "Test",
        narrative: "A short narrative.",
        key_decisions: &[],
        files_modified: &["main.rs".to_string()],
        concepts: &[],
    };
    let score = score_summary(&input);
    assert!(score > 0 && score < 100);
}
