use mempalace_core::eval::metrics::MetricsStore;
use mempalace_core::eval::{evaluate_compression, evaluate_summary, record_score};
use mempalace_core::types::{CompressedObservation, ObservationType};

#[test]
fn test_record_and_latest() {
    let mut store = MetricsStore::new();
    store.record("compress", 85, None);
    store.record("compress", 90, Some("improved".to_string()));
    assert_eq!(store.latest("compress"), Some(90));
}

#[test]
fn test_record_clamps_score() {
    let mut store = MetricsStore::new();
    store.record("compress", 150, None);
    assert_eq!(store.latest("compress"), Some(100));
}

#[test]
fn test_threshold_alerts() {
    let mut store = MetricsStore::new();
    store.set_threshold("compress", 80);
    store.record("compress", 50, None);
    store.record("compress", 60, None);
    let alerts = store.threshold_alerts();
    assert_eq!(alerts.len(), 1);
    assert_eq!(alerts[0].function_name, "compress");
}

#[test]
fn test_threshold_no_alert_when_above() {
    let mut store = MetricsStore::new();
    store.set_threshold("compress", 50);
    store.record("compress", 80, None);
    store.record("compress", 90, None);
    let alerts = store.threshold_alerts();
    assert!(alerts.is_empty());
}

#[test]
fn test_ring_buffer_cap() {
    let mut store = MetricsStore::with_max_per_function(3);
    store.record("compress", 10, None);
    store.record("compress", 20, None);
    store.record("compress", 30, None);
    store.record("compress", 40, None);
    let measurements = store.get_measurements("compress");
    assert_eq!(measurements.len(), 3);
    assert_eq!(measurements[0].score, 20);
    assert_eq!(measurements[2].score, 40);
}

#[test]
fn test_clear() {
    let mut store = MetricsStore::new();
    store.record("compress", 80, None);
    store.clear("compress");
    assert!(store.get_measurements("compress").is_empty());
    assert!(store.latest("compress").is_none());
}

#[test]
fn clear_all_forgets_every_function() {
    let mut store = MetricsStore::new();
    store.record("compress", 80, None);
    store.record("summarize", 90, None);
    store.clear_all();
    assert!(store.get_measurements("compress").is_empty());
    assert!(store.get_measurements("summarize").is_empty());
}

#[test]
fn test_get_measurements_unknown() {
    let store = MetricsStore::new();
    assert!(store.get_measurements("unknown").is_empty());
}

#[test]
fn test_record_and_check() {
    let mut store = MetricsStore::new();
    record_score(&mut store, "test_fn", 80, None);
    assert_eq!(store.latest("test_fn"), Some(80));
}

#[test]
fn threshold_alert_reports_window_sum() {
    let mut store = MetricsStore::new();
    store.set_threshold("compress", 80);
    store.record("compress", 50, None);
    store.record("compress", 60, None);
    let alerts = store.threshold_alerts();
    assert_eq!(alerts[0].recent_sum, 110);
    assert_eq!(alerts[0].window, 2);
    assert_eq!(alerts[0].threshold, 80);
}

#[test]
fn test_evaluate_compression() {
    let mut store = MetricsStore::new();
    let mut obs = CompressedObservation {
        id: "test".to_string(),
        session_id: "sess".to_string(),
        timestamp: 1_700_000_000,
        observation_type: ObservationType::FileRead,
        title: "Read main.rs".to_string(),
        subtitle: None,
        facts: vec!["File has 100 lines".to_string()],
        narrative: "Read the main.rs file which contains the entry point for the application".to_string(),
        concepts: vec!["rust".to_string()],
        files: vec!["src/main.rs".to_string()],
        importance: 7,
        confidence_hundredths: 80,
        image_ref: None,
        image_description: None,
        modality: "text".to_string(),
        agent_id: None,
    };
    let (score, validation) = evaluate_compression(&mut store, &mut obs);
    assert!(score > 0);
    assert!(validation.valid);
    assert_eq!(store.latest("compress"), Some(score));
}

#[test]
fn test_evaluate_summary() {
    let mut store = MetricsStore::new();
    let mut title = "Auth Implementation".to_string();
    let mut narrative = "Implemented JWT auth with refresh tokens.\n\nAdded middleware.".to_string();
    let mut decisions = vec!["Use JWT".to_string()];
    let mut files = vec!["src/auth.rs".to_string()];
    let mut concepts = vec!["auth".to_string()];
    let (score, validation) = evaluate_summary(
        &mut store,
        &mut title,
        &mut narrative,
        &mut decisions,
        &mut files,
        &mut concepts,
    );
    assert!(score > 0);
    assert!(validation.valid);
}

#[test]
fn test_evaluate_compression_with_empty_obs_fixes_it() {
    let mut store = MetricsStore::new();
    let mut obs = CompressedObservation {
        id: "test".to_string(),
        session_id: "sess".to_string(),
        timestamp: 1_700_000_000,
        observation_type: ObservationType::Other,
        title: String::new(),
        subtitle: None,
        facts: vec![],
        narrative: String::new(),
        concepts: vec![],
        files: vec![],
        importance: 0,
        confidence_hundredths: 0,
        image_ref: None,
        image_description: None,
        modality: "text".to_string(),
        agent_id: None,
    };
    let (_, _validation) = evaluate_compression(&mut store, &mut obs);
    assert!(!obs.title.is_empty());
    assert!(!obs.narrative.is_empty());
}
