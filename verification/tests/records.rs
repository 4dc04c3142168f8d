use mempalace_core::daemon::{DaemonConfig, DaemonStatus, WriteJob};
use mempalace_core::llm::NoopProvider;
use mempalace_core::snapshot::{entry_from_meta, newest_snapshots, SnapshotEntry, SnapshotMeta, SnapshotStats, SnapshotStore};

#[test]
fn test_snapshot_entry_from_meta() {
    let meta = SnapshotMeta {
        id: "snap-1".to_string(),
        commit_hash: "abc123".to_string(),
        created_at: "2024-01-01T00:00:00Z".to_string(),
        message: "test".to_string(),
        stats: SnapshotStats { sessions: 0, observations: 0, memories: 0, graph_nodes: 0 },
    };
    let entry = entry_from_meta(&meta);
    assert_eq!(entry.commit_hash, "abc123");
}

fn entry(created_at: &str, message: &str) -> SnapshotEntry {
    SnapshotEntry { commit_hash: "local".to_string(), created_at: created_at.to_string(), message: message.to_string() }
}

#[test]
fn snapshots_listed_newest_first_stable() {
    let out = newest_snapshots(vec![
        entry("2024-01-01", "a"),
        entry("2024-03-01", "b"),
        entry("2024-01-01", "c"),
        entry("2024-02-01", "d"),
    ]);
    let msgs: Vec<&str> = out.iter().map(|e| e.message.as_str()).collect();
    assert_eq!(msgs, vec!["b", "d", "a", "c"]);
}

#[test]
fn snapshots_listing_keeps_twenty() {
    let many: Vec<SnapshotEntry> = (0..25).map(|i| entry(&format!("2024-01-{:02}", i + 1), "m")).collect();
    let out = newest_snapshots(many);
    assert_eq!(out.len(), 20);
    assert_eq!(out[0].created_at, "2024-01-25");
}

#[test]
fn snapshot_store_dir() {
    let store = SnapshotStore::from_dir("/tmp/snaps".to_string());
    assert_eq!(store.snapshot_dir(), "/tmp/snaps");
}

#[test]
fn test_noop_returns_empty() {
    let provider = NoopProvider::new();
    let result = provider.complete("system", "user");
    assert_eq!(result.text, "");
    assert_eq!(result.provider, "noop");
}

#[test]
fn test_noop_always_available() {
    let provider = NoopProvider::with_model("m1".to_string());
    assert!(provider.check_available().is_ok());
    assert_eq!(provider.model(), "m1");
    assert_eq!(provider.name(), "noop");
}

#[test]
fn test_write_job_label() {
    assert_eq!(WriteJob::Flush.label(), "flush");
    assert_eq!(WriteJob::DeleteDrawer { id: "x".to_string() }.label(), "delete_drawer");
}

#[test]
fn test_daemon_config_default() {
    let c = DaemonConfig::default_config();
    assert_eq!(c.channel_capacity, 256);
    let s = DaemonStatus::not_running();
    assert!(!s.running);
}
