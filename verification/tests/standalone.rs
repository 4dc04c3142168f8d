use mempalace_core::standalone::{server_port, InMemoryStore};

#[test]
fn a_read_gives_back_the_last_write() {
    let mut s = InMemoryStore::new();
    s.put_at("k", "1".to_string(), None, 100);
    s.put_at("k", "{\"a\":2}".to_string(), None, 100);
    assert_eq!(s.get_at("k", 1_000_000), Some("{\"a\":2}".to_string()));
    assert_eq!(s.get_at("other", 100), None);
    assert_eq!(s.len_at(100), 1);
}

#[test]
fn entries_expire_after_their_time_to_live() {
    let mut s = InMemoryStore::new();
    s.put_at("k", "\"v\"".to_string(), Some(60), 1000);
    assert!(s.contains_at("k", 1060));
    assert_eq!(s.get_at("k", 1060), Some("\"v\"".to_string()));
    assert!(!s.contains_at("k", 1061));
    assert_eq!(s.len_at(1061), 0);
    // Still held until read or cleaned up, then gone.
    assert_eq!(s.len_at(1000), 1);
    assert_eq!(s.get_at("k", 1061), None);
    assert_eq!(s.len_at(1000), 0);
}

#[test]
fn delete_clear_and_cleanup() {
    let mut s = InMemoryStore::new();
    s.put_at("a", "1".to_string(), None, 0);
    s.put_at("b", "2".to_string(), Some(10), 100);
    s.put_at("c", "3".to_string(), Some(1000), 100);
    assert!(s.delete("a"));
    assert!(!s.delete("a"));
    s.cleanup_expired_at(500);
    assert!(!s.contains_at("b", 0));
    assert_eq!(s.get_at("c", 500), Some("3".to_string()));
    assert_eq!(s.len_at(500), 1);
    s.clear();
    assert_eq!(s.len_at(0), 0);
}

#[test]
fn the_clock_reading_variants_agree_for_lasting_entries() {
    let mut s = InMemoryStore::new();
    assert!(s.put("k", "[1,2]".to_string(), None));
    assert!(s.contains("k"));
    assert_eq!(s.len(), 1);
    assert_eq!(s.get("k"), Some("[1,2]".to_string()));
    s.cleanup_expired();
    assert_eq!(s.len(), 1);
}

#[test]
fn server_ports() {
    assert_eq!(server_port("http://localhost:4000/"), 4000);
    assert_eq!(server_port("https://127.0.0.1:8443"), 8443);
    assert_eq!(server_port("localhost:5000"), 5000);
    assert_eq!(server_port("http://localhost"), 3030);
    assert_eq!(server_port("http://localhost:4000/api"), 3030);
    assert_eq!(server_port("http://h:99999"), 3030);
}
