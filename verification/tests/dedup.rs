use std::collections::{HashMap, HashSet};

use mempalace_core::dedup::{
    build_audit_details, dedup_source_group, plan_dedup, DedupEntry, DedupOptions, DedupStats, SourcedEntry,
};
use mempalace_core::json::Json;

fn cosine_distance(a: &str, b: &str) -> f64 {
    let wa: Vec<&str> = a.split_whitespace().collect();
    let wb: Vec<&str> = b.split_whitespace().collect();
    if wa.is_empty() || wb.is_empty() {
        return 1.0;
    }
    let mut fa: HashMap<String, f64> = HashMap::new();
    for w in &wa {
        *fa.entry(w.to_lowercase()).or_insert(0.0) += 1.0;
    }
    let mut fb: HashMap<String, f64> = HashMap::new();
    for w in &wb {
        *fb.entry(w.to_lowercase()).or_insert(0.0) += 1.0;
    }
    let vocab: HashSet<String> = fa.keys().cloned().chain(fb.keys().cloned()).collect();
    let (mut dot, mut ma, mut mb) = (0.0, 0.0, 0.0);
    for w in &vocab {
        let x = fa.get(w).copied().unwrap_or(0.0);
        let y = fb.get(w).copied().unwrap_or(0.0);
        dot += x * y;
        ma += x * x;
        mb += y * y;
    }
    1.0 - (dot / (ma.sqrt() * mb.sqrt())).clamp(0.0, 1.0)
}

fn make_query_result(id: &str, content: &str) -> DedupEntry {
    DedupEntry { ids: vec![id.to_string()], content: Some(content.to_string()) }
}

fn group(entries: &[DedupEntry], threshold: f64) -> (Vec<String>, Vec<String>) {
    dedup_source_group(entries, move |a: &str, b: &str| cosine_distance(a, b) < threshold)
}

#[test]
fn test_dedup_empty_group() {
    let (kept, deleted) = group(&[], 0.15);
    assert!(kept.is_empty());
    assert!(deleted.is_empty());
}

#[test]
fn test_dedup_single_entry() {
    let entries = vec![make_query_result("id1", "hello world this is a test entry")];
    let (kept, deleted) = group(&entries, 0.15);
    assert_eq!(kept, vec!["id1"]);
    assert!(deleted.is_empty());
}

#[test]
fn test_dedup_short_content_auto_deleted() {
    let entries = vec![make_query_result("id1", "short")];
    let (kept, deleted) = group(&entries, 0.15);
    assert!(kept.is_empty());
    assert_eq!(deleted, vec!["id1"]);
}

#[test]
fn test_dedup_near_duplicates() {
    let entries = vec![
        make_query_result("id1", "this is a long document with quite a few words in it"),
        make_query_result("id2", "this is a long document with quite a few words"),
    ];
    let (kept, deleted) = group(&entries, 0.15);
    assert_eq!(kept, vec!["id1"]);
    assert_eq!(deleted, vec!["id2"]);
}

#[test]
fn test_dedup_distinct_content_all_kept() {
    let entries = vec![
        make_query_result("id1", "the quick brown fox jumps over the lazy dog"),
        make_query_result("id2", "python is a programming language that is widely used"),
    ];
    let (kept, deleted) = group(&entries, 0.15);
    assert_eq!(kept.len(), 2);
    assert!(deleted.is_empty());
}

#[test]
fn test_dedup_longest_kept_first() {
    let entries = vec![
        make_query_result("short", "short text"),
        make_query_result(
            "long",
            "this is a much longer document with a lot more words \
             and should be preferred as the canonical copy \
             because it contains more information",
        ),
    ];
    let (kept, _) = group(&entries, 0.15);
    assert!(!kept.contains(&"short".to_string()));
}

#[test]
fn test_dedup_three_entries_two_kept() {
    let entries = vec![
        make_query_result("id1", "apple banana cherry date"),
        make_query_result("id2", "apple banana cherry date elderberry fig"),
        make_query_result("id3", "the distant ocean waves crash against the rocky shoreline at dusk"),
    ];
    let (kept, deleted) = group(&entries, 0.3);
    assert_eq!(kept.len(), 2, "should keep id2 and id3, got {:?}", kept);
    assert_eq!(deleted.len(), 1, "should delete id1, got {:?}", deleted);
}

#[test]
fn test_build_audit_details() {
    let stats = DedupStats {
        sources_checked: 3,
        total_kept: 10,
        total_deleted: 5,
        palace_size_before: 100,
        palace_size_after: 95,
        deleted_ids: vec![],
        source_summaries: vec![],
    };
    let details = build_audit_details(&stats);
    let get = |k: &str| {
        details.iter().find(|(n, _)| n == k).and_then(|(_, v)| match v {
            Json::Number(n) => n.parse::<u64>().ok(),
            _ => None,
        })
    };
    assert_eq!(get("sources_checked"), Some(3));
    assert_eq!(get("total_deleted"), Some(5));
    assert_eq!(get("palace_size_after"), Some(95));
}

#[test]
fn missing_content_is_deleted_and_equal_lengths_keep_their_order() {
    let entries = vec![
        DedupEntry { ids: vec!["none".to_string()], content: None },
        make_query_result("a", "alpha beta gamma delta one"),
        make_query_result("b", "alpha beta gamma delta two"),
    ];
    // Everything counts as near: the first of the two equal lengths is kept.
    let (kept, deleted) = dedup_source_group(&entries, |_a: &str, _b: &str| true);
    assert_eq!(kept, vec!["a"]);
    assert_eq!(deleted, vec!["b", "none"]);
}

#[test]
fn a_kept_drawer_without_ids_does_not_shield_the_next() {
    let entries = vec![
        DedupEntry { ids: vec![], content: Some("the longest content of them all here".to_string()) },
        make_query_result("x", "a shorter content that is near"),
    ];
    let (kept, deleted) = dedup_source_group(&entries, |_a: &str, _b: &str| true);
    assert_eq!(kept, vec!["x"]);
    assert!(deleted.is_empty());
}

fn sourced(source: Option<&str>, id: &str, content: &str) -> SourcedEntry {
    SourcedEntry { source: source.map(|s| s.to_string()), entry: make_query_result(id, content) }
}

#[test]
fn a_pass_groups_by_source_and_counts() {
    let long = "a fairly long document about the same thing";
    let entries = vec![
        sourced(Some("notes/A.md"), "a1", long),
        sourced(Some("other.md"), "o1", long),
        sourced(Some("notes/A.md"), "a2", long),
        sourced(None, "u1", long),
        sourced(Some("notes/A.md"), "a3", "tiny"),
    ];
    let options = DedupOptions { dry_run: false, source_pattern: Some("NOTES".to_string()), min_drawers_to_check: 2 };
    let stats = plan_dedup(entries, &options, 42, |a: &str, b: &str| a == b);
    assert_eq!(stats.sources_checked, 1);
    assert_eq!(stats.total_kept, 1);
    assert_eq!(stats.total_deleted, 2);
    assert_eq!(stats.deleted_ids, vec!["a2", "a3"]);
    assert_eq!(stats.source_summaries.len(), 1);
    let s = &stats.source_summaries[0];
    assert_eq!((s.source.as_str(), s.before, s.after, s.deleted), ("notes/A.md", 3, 1, 2));
    assert_eq!((stats.palace_size_before, stats.palace_size_after), (42, 42));
}

#[test]
fn a_dry_run_deletes_nothing_and_unknown_sources_group_together() {
    let long = "a fairly long document about the same thing";
    let entries = vec![sourced(None, "u1", long), sourced(None, "u2", long), sourced(Some("x"), "x1", long)];
    let options = DedupOptions { dry_run: true, source_pattern: None, min_drawers_to_check: 2 };
    let stats = plan_dedup(entries, &options, 3, |a: &str, b: &str| a == b);
    assert_eq!(stats.sources_checked, 1);
    assert_eq!(stats.source_summaries[0].source, "unknown");
    assert_eq!(stats.total_deleted, 1);
    assert!(stats.deleted_ids.is_empty());
}
