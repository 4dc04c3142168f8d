use mempalace_core::backup::{backups_to_prune, sort_backups_newest_first};

fn found(v: &[(u64, &str)]) -> Vec<(u64, String)> {
    v.iter().map(|(t, p)| (*t, p.to_string())).collect()
}

#[test]
fn no_cap_or_zero_cap_prunes_nothing() {
    let f = found(&[(1, "a"), (2, "b"), (3, "c")]);
    assert!(backups_to_prune(f.clone(), None).is_empty());
    assert!(backups_to_prune(f, Some(0)).is_empty());
}

#[test]
fn under_the_cap_prunes_nothing() {
    assert!(backups_to_prune(found(&[(1, "b1"), (2, "b2")]), Some(5)).is_empty());
}

#[test]
fn the_oldest_go_first() {
    let f = found(&[(100, "/t/oldest.tar"), (150, "/t/middle.tar"), (200, "/t/newest.tar")]);
    assert_eq!(backups_to_prune(f.clone(), Some(2)), vec!["/t/oldest.tar".to_string()]);
    assert_eq!(backups_to_prune(f, Some(1)), vec!["/t/middle.tar".to_string(), "/t/oldest.tar".to_string()]);
}

#[test]
fn equal_times_keep_the_last_path() {
    let f = found(&[(7, "/t/z.tar"), (7, "/t/a.tar"), (7, "/t/m.tar")]);
    assert_eq!(backups_to_prune(f, Some(1)), vec!["/t/m.tar".to_string(), "/t/a.tar".to_string()]);
}

#[test]
fn sorting_is_newest_first() {
    let s = sort_backups_newest_first(found(&[(1, "x"), (3, "a"), (3, "b"), (2, "y")]));
    let order: Vec<&str> = s.iter().map(|e| e.1.as_str()).collect();
    assert_eq!(order, vec!["b", "a", "y", "x"]);
}
