use mempalace_core::coordination::frontier::{
    compute_frontier, compute_frontier_at, compute_score, should_include, Action, ActionStatus, SCORE_UNITS_PER_POINT,
};

fn test_action(id: &str, priority: u8, status: ActionStatus) -> Action {
    Action { id: id.to_string(), status, priority, created_at: chrono::Utc::now().timestamp() }
}

fn action_at(id: &str, priority: u8, status: ActionStatus, created_at: i64) -> Action {
    Action { id: id.to_string(), status, priority, created_at }
}

#[test]
fn test_frontier_excludes_completed() {
    let actions = vec![
        test_action("a-1", 1, ActionStatus::Pending),
        test_action("a-2", 2, ActionStatus::Completed),
        test_action("a-3", 1, ActionStatus::InProgress),
    ];
    let frontier = compute_frontier(&actions, None, &[]);
    assert_eq!(frontier.len(), 2);
    assert!(frontier.iter().all(|e| e.action.id != "a-2"));
}

#[test]
fn test_frontier_excludes_blocked() {
    let actions = vec![test_action("a-1", 1, ActionStatus::Pending), test_action("a-2", 1, ActionStatus::Blocked)];
    let frontier = compute_frontier(&actions, None, &[]);
    assert_eq!(frontier.len(), 1);
    assert_eq!(frontier[0].action.id, "a-1");
}

#[test]
fn test_frontier_priority_ordering() {
    let actions = vec![test_action("a-low", 4, ActionStatus::Pending), test_action("a-high", 1, ActionStatus::Pending)];
    let frontier = compute_frontier(&actions, None, &[]);
    assert_eq!(frontier[0].action.id, "a-high");
    assert!(frontier[0].score > frontier[1].score);
}

#[test]
fn test_frontier_in_progress_bonus() {
    let actions = vec![test_action("a-1", 2, ActionStatus::Pending), test_action("a-2", 2, ActionStatus::InProgress)];
    let frontier = compute_frontier(&actions, None, &[]);
    assert_eq!(frontier[0].action.id, "a-2");
}

#[test]
fn test_frontier_lease_exclusion() {
    let actions = vec![test_action("a-1", 1, ActionStatus::Pending), test_action("a-2", 1, ActionStatus::Pending)];
    let leases = vec![("a-1".to_string(), "other-agent".to_string())];
    let frontier = compute_frontier(&actions, Some("my-agent"), &leases);
    assert_eq!(frontier.len(), 1);
    assert_eq!(frontier[0].action.id, "a-2");
}

#[test]
fn test_compute_score_formula() {
    let action = test_action("a-1", 1, ActionStatus::Pending);
    let score = compute_score(&action, chrono::Utc::now().timestamp());
    let priority_component = (5 - 1) as i128 * 10 * SCORE_UNITS_PER_POINT;
    assert!(score >= priority_component);
}

#[test]
fn score_parts_are_exact() {
    let now = 1_700_000_000;
    // Two hours old, priority 2: 30 points plus one point of age.
    assert_eq!(compute_score(&action_at("x", 2, ActionStatus::Pending, now - 7200), now), 31 * 7200);
    // Age counts for at most 20 points.
    assert_eq!(compute_score(&action_at("x", 5, ActionStatus::Pending, now - 1_000_000), now), 20 * 7200);
    // In progress adds 15 points; an action from the future loses age points.
    assert_eq!(compute_score(&action_at("x", 5, ActionStatus::InProgress, now + 3600), now), 15 * 7200 - 3600);
    // A priority above 5 scores below zero.
    assert_eq!(compute_score(&action_at("x", 9, ActionStatus::Pending, now), now), -40 * 7200);
}

#[test]
fn failed_actions_stay_open_and_cancelled_ones_do_not() {
    assert!(should_include(&action_at("f", 1, ActionStatus::Failed, 0), None, &[]));
    assert!(!should_include(&action_at("c", 1, ActionStatus::Cancelled, 0), None, &[]));
}

#[test]
fn own_lease_or_no_agent_keeps_the_action() {
    let leases = vec![("a-1".to_string(), "me".to_string())];
    let a = action_at("a-1", 1, ActionStatus::Pending, 0);
    assert!(should_include(&a, Some("me"), &leases));
    assert!(should_include(&a, None, &leases));
    assert!(!should_include(&a, Some("you"), &leases));
}

#[test]
fn equal_scores_keep_their_order() {
    let now = 1_000_000;
    let actions = vec![
        action_at("first", 3, ActionStatus::Pending, now),
        action_at("urgent", 1, ActionStatus::Pending, now),
        action_at("second", 3, ActionStatus::Pending, now),
        action_at("older", 3, ActionStatus::Pending, now - 7200),
    ];
    let f = compute_frontier_at(&actions, None, &[], now);
    let ids: Vec<&str> = f.iter().map(|e| e.action.id.as_str()).collect();
    assert_eq!(ids, vec!["urgent", "older", "first", "second"]);
    assert_eq!(f[1].score, 21 * 7200);
}
