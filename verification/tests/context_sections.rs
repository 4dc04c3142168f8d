use mempalace_core::context_sections::{
    render_lessons, render_pinned_slots, render_project_profile, render_session_summaries, ProfileRow, SessionRow,
    SlotRow,
};

fn slot(label: &str, content: &str, pinned: bool) -> SlotRow {
    SlotRow { label: label.to_string(), content: content.to_string(), pinned }
}

#[test]
fn pinned_slots_are_listed_up_to_five() {
    let slots: Vec<SlotRow> = (0..8).map(|i| slot(&format!("s{i}"), &format!("c{i}"), i != 1)).collect();
    let text = render_pinned_slots(&slots);
    assert_eq!(text, "- **s0**: c0\n- **s2**: c2\n- **s3**: c3\n- **s4**: c4\n- **s5**: c5\n");
    assert_eq!(render_pinned_slots(&[slot("a", "b", false)]), "");
}

#[test]
fn long_blocks_are_cut() {
    let long = "x".repeat(900);
    let text = render_lessons(&[long]);
    assert_eq!(text, format!("- {}...\n", "x".repeat(800)));
}

#[test]
fn lessons_are_listed_up_to_five() {
    let lessons: Vec<String> = (0..7).map(|i| format!("lesson {i}")).collect();
    let text = render_lessons(&lessons);
    assert_eq!(text.lines().count(), 5);
    assert!(text.starts_with("- lesson 0\n"));
    assert_eq!(render_lessons(&[]), "");
}

#[test]
fn sessions_with_summaries_are_listed() {
    let sessions = vec![
        SessionRow { id: "s1".to_string(), started_at: 1_700_000_000, summary: Some("did things".to_string()) },
        SessionRow { id: "s2".to_string(), started_at: 0, summary: None },
        SessionRow { id: "s3".to_string(), started_at: 0, summary: Some("first".to_string()) },
    ];
    assert_eq!(
        render_session_summaries(&sessions),
        "- [2023-11-14 22:13] s1 did things\n- [1970-01-01 00:00] s3 first\n"
    );
}

#[test]
fn only_the_first_five_sessions_are_looked_at() {
    let mut sessions: Vec<SessionRow> =
        (0..5).map(|i| SessionRow { id: format!("s{i}"), started_at: 0, summary: None }).collect();
    sessions.push(SessionRow { id: "late".to_string(), started_at: 0, summary: Some("x".to_string()) });
    assert_eq!(render_session_summaries(&sessions), "");
}

fn row(ids: usize, concepts: Option<&str>, room: Option<&str>) -> ProfileRow {
    ProfileRow { ids, concepts: concepts.map(|s| s.to_string()), room: room.map(|s| s.to_string()) }
}

#[test]
fn the_profile_counts_concepts_and_rooms() {
    let rows = vec![
        row(1, Some("rust, verus"), Some("code")),
        row(2, Some(" verus ,, proofs"), Some("notes")),
        row(1, Some("verus"), Some("code")),
        row(0, None, None),
    ];
    assert_eq!(
        render_project_profile(&rows),
        "Memories: 4 total\nConcepts: verus, rust, proofs\nRooms: code, notes\n"
    );
}

#[test]
fn an_empty_profile_says_nothing_or_n_a() {
    assert_eq!(render_project_profile(&[]), "");
    assert_eq!(render_project_profile(&[row(0, Some("a"), Some("b"))]), "");
    assert_eq!(render_project_profile(&[row(3, None, None)]), "Memories: 3 total\nConcepts: n/a\nRooms: n/a\n");
}

#[test]
fn the_profile_names_at_most_eight_concepts_and_five_rooms() {
    let rows: Vec<ProfileRow> = (0..10).map(|i| row(1, Some(&format!("c{i}")), Some(&format!("r{i}")))).collect();
    let text = render_project_profile(&rows);
    assert_eq!(
        text,
        "Memories: 10 total\nConcepts: c0, c1, c2, c3, c4, c5, c6, c7\nRooms: r0, r1, r2, r3, r4\n"
    );
}

#[test]
fn session_start_queries() {
    use_query();
}

fn use_query() {
    assert_eq!(
        mempalace_core::context_sections::session_context_query("abc", Some("mempalace")),
        "recent session context project mempalace"
    );
    assert_eq!(mempalace_core::context_sections::session_context_query("abc", None), "recent session abc context");
}
