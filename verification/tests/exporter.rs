use mempalace_core::exporter::{render_index_md, render_room_md, safe_path_component, ExportDrawer, WingSummary};

#[test]
fn test_safe_path_component() {
    assert_eq!(safe_path_component("hello"), "hello");
    assert_eq!(safe_path_component("a/b:c"), "a_b_c");
    assert_eq!(safe_path_component(""), "unknown");
    assert_eq!(safe_path_component("  "), "unknown");
}

#[test]
fn room_file_has_heading_and_drawer() {
    let drawers = vec![ExportDrawer {
        id: "d1".to_string(),
        content: "c1".to_string(),
        source_file: None,
        filed_at: "2026-03-01".to_string(),
    }];
    let md = render_room_md("alpha", "beta", &drawers);
    assert_eq!(
        md,
        "# alpha / beta\n\n## d1\n\n> c1\n\n| Field | Value |\n|-------|-------|\n| Source | unknown |\n| Filed | 2026-03-01 |\n\n---\n\n"
    );
}

#[test]
fn index_lists_wings() {
    let wings = vec![WingSummary { wing: "a/b".to_string(), rooms: 2, drawers: 5 }];
    let md = render_index_md("2026-03-03", &wings);
    assert_eq!(
        md,
        "# Palace Export -- 2026-03-03\n\n\n| Wing | Rooms | Drawers |\n|------|-------|---------|\n| [a/b](a_b/) | 2 | 5 |"
    );
}
