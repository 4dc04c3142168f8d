use mempalace_core::export_groups::{group_for_export, plan_export, ExportRow};
use mempalace_core::exporter::ExportDrawer;

fn row(wing: &str, room: &str, id: &str) -> ExportRow {
    ExportRow {
        wing: wing.to_string(),
        room: room.to_string(),
        drawer: ExportDrawer {
            id: id.to_string(),
            content: format!("content of {}", id),
            source_file: None,
            filed_at: "2024-01-01".to_string(),
        },
    }
}

#[test]
fn rows_are_grouped_by_wing_then_room_in_name_order() {
    let groups = group_for_export(vec![
        row("work", "notes", "d1"),
        row("home", "garden", "d2"),
        row("work", "alpha", "d3"),
        row("work", "notes", "d4"),
        row("Home", "x", "d5"),
    ]);
    let wings: Vec<&str> = groups.iter().map(|g| g.wing.as_str()).collect();
    assert_eq!(wings, vec!["Home", "home", "work"]);
    let work = &groups[2];
    let rooms: Vec<&str> = work.rooms.iter().map(|r| r.room.as_str()).collect();
    assert_eq!(rooms, vec!["alpha", "notes"]);
    let ids: Vec<&str> = work.rooms[1].drawers.iter().map(|d| d.id.as_str()).collect();
    assert_eq!(ids, vec!["d1", "d4"]);
}

#[test]
fn plan_counts_wings_rooms_and_drawers() {
    let plan = plan_export(vec![row("a", "r1", "1"), row("a", "r2", "2"), row("b", "r1", "3"), row("a", "r1", "4")]);
    assert_eq!(plan.stats.wings, 2);
    assert_eq!(plan.stats.rooms, 3);
    assert_eq!(plan.stats.drawers, 4);
    assert_eq!(plan.index.len(), 2);
    assert_eq!(plan.index[0].wing, "a");
    assert_eq!(plan.index[0].rooms, 2);
    assert_eq!(plan.index[0].drawers, 3);
    assert_eq!(plan.index[1].drawers, 1);
}

#[test]
fn empty_export_has_no_groups() {
    let plan = plan_export(Vec::new());
    assert_eq!(plan.stats.wings, 0);
    assert_eq!(plan.stats.drawers, 0);
    assert!(plan.groups.is_empty());
}
