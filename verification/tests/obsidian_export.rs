use mempalace_core::moc::render_moc;
use mempalace_core::obsidian_export::MocEntry;
use mempalace_core::obsidian_export::{
    crystal_to_obsidian_md, lesson_to_obsidian_md, memory_to_obsidian_md, observation_to_obsidian_md, render_item,
    sanitize_filename, sanitize_tag, session_to_obsidian_md, yaml_str, ExportItem, ExportType, ObsidianExportConfig,
};
use mempalace_core::types::{CompressedObservation, Crystal, Lesson, Memory, ObservationType, Session};

#[test]
fn test_sanitize_tag() {
    assert_eq!(sanitize_tag("rust programming"), "rust-programming");
    assert_eq!(sanitize_tag("Special/Chars!"), "special_chars_");
    assert_eq!(sanitize_tag("UPPERCASE"), "uppercase");
}

#[test]
fn test_sanitize_filename() {
    assert_eq!(sanitize_filename("test/file:name"), "test_file_name");
    assert_eq!(sanitize_filename("valid-name"), "valid-name");
}

#[test]
fn sanitize_filename_collapses_underscores() {
    assert_eq!(sanitize_filename("__a//b__"), "a_b");
    assert_eq!(sanitize_filename(" x "), "x");
}

#[test]
fn test_yaml_str() {
    assert_eq!(yaml_str("hello"), "hello");
    assert_eq!(yaml_str("has: colon"), "\"has: colon\"");
    assert_eq!(yaml_str("has \"quotes\""), "\"has \\\"quotes\\\"\"");
    assert_eq!(yaml_str("has#hash"), "\"has#hash\"");
    assert_eq!(yaml_str("{json}"), "\"{json}\"");
    assert_eq!(yaml_str("[list]"), "\"[list]\"");
}

#[test]
fn test_export_type_from_str() {
    assert_eq!("memories".parse::<ExportType>().unwrap(), ExportType::Memories);
    assert_eq!("observations".parse::<ExportType>().unwrap(), ExportType::Observations);
    assert_eq!("lessons".parse::<ExportType>().unwrap(), ExportType::Lessons);
    assert_eq!("crystals".parse::<ExportType>().unwrap(), ExportType::Crystals);
    assert_eq!("sessions".parse::<ExportType>().unwrap(), ExportType::Sessions);
    assert_eq!("all".parse::<ExportType>().unwrap(), ExportType::Memories);
    assert!("invalid".parse::<ExportType>().is_err());
}

#[test]
fn export_type_error_message() {
    let e = ExportType::parse_name("bogus").unwrap_err();
    assert_eq!(e, "unknown export type: bogus (expected: memories, observations, lessons, crystals, sessions)");
    assert_eq!(ExportType::parse_name("Lesson").unwrap(), ExportType::Lessons);
    assert_eq!(ExportType::Crystals.to_string(), "crystals");
}

fn config() -> ObsidianExportConfig {
    ObsidianExportConfig::new("./out".to_string(), "%Y-%m-%d %H:%M".to_string())
}

fn test_memory(id: &str) -> Memory {
    Memory {
        id: id.to_string(),
        title: format!("Test Memory {id}"),
        content: "Memory content".to_string(),
        memory_type: "fact".to_string(),
        concepts: vec!["rust".to_string(), "testing".to_string()],
        files: vec!["src/lib.rs".to_string()],
        project: "mempalace".to_string(),
        strength_hundredths: 75,
        version: 1,
        parent_id: None,
        supersedes: vec!["m-0".to_string()],
        related_ids: vec!["m-2".to_string()],
        source_observation_ids: vec!["obs-1".to_string()],
        created_at: 1_767_225_600,
    }
}

#[test]
fn test_memory_frontmatter_has_date_field() {
    let md = memory_to_obsidian_md(&test_memory("m-1"), &config());
    assert!(md.starts_with("---\nid: m-1\ntitle: Test Memory m-1\ntype: memory\ndate: 2026-01-01 00:00\n"));
    assert!(md.contains("strength: 0.75\n"));
    assert!(md.contains("files: [\"src/lib.rs\"]\n"));
}

#[test]
fn test_memory_inline_tags() {
    let md = memory_to_obsidian_md(&test_memory("m-1"), &config());
    assert!(md.contains("#rust #testing\n\n"));
}

#[test]
fn test_memory_wikilinks() {
    let md = memory_to_obsidian_md(&test_memory("m-1"), &config());
    assert!(md.contains("## Related\n\n- [[m-2|related]]\n\n"));
    assert!(md.contains("## Sources\n\n- [[obs-1|source]]\n\n"));
    assert!(md.contains("## Supersedes\n\n- [[m-0|superseded]]\n\n"));
}

#[test]
fn test_memory_no_frontmatter() {
    let mut c = config();
    c.include_frontmatter = false;
    let md = memory_to_obsidian_md(&test_memory("m-1"), &c);
    assert!(!md.starts_with("---"));
    assert!(md.contains("# Test Memory m-1"));
}

#[test]
fn test_memory_no_links() {
    let mut c = config();
    c.include_links = false;
    let md = memory_to_obsidian_md(&test_memory("m-1"), &c);
    assert!(!md.contains("[["));
}

#[test]
fn test_memory_no_inline_tags() {
    let mut c = config();
    c.inline_tags = false;
    let md = memory_to_obsidian_md(&test_memory("m-1"), &c);
    assert!(!md.contains("#rust"));
}

fn test_obs() -> CompressedObservation {
    CompressedObservation {
        id: "obs-1".to_string(),
        session_id: "sess-1".to_string(),
        timestamp: 1_767_225_600,
        observation_type: ObservationType::FileEdit,
        title: "  Edited lib.rs ".to_string(),
        subtitle: Some("small change".to_string()),
        facts: vec!["added fn".to_string()],
        narrative: "Narrative".to_string(),
        concepts: vec!["rust".to_string()],
        files: vec!["src/lib.rs".to_string()],
        importance: 7,
        confidence_hundredths: 90,
        image_ref: None,
        image_description: None,
        modality: "text".to_string(),
        agent_id: None,
    }
}

#[test]
fn test_observation_frontmatter() {
    let md = observation_to_obsidian_md(&test_obs(), &config());
    assert!(md.starts_with("---\nid: obs-1\ntitle: Edited lib.rs\ntype: observation\n"));
    assert!(md.contains("aliases:\n  - sess-1\n"));
    assert!(md.contains("importance: 7\nconfidence: 0.90\nsession: sess-1\n"));
    assert!(md.contains("# Edited lib.rs\n\n> small change\n\nNarrative\n\n"));
    assert!(md.contains("## Facts\n\n- added fn\n\n## Files\n\n- `src/lib.rs`\n\n"));
}

#[test]
fn test_lesson_to_obsidian_md() {
    let lesson = Lesson {
        id: "l-1".to_string(),
        content: "Always run the tests".to_string(),
        context: Some("ci: failures".to_string()),
        project: None,
        source: None,
        tags: vec![],
        source_ids: vec!["m-1".to_string()],
        confidence_hundredths: 5,
        retention_hundredths: 100,
        reinforcement_count: 3,
        created_at: 0,
    };
    let md = lesson_to_obsidian_md(&lesson, &config());
    assert!(md.contains("confidence: 0.05\nretention: 1.00\nreinforcement_count: 3\ncontext: \"ci: failures\"\n"));
    assert!(md.contains("# Lesson: Always run the tests\n\n"));
    assert!(md.contains("> Context: ci: failures\n\n"));
    assert!(md.contains("## Related Memories\n\n- [[m-1|source memory]]\n\n"));
}

#[test]
fn test_crystal_to_obsidian_md() {
    let crystal = Crystal {
        id: "c-1".to_string(),
        narrative: "First line\nsecond".to_string(),
        key_outcomes: vec!["said \"done\"".to_string()],
        files_affected: vec![],
        lessons: vec!["keep it small".to_string()],
        action_ids: vec!["a-1".to_string()],
        project: Some("p".to_string()),
        session_id: None,
        created_at: 0,
    };
    let md = crystal_to_obsidian_md(&crystal, &config());
    assert!(md.contains("title: First line\n"));
    assert!(md.contains("key_outcomes: [\"said \\\"done\\\"\"]\n"));
    assert!(md.contains("## Key Outcomes\n\n- said \"done\"\n\n"));
    assert!(!md.contains("## Files Affected"));
    assert!(md.contains("## Actions\n\n- [[a-1|action]]\n\n"));
}

#[test]
fn test_session_to_obsidian_md() {
    let session = Session {
        id: "s-1".to_string(),
        project: "mempalace".to_string(),
        status: "completed".to_string(),
        first_prompt: None,
        summary: Some("Did things".to_string()),
        model: Some("m".to_string()),
        agent_id: None,
        tags: vec![],
        commit_shas: vec!["abc".to_string()],
        observation_count: 4,
        started_at: 0,
        ended_at: Some(3600),
    };
    let md = session_to_obsidian_md(&session, &config());
    assert!(md.contains("title: Untitled Session\n"));
    assert!(md.contains("ended_at: 1970-01-01 01:00\ncommits: [\"abc\"]\n"));
    assert!(md.contains("## Metadata\n\n- **Project**: mempalace\n- **Status**: completed\n- **Observations**: 4\n- **Model**: m\n\n"));
}

#[test]
fn render_item_rejects_bad_date_format() {
    let mut c = config();
    c.date_format = "%Q".to_string();
    assert!(render_item(&ExportItem::Memory(test_memory("m-1")), &c).is_none());
    c.include_frontmatter = false;
    assert!(render_item(&ExportItem::Memory(test_memory("m-1")), &c).is_some());
}

#[test]
fn moc_groups_notes_by_kind_in_name_order() {
    let e = |title: &str, kind: &str, date: Option<&str>, tags: &[&str]| MocEntry {
        title: title.to_string(),
        path: format!("/x/{}.md", title),
        entry_type: kind.to_string(),
        date: date.map(|d| d.to_string()),
        tags: tags.iter().map(|t| t.to_string()).collect(),
    };
    let md = render_moc(
        &vec![
            e("Session A", "session", Some("2024-01-02"), &[]),
            e("Note: one", "memory", None, &["rust", "db"]),
            e("Two", "memory", Some("2024-01-01"), &[]),
        ],
        "2024-05-05 10:00",
    );
    assert_eq!(
        md,
        "---\ntitle: Map of Content\ntype: moc\ndate: 2024-05-05 10:00\n---\n\n# MemPalace Map of Content\n\n\
> Auto-generated index of all exported memories, observations, and more.\n\n\
## Memories (2)\n\n- [[Note_ one|Note: one]] `rust` `db`\n- [[Two|Two (2024-01-01)]]\n\n\
## Sessions (1)\n\n- [[Session A|Session A (2024-01-02)]]\n\n"
    );
}
