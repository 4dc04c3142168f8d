use mempalace_core::context_inject::{
    collect_file_paths, extract_file_paths, extract_paths_from_command, file_name_stem, filter_lines_for_file, format_context_as_markdown,
    format_section, looks_like_path, truncate_block, CacheSlot, ContextCache, ContextInjector, ParamField, ToolParams,
    MAX_BLOCK_CHARS,
};

#[test]
fn test_file_name_stem_with_path() {
    assert_eq!(file_name_stem("src/main.rs"), "main");
}

#[test]
fn test_file_name_stem_without_path() {
    assert_eq!(file_name_stem("lib.rs"), "lib");
}

#[test]
fn test_file_name_stem_empty() {
    assert_eq!(file_name_stem(""), "");
}

#[test]
fn test_format_section_empty() {
    assert_eq!(format_section("Header", ""), "");
}

#[test]
fn test_format_section_with_content() {
    let result = format_section("Lessons", "- lesson 1\n");
    assert_eq!(result, "### Lessons\n- lesson 1\n");
}

#[test]
fn test_truncate_block_short() {
    let text = "short text";
    assert_eq!(truncate_block(text), "short text");
}

#[test]
fn test_truncate_block_long() {
    let text = &"x".repeat(1000);
    let result = truncate_block(text);
    assert!(result.len() <= MAX_BLOCK_CHARS + 4);
    assert!(result.ends_with("..."));
}

#[test]
fn test_context_cache_new() {
    let cache = ContextCache::new();
    assert!(cache.pinned_slots.is_none());
    assert!(cache.project_profile.is_none());
    assert!(cache.lessons.is_none());
    assert!(cache.session_summaries.is_none());
}

#[test]
fn test_context_cache_get_or_compute() {
    let mut cache = ContextCache::new();
    let call_count = std::sync::atomic::AtomicUsize::new(0);

    let result = cache.get_or_compute(CacheSlot::Lessons, 1_000, || {
        call_count.fetch_add(1, std::sync::atomic::Ordering::SeqCst);
        "cached value".to_string()
    });
    assert_eq!(result, "cached value");
    assert_eq!(call_count.load(std::sync::atomic::Ordering::SeqCst), 1);

    let result2 = cache.get_or_compute(CacheSlot::Lessons, 2_000, || {
        call_count.fetch_add(1, std::sync::atomic::Ordering::SeqCst);
        "new value".to_string()
    });
    assert_eq!(result2, "cached value");
    assert_eq!(call_count.load(std::sync::atomic::Ordering::SeqCst), 1);
}

#[test]
fn test_context_cache_invalidate() {
    let mut cache = ContextCache::new();
    let _ = cache.get_or_compute(CacheSlot::PinnedSlots, 0, || "pinned".to_string());
    let _ = cache.get_or_compute(CacheSlot::Lessons, 0, || "lessons".to_string());
    assert!(cache.pinned_slots.is_some());
    cache.invalidate();
    assert!(cache.pinned_slots.is_none());
    assert!(cache.lessons.is_none());
}

#[test]
fn cache_entry_expires_after_ttl() {
    let mut cache = ContextCache::new();
    let _ = cache.get_or_compute(CacheSlot::Lessons, 0, || "old".to_string());
    let same = cache.get_or_compute(CacheSlot::Lessons, 30_000, || "new".to_string());
    assert_eq!(same, "old");
    let fresh = cache.get_or_compute(CacheSlot::Lessons, 30_001, || "new".to_string());
    assert_eq!(fresh, "new");
}

#[test]
fn test_looks_like_path() {
    assert!(looks_like_path("src/main.rs"));
    assert!(looks_like_path("Cargo.toml"));
    assert!(looks_like_path("a/b/c"));
    assert!(!looks_like_path("hello"));
    assert!(!looks_like_path("12345"));
}

#[test]
fn test_extract_paths_from_command_empty() {
    assert!(extract_paths_from_command("").is_empty());
}

#[test]
fn test_extract_paths_from_command_with_paths() {
    let paths = extract_paths_from_command("cat src/main.rs > out.txt");
    assert!(paths.contains(&"src/main.rs".to_string()));
}

#[test]
fn test_extract_paths_from_command_ignores_flags() {
    let paths = extract_paths_from_command("grep -r pattern src/");
    assert_eq!(paths, vec!["src/".to_string()]);
}

#[test]
fn command_paths_strip_leading_slashes() {
    let paths = extract_paths_from_command("cat ./src/a.rs /etc/hosts");
    assert_eq!(paths, vec!["src/a.rs".to_string(), "etc/hosts".to_string()]);
}

#[test]
fn test_format_context_as_markdown_empty() {
    assert_eq!(format_context_as_markdown(&Vec::new()), "");
}

#[test]
fn format_context_as_markdown_bullets() {
    let md = format_context_as_markdown(&vec!["line one\nline two".to_string()]);
    assert_eq!(md, "## Recent Context\n- line one line two\n");
}

fn params(path: ParamField, file_path: ParamField, file: ParamField, target: ParamField, command: Option<&str>) -> ToolParams {
    ToolParams { path, file_path, file, target, command: command.map(|s| s.to_string()) }
}

#[test]
fn collect_paths_path_field() {
    let p = params(ParamField::Text("src/main.rs".to_string()), ParamField::Missing, ParamField::Missing, ParamField::Missing, None);
    assert_eq!(collect_file_paths(&p), vec!["src/main.rs".to_string()]);
}

#[test]
fn collect_paths_target_object() {
    let p = params(
        ParamField::Missing,
        ParamField::Missing,
        ParamField::Missing,
        ParamField::Object(Some("src/lib.rs".to_string())),
        None,
    );
    assert_eq!(collect_file_paths(&p), vec!["src/lib.rs".to_string()]);
}

#[test]
fn collect_paths_command_string() {
    let p = params(ParamField::Missing, ParamField::Missing, ParamField::Missing, ParamField::Missing, Some("cat src/main.rs"));
    assert_eq!(collect_file_paths(&p), vec!["src/main.rs".to_string()]);
}

#[test]
fn collect_paths_deduplication() {
    let p = params(
        ParamField::Text("src/lib.rs".to_string()),
        ParamField::Missing,
        ParamField::Text("src/lib.rs".to_string()),
        ParamField::Missing,
        None,
    );
    assert_eq!(collect_file_paths(&p), vec!["src/lib.rs".to_string()]);
}

#[test]
fn collect_paths_multiple_files() {
    let p = params(
        ParamField::Text("src/a.rs".to_string()),
        ParamField::Text("src/b.rs".to_string()),
        ParamField::Missing,
        ParamField::Missing,
        None,
    );
    assert_eq!(collect_file_paths(&p), vec!["src/a.rs".to_string(), "src/b.rs".to_string()]);
}

#[test]
fn collect_paths_ignores_non_paths() {
    let p = params(ParamField::Text("hello world".to_string()), ParamField::Missing, ParamField::Missing, ParamField::Missing, None);
    assert!(collect_file_paths(&p).is_empty());
}

#[test]
fn collected_paths_are_sorted() {
    let p = params(
        ParamField::Text("z/last.rs".to_string()),
        ParamField::Text("a/first.rs".to_string()),
        ParamField::Other,
        ParamField::Missing,
        Some("vim m/mid.rs"),
    );
    assert_eq!(
        collect_file_paths(&p),
        vec!["a/first.rs".to_string(), "m/mid.rs".to_string(), "z/last.rs".to_string()]
    );
}

#[test]
fn lessons_filtered_by_file_stem() {
    let all = "- Main loop must not block\n- Parser handles utf8\n- MAIN entry point\n";
    assert_eq!(filter_lines_for_file(all, "src/main.rs"), "- Main loop must not block\n- MAIN entry point\n");
    assert_eq!(filter_lines_for_file(all, "src/none.rs"), all);
    assert_eq!(filter_lines_for_file(all, ""), all);
}

#[test]
fn build_context_disabled_is_empty() {
    let mut inj = ContextInjector::new(false);
    let ctx = inj.build_context(0, false, false, "{}", |_s: CacheSlot| "x".to_string(), |_q: String| None);
    assert_eq!(ctx, "");
}

#[test]
fn build_context_sdk_child_is_empty() {
    let mut inj = ContextInjector::new(true);
    let ctx = inj.build_context(0, true, true, "{}", |_s: CacheSlot| "x".to_string(), |_q: String| None);
    assert_eq!(ctx, "");
}

#[test]
fn build_context_assembles_sections() {
    let mut inj = ContextInjector::new(true);
    let fetch = |s: CacheSlot| match s {
        CacheSlot::PinnedSlots => "- **a**: b\n".to_string(),
        CacheSlot::ProjectProfile => String::new(),
        CacheSlot::Lessons => "- lesson\n".to_string(),
        CacheSlot::SessionSummaries => String::new(),
    };
    let ctx = inj.build_context(0, false, false, "{}", fetch, |_q: String| None);
    assert_eq!(ctx, "## MemPalace Context\n### Pinned Slots\n- **a**: b\n### Lessons\n- lesson\n");
}

#[test]
fn build_context_adds_file_context_with_remaining_budget() {
    let mut inj = ContextInjector::new(true);
    let ctx = inj.build_context(
        0,
        false,
        false,
        r#"{"file_path": "src/main.rs"}"#,
        |_s: CacheSlot| String::new(),
        |q: String| Some(vec![format!("found by {q}"), "two\nlines".to_string()]),
    );
    assert_eq!(ctx, "## MemPalace Context\n\n### Related: `main`\n- found by file main\n- two lines\n");
}

#[test]
fn build_context_cuts_file_context_to_the_budget() {
    let mut inj = ContextInjector::new(true);
    let big = "x".repeat(700);
    let ctx = inj.build_context(
        0,
        false,
        false,
        r#"{"command": "cat a/notes.md"}"#,
        |s: CacheSlot| match s {
            CacheSlot::PinnedSlots => format!("- {}\n", "p".repeat(3700)),
            _ => String::new(),
        },
        |_q: String| Some(vec![big.clone()]),
    );
    assert!(ctx.ends_with("..."));
    assert!(ctx.len() <= "## MemPalace Context\n".len() + 4000 + 3);
}

#[test]
fn disabled_context_reads_nothing() {
    let mut inj = ContextInjector::new(false);
    let ctx = inj.build_context(0, false, false, "{}", |_s: CacheSlot| panic!("no read"), |_q: String| None);
    assert_eq!(ctx, "");
}

#[test]
fn test_extract_file_paths_empty_json() {
    assert!(extract_file_paths("{}").is_empty());
}

#[test]
fn test_extract_file_paths_invalid_json() {
    assert!(extract_file_paths("not json").is_empty());
}

#[test]
fn test_extract_file_paths_path_field() {
    let json = r#"{"path": "src/main.rs"}"#;
    let paths = extract_file_paths(json);
    assert_eq!(paths, vec!["src/main.rs".to_string()]);
}

#[test]
fn test_extract_file_paths_file_path_field() {
    let json = r#"{"file_path": "crates/core/src/lib.rs"}"#;
    let paths = extract_file_paths(json);
    assert_eq!(paths, vec!["crates/core/src/lib.rs".to_string()]);
}

#[test]
fn test_extract_file_paths_file_field() {
    let json = r#"{"file": "README.md"}"#;
    let paths = extract_file_paths(json);
    assert_eq!(paths, vec!["README.md".to_string()]);
}

#[test]
fn test_extract_file_paths_target_object() {
    let json = r#"{"target": {"type": "path", "path": "src/lib.rs"}}"#;
    let paths = extract_file_paths(json);
    assert_eq!(paths, vec!["src/lib.rs".to_string()]);
}

#[test]
fn test_extract_file_paths_command_string() {
    let json = r#"{"command": "cat src/main.rs"}"#;
    let paths = extract_file_paths(json);
    assert_eq!(paths, vec!["src/main.rs".to_string()]);
}

#[test]
fn test_extract_file_paths_deduplication() {
    let json = r#"{"path": "src/lib.rs", "file": "src/lib.rs"}"#;
    let paths = extract_file_paths(json);
    assert_eq!(paths, vec!["src/lib.rs".to_string()]);
}

#[test]
fn test_extract_file_paths_multiple_files() {
    let json = r#"{"path": "src/a.rs", "file_path": "src/b.rs"}"#;
    let paths = extract_file_paths(json);
    assert_eq!(paths, vec!["src/a.rs".to_string(), "src/b.rs".to_string()]);
}

#[test]
fn test_extract_file_paths_ignores_non_paths() {
    let json = r#"{"path": "hello world", "name": "test"}"#;
    let paths = extract_file_paths(json);
    assert!(paths.is_empty());
}

#[test]
fn extract_file_paths_of_a_json_array_is_empty() {
    assert!(extract_file_paths(r#"["src/main.rs"]"#).is_empty());
}
