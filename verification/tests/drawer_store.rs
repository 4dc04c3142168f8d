use mempalace_core::drawer_store::{
    build_fts_query, check_sqlite_header, plan_stream_export, title_from_metadata_or_content, StreamRow,
};
use mempalace_core::json::Json;

#[test]
fn fts_queries_quote_every_term() {
    assert_eq!(build_fts_query("hello world"), "\"hello\" AND \"world\"");
    assert_eq!(build_fts_query("  say \"hi\"  "), "\"say\" AND \"\"\"hi\"\"\"");
    assert_eq!(build_fts_query("a*b OR c:d"), "\"a*b\" AND \"OR\" AND \"c:d\"");
    assert_eq!(build_fts_query(""), "");
    assert_eq!(build_fts_query(" \t\n"), "");
}

fn meta(title: Json) -> Json {
    Json::Object(vec![("title".to_string(), title)])
}

#[test]
fn titles_prefer_the_metadata() {
    let m = meta(Json::Str("  My Title  ".to_string()));
    assert_eq!(title_from_metadata_or_content(Some(&m), "content"), "My Title");
    let blank = meta(Json::Str("   ".to_string()));
    assert_eq!(title_from_metadata_or_content(Some(&blank), "  first line \nsecond"), "first line");
    let number = meta(Json::Number("3".to_string()));
    assert_eq!(title_from_metadata_or_content(Some(&number), "x"), "x");
    assert_eq!(title_from_metadata_or_content(None, ""), "");
}

#[test]
fn long_first_lines_are_cut_to_80_characters() {
    let long: String = "é".repeat(100);
    let t = title_from_metadata_or_content(None, &long);
    assert_eq!(t.chars().count(), 80);
    let exact: String = "a".repeat(80);
    assert_eq!(title_from_metadata_or_content(None, &exact), exact);
}

#[test]
fn database_headers() {
    let good = b"SQLite format 3\0rest of the page";
    assert!(check_sqlite_header("p.db", 4096, good).is_ok());
    let empty = check_sqlite_header("p.db", 0, b"").unwrap_err();
    assert!(empty.contains("empty") && empty.contains("0 bytes") && empty.contains("p.db"));
    let short = check_sqlite_header("p.db", 5, b"SQLit").unwrap_err();
    assert_eq!(short, "drawer store at p.db is too short to be a SQLite database");
    let bad = check_sqlite_header("p.db", 29, b"this is not a sqlite file!!!!").unwrap_err();
    assert!(bad.contains("not a SQLite database") && bad.contains("bad magic"));
}

fn srow(id: &str, source: Option<&str>, wing: &str) -> StreamRow {
    StreamRow {
        id: id.to_string(),
        content: format!("text {id}"),
        wing: wing.to_string(),
        room: String::new(),
        source_file: source.map(|s| s.to_string()),
        filed_at: "2026-01-01".to_string(),
    }
}

#[test]
fn streaming_export_writes_one_file_per_source_run() {
    let rows = vec![srow("a", None, ""), srow("b", Some("dir/x.txt"), "w"), srow("c", Some("dir/x.txt"), "")];
    let (files, err) = plan_stream_export(&rows, "markdown");
    assert!(err.is_none());
    assert_eq!(files.len(), 2);
    assert_eq!(files[0].0, "unknown.md");
    assert_eq!(
        files[0].1,
        "## a\n\ntext a\n\n**Filed:** 2026-01-01 | **Source:** unknown\n---\n\n\n"
    );
    assert_eq!(files[1].0, "dir_x.txt.md");
    assert_eq!(
        files[1].1,
        "## b\n\ntext b\n\n**Wing:** w | **Room:** \n**Filed:** 2026-01-01 | **Source:** dir/x.txt\n---\n\n\
## c\n\ntext c\n\n**Filed:** 2026-01-01 | **Source:** dir/x.txt\n---\n\n"
    );
}

#[test]
fn streaming_export_refuses_unknown_formats() {
    let (files, err) = plan_stream_export(&[srow("a", Some("s"), "")], "html");
    assert_eq!(err.as_deref(), Some("unknown export format 'html'"));
    assert_eq!(files, vec![("s.md".to_string(), String::new())]);
    let (none, ok) = plan_stream_export(&[], "html");
    assert!(none.is_empty() && ok.is_none());
}
