use mempalace_core::connect::{
    join_home, AntigravityAdapter, ClineAdapter, ConnectOptions, ConnectPlan, ContinueDevAdapter, KiroAdapter,
    OpenHumanAdapter, QwenAdapter, WarpAdapter, ZedAdapter,
};

fn write_target(p: ConnectPlan) -> (String, String, bool) {
    match p {
        ConnectPlan::WriteConfig { path, key, dry_run } => (path, key, dry_run),
        _ => panic!("expected a config write"),
    }
}

#[test]
fn join_home_puts_one_separator() {
    assert_eq!(join_home("/home/u", ".cline/mcp.json"), "/home/u/.cline/mcp.json");
    assert_eq!(join_home("/home/u/", ".cline/mcp.json"), "/home/u/.cline/mcp.json");
    assert_eq!(join_home("", "a/b"), "a/b");
}

#[test]
fn config_paths_per_agent() {
    let h = Some("/h");
    assert_eq!(ClineAdapter.config_path(h), "/h/.cline/mcp.json");
    assert_eq!(KiroAdapter.config_path(h), "/h/.kiro/settings/mcp.json");
    assert_eq!(OpenHumanAdapter.config_path(h), "/h/.openhuman/mcp.json");
    assert_eq!(QwenAdapter.config_path(h), "/h/.qwen/settings.json");
    assert_eq!(WarpAdapter.config_path(h), "/h/.warp/.mcp.json");
    assert_eq!(ZedAdapter.config_path(h), "/h/.config/zed/settings.json");
    assert_eq!(ContinueDevAdapter.config_path(h), "/h/.continue/config.json");
    assert_eq!(AntigravityAdapter.config_path(h, false), "/h/.config/Antigravity/User/mcp_config.json");
    assert_eq!(
        AntigravityAdapter.config_path(h, true),
        "/h/Library/Application Support/Antigravity/User/mcp_config.json"
    );
    assert_eq!(ClineAdapter.config_path(None), "~/.cline/mcp.json");
}

#[test]
fn names_and_detection() {
    assert_eq!(ClineAdapter.name(), "cline");
    assert_eq!(ContinueDevAdapter.name(), "continue");
    assert_eq!(ZedAdapter.detect_path(Some("/h")), Some("/h/.config/zed".to_string()));
    assert_eq!(ZedAdapter.detect_path(None), None);
}

#[test]
fn zed_writes_context_servers() {
    let opts = ConnectOptions { dry_run: true, force: false };
    let (path, key, dry) = write_target(ZedAdapter.connect(&opts, Some("/h")));
    assert_eq!(path, "/h/.config/zed/settings.json");
    assert_eq!(key, "context_servers");
    assert!(dry);
    let (_, key, _) = write_target(ClineAdapter.connect(&ConnectOptions::default(), Some("/h")));
    assert_eq!(key, "mcpServers");
}

#[test]
fn antigravity_dry_run_needs_no_config() {
    let opts = ConnectOptions { dry_run: true, force: false };
    match AntigravityAdapter.connect(&opts, Some("/h"), false) {
        ConnectPlan::Report(r) => {
            assert_eq!(r.adapter, "antigravity");
            assert!(!r.wrote);
            assert_eq!(r.note.as_deref(), Some("no config required"));
        },
        _ => panic!("expected a report"),
    }
}

#[test]
fn continue_dev_branches() {
    let dry = ConnectOptions { dry_run: true, force: false };
    let real = ConnectOptions::default();
    match ContinueDevAdapter.connect(&real, "/h", true, true) {
        ConnectPlan::Report(r) => {
            assert_eq!(r.config_path, "/h/.continue/config.yaml");
            assert_eq!(r.note.as_deref(), Some("config.yaml exists — manual edit required (YAML)"));
        },
        _ => panic!("expected a report"),
    }
    let (path, _, _) = write_target(ContinueDevAdapter.connect(&real, "/h", false, true));
    assert_eq!(path, "/h/.continue/config.json");
    match ContinueDevAdapter.connect(&dry, "/h", false, false) {
        ConnectPlan::Report(r) => assert_eq!(r.note.as_deref(), Some("dry-run: would create config.json")),
        _ => panic!("expected a report"),
    }
    match ContinueDevAdapter.connect(&real, "/h", false, false) {
        ConnectPlan::CreateAndWrite { path, key } => {
            assert_eq!(path, "/h/.continue/config.json");
            assert_eq!(key, "mcpServers");
        },
        _ => panic!("expected a create"),
    }
}
