//! Wiring the memory server into coding agents: where each agent keeps its
//! MCP configuration, which key holds the servers, and what a connect run
//! does.  Reading the home directory, testing for files and writing the
//! configuration are left to the caller, which hands in what it found.
use vstd::prelude::*;
use crate::text::{ends_with, owned, push_str};

verus! {

broadcast use vstd::string::group_string_axioms;

/// Options of a connect run.
pub struct ConnectOptions {
    /// Describe what would change without writing anything.
    pub dry_run: bool,
    /// Overwrite an existing entry even if already wired.
    pub force: bool,
}

impl Default for ConnectOptions {
    fn default() -> (r: Self)
        ensures
            !r.dry_run,
            !r.force,
    {
        ConnectOptions { dry_run: false, force: false }
    }
}

/// Result of a connect run.
pub struct ConnectResult {
    /// Name of the adapter that ran.
    pub adapter: String,
    /// The config file that was (or would be) written.
    pub config_path: String,
    /// Whether a file was actually written.
    pub wrote: bool,
    /// A note for people (e.g. "already wired").
    pub note: Option<String>,
}

/// What a connect run does.
pub enum ConnectPlan {
    /// Write the server entry under `key` into the config file at `path`.
    WriteConfig { path: String, key: String, dry_run: bool },
    /// Create the directory of `path`, then write the server entry under
    /// `key` into it.
    CreateAndWrite { path: String, key: String },
    /// Nothing is written; this is the result.
    Report(ConnectResult),
}

/// `home` joined with a relative path (`Path::join`): a separator is put
/// between them unless `home` is empty or already ends with one.
pub open spec fn join_path(home: Seq<char>, rel: Seq<char>) -> Seq<char> {
    if home.len() == 0 || ends_with(home, "/"@) {
        home + rel
    } else {
        home + "/"@ + rel
    }
}

/// A path under the home directory; `~/` stands for it when the home
/// directory is not known.
pub open spec fn home_path(home: Option<Seq<char>>, rel: Seq<char>) -> Seq<char> {
    match home {
        Some(h) => join_path(h, rel),
        None => "~/"@ + rel,
    }
}

pub open spec fn opt_str(o: Option<&str>) -> Option<Seq<char>> {
    match o {
        Some(s) => Some(s@),
        None => None,
    }
}

/// `Path::join` of a home directory and a relative path.
pub fn join_home(home: &str, rel: &str) -> (r: String)
    ensures
        r@ == join_path(home@, rel@),
{
    let mut r = owned(home);
    let hc = crate::text::chars_of(home);
    let needs_sep = hc.len() > 0 && hc[hc.len() - 1] != '/';
    proof {
        reveal_strlit("/");
        if hc@.len() > 0 {
            let sk = home@.skip(home@.len() - 1);
            assert(sk.len() == 1 && sk[0] == hc@[hc@.len() - 1]);
            if hc@[hc@.len() - 1] == '/' {
                assert(sk =~= "/"@);
            } else {
                assert(sk[0] != "/"@[0]);
            }
        }
    }
    if needs_sep {
        push_str(&mut r, "/");
    }
    push_str(&mut r, rel);
    r
}

/// A path under the home directory, or under `~/` when it is not known.
pub fn home_path_exec(home: Option<&str>, rel: &str) -> (r: String)
    ensures
        r@ == home_path(opt_str(home), rel@),
{
    match home {
        Some(h) => join_home(h, rel),
        None => {
            let mut r = owned("~/");
            push_str(&mut r, rel);
            r
        },
    }
}

/// The directory whose presence shows that an agent is installed; `None`
/// when the home directory is not known (the agent counts as absent).
pub fn detect_dir(home: Option<&str>, rel: &str) -> (r: Option<String>)
    ensures
        match r {
            Some(p) => home is Some && p@ == join_path(home->0@, rel@),
            None => home is None,
        },
{
    match home {
        Some(h) => Some(join_home(h, rel)),
        None => None,
    }
}

/// The plan of an adapter that writes its JSON config file: the server
/// entry under `key` at `path`, honouring a dry run.
pub open spec fn writes_config(plan: ConnectPlan, path: Seq<char>, key: Seq<char>, dry_run: bool) -> bool {
    match plan {
        ConnectPlan::WriteConfig { path: p, key: k, dry_run: d } => p@ == path && k@ == key && d == dry_run,
        _ => false,
    }
}

fn write_plan(path: String, key: &str, dry_run: bool) -> (r: ConnectPlan)
    ensures
        writes_config(r, path@, key@, dry_run),
{
    ConnectPlan::WriteConfig { path, key: owned(key), dry_run }
}

// ---------------------------------------------------------------------------
// Adapters that keep `mcpServers` in one JSON file
// ---------------------------------------------------------------------------

/// Cline: `~/.cline/mcp.json`.
pub struct ClineAdapter;

impl ClineAdapter {
    pub fn name(&self) -> (r: &'static str)
        ensures
            r@ == "cline"@,
    {
        "cline"
    }

    pub fn config_path(&self, home: Option<&str>) -> (r: String)
        ensures
            r@ == home_path(opt_str(home), ".cline/mcp.json"@),
    {
        home_path_exec(home, ".cline/mcp.json")
    }

    pub fn detect_path(&self, home: Option<&str>) -> (r: Option<String>)
        ensures
            match r {
                Some(p) => home is Some && p@ == join_path(home->0@, ".cline"@),
                None => home is None,
            },
    {
        detect_dir(home, ".cline")
    }

    pub fn connect(&self, opts: &ConnectOptions, home: Option<&str>) -> (r: ConnectPlan)
        ensures
            writes_config(r, home_path(opt_str(home), ".cline/mcp.json"@), "mcpServers"@, opts.dry_run),
    {
        write_plan(self.config_path(home), "mcpServers", opts.dry_run)
    }
}

/// Kiro: `~/.kiro/settings/mcp.json`.
pub struct KiroAdapter;

impl KiroAdapter {
    pub fn name(&self) -> (r: &'static str)
        ensures
            r@ == "kiro"@,
    {
        "kiro"
    }

    pub fn config_path(&self, home: Option<&str>) -> (r: String)
        ensures
            r@ == home_path(opt_str(home), ".kiro/settings/mcp.json"@),
    {
        home_path_exec(home, ".kiro/settings/mcp.json")
    }

    pub fn detect_path(&self, home: Option<&str>) -> (r: Option<String>)
        ensures
            match r {
                Some(p) => home is Some && p@ == join_path(home->0@, ".kiro"@),
                None => home is None,
            },
    {
        detect_dir(home, ".kiro")
    }

    pub fn connect(&self, opts: &ConnectOptions, home: Option<&str>) -> (r: ConnectPlan)
        ensures
            writes_config(r, home_path(opt_str(home), ".kiro/settings/mcp.json"@), "mcpServers"@, opts.dry_run),
    {
        write_plan(self.config_path(home), "mcpServers", opts.dry_run)
    }
}

/// OpenHuman: `~/.openhuman/mcp.json`.
pub struct OpenHumanAdapter;

impl OpenHumanAdapter {
    pub fn name(&self) -> (r: &'static str)
        ensures
            r@ == "openhuman"@,
    {
        "openhuman"
    }

    pub fn config_path(&self, home: Option<&str>) -> (r: String)
        ensures
            r@ == home_path(opt_str(home), ".openhuman/mcp.json"@),
    {
        home_path_exec(home, ".openhuman/mcp.json")
    }

    pub fn detect_path(&self, home: Option<&str>) -> (r: Option<String>)
        ensures
            match r {
                Some(p) => home is Some && p@ == join_path(home->0@, ".openhuman"@),
                None => home is None,
            },
    {
        detect_dir(home, ".openhuman")
    }

    pub fn connect(&self, opts: &ConnectOptions, home: Option<&str>) -> (r: ConnectPlan)
        ensures
            writes_config(r, home_path(opt_str(home), ".openhuman/mcp.json"@), "mcpServers"@, opts.dry_run),
    {
        write_plan(self.config_path(home), "mcpServers", opts.dry_run)
    }
}

/// Qwen Code: `~/.qwen/settings.json`.
pub struct QwenAdapter;

impl QwenAdapter {
    pub fn name(&self) -> (r: &'static str)
        ensures
            r@ == "qwen"@,
    {
        "qwen"
    }

    pub fn config_path(&self, home: Option<&str>) -> (r: String)
        ensures
            r@ == home_path(opt_str(home), ".qwen/settings.json"@),
    {
        home_path_exec(home, ".qwen/settings.json")
    }

    pub fn detect_path(&self, home: Option<&str>) -> (r: Option<String>)
        ensures
            match r {
                Some(p) => home is Some && p@ == join_path(home->0@, ".qwen"@),
                None => home is None,
            },
    {
        detect_dir(home, ".qwen")
    }

    pub fn connect(&self, opts: &ConnectOptions, home: Option<&str>) -> (r: ConnectPlan)
        ensures
            writes_config(r, home_path(opt_str(home), ".qwen/settings.json"@), "mcpServers"@, opts.dry_run),
    {
        write_plan(self.config_path(home), "mcpServers", opts.dry_run)
    }
}

/// Warp: `~/.warp/.mcp.json`.
pub struct WarpAdapter;

impl WarpAdapter {
    pub fn name(&self) -> (r: &'static str)
        ensures
            r@ == "warp"@,
    {
        "warp"
    }

    pub fn config_path(&self, home: Option<&str>) -> (r: String)
        ensures
            r@ == home_path(opt_str(home), ".warp/.mcp.json"@),
    {
        home_path_exec(home, ".warp/.mcp.json")
    }

    pub fn detect_path(&self, home: Option<&str>) -> (r: Option<String>)
        ensures
            match r {
                Some(p) => home is Some && p@ == join_path(home->0@, ".warp"@),
                None => home is None,
            },
    {
        detect_dir(home, ".warp")
    }

    pub fn connect(&self, opts: &ConnectOptions, home: Option<&str>) -> (r: ConnectPlan)
        ensures
            writes_config(r, home_path(opt_str(home), ".warp/.mcp.json"@), "mcpServers"@, opts.dry_run),
    {
        write_plan(self.config_path(home), "mcpServers", opts.dry_run)
    }
}

// ---------------------------------------------------------------------------
// Adapters with their own rules
// ---------------------------------------------------------------------------

/// Zed: servers live under `context_servers` in
/// `~/.config/zed/settings.json` (the XDG path, on macOS too).
pub struct ZedAdapter;

impl ZedAdapter {
    pub fn name(&self) -> (r: &'static str)
        ensures
            r@ == "zed"@,
    {
        "zed"
    }

    pub fn config_path(&self, home: Option<&str>) -> (r: String)
        ensures
            r@ == home_path(opt_str(home), ".config/zed/settings.json"@),
    {
        home_path_exec(home, ".config/zed/settings.json")
    }

    pub fn detect_path(&self, home: Option<&str>) -> (r: Option<String>)
        ensures
            match r {
                Some(p) => home is Some && p@ == join_path(home->0@, ".config/zed"@),
                None => home is None,
            },
    {
        detect_dir(home, ".config/zed")
    }

    pub fn connect(&self, opts: &ConnectOptions, home: Option<&str>) -> (r: ConnectPlan)
        ensures
            writes_config(r, home_path(opt_str(home), ".config/zed/settings.json"@), "context_servers"@, opts.dry_run),
    {
        write_plan(self.config_path(home), "context_servers", opts.dry_run)
    }
}

/// Where Antigravity keeps its config under the home directory: the
/// application-support tree on macOS, `.config` elsewhere.
pub open spec fn antigravity_rel(macos: bool) -> Seq<char> {
    if macos {
        "Library/Application Support/Antigravity/User/mcp_config.json"@
    } else {
        ".config/Antigravity/User/mcp_config.json"@
    }
}

pub open spec fn antigravity_dir(macos: bool) -> Seq<char> {
    if macos {
        "Library/Application Support/Antigravity/User"@
    } else {
        ".config/Antigravity/User"@
    }
}

/// Antigravity: `mcp_config.json` under its user directory.  A dry run
/// reports that no config is required.
pub struct AntigravityAdapter;

impl AntigravityAdapter {
    pub fn name(&self) -> (r: &'static str)
        ensures
            r@ == "antigravity"@,
    {
        "antigravity"
    }

    pub fn config_path(&self, home: Option<&str>, macos: bool) -> (r: String)
        ensures
            r@ == home_path(opt_str(home), antigravity_rel(macos)),
    {
        if macos {
            home_path_exec(home, "Library/Application Support/Antigravity/User/mcp_config.json")
        } else {
            home_path_exec(home, ".config/Antigravity/User/mcp_config.json")
        }
    }

    pub fn detect_path(&self, home: Option<&str>, macos: bool) -> (r: Option<String>)
        ensures
            match r {
                Some(p) => home is Some && p@ == join_path(home->0@, antigravity_dir(macos)),
                None => home is None,
            },
    {
        if macos {
            detect_dir(home, "Library/Application Support/Antigravity/User")
        } else {
            detect_dir(home, ".config/Antigravity/User")
        }
    }

    pub fn connect(&self, opts: &ConnectOptions, home: Option<&str>, macos: bool) -> (r: ConnectPlan)
        ensures
            opts.dry_run ==> match r {
                ConnectPlan::Report(res) => res.adapter@ == "antigravity"@ && res.config_path@ == home_path(
                    opt_str(home),
                    antigravity_rel(macos),
                ) && !res.wrote && res.note is Some && res.note->0@ == "no config required"@,
                _ => false,
            },
            !opts.dry_run ==> writes_config(r, home_path(opt_str(home), antigravity_rel(macos)), "mcpServers"@, false),
    {
        if opts.dry_run {
            ConnectPlan::Report(
                ConnectResult {
                    adapter: owned(self.name()),
                    config_path: self.config_path(home, macos),
                    wrote: false,
                    note: Some(owned("no config required")),
                },
            )
        } else {
            write_plan(self.config_path(home, macos), "mcpServers", false)
        }
    }
}

/// Continue.dev: prefers `~/.continue/config.yaml`, which needs a manual
/// edit; an existing `config.json` is modified; otherwise `config.json` is
/// created.
pub struct ContinueDevAdapter;

impl ContinueDevAdapter {
    pub fn name(&self) -> (r: &'static str)
        ensures
            r@ == "continue"@,
    {
        "continue"
    }

    pub fn config_path(&self, home: Option<&str>) -> (r: String)
        ensures
            r@ == home_path(opt_str(home), ".continue/config.json"@),
    {
        home_path_exec(home, ".continue/config.json")
    }

    pub fn detect_path(&self, home: Option<&str>) -> (r: Option<String>)
        ensures
            match r {
                Some(p) => home is Some && p@ == join_path(home->0@, ".continue"@),
                None => home is None,
            },
    {
        detect_dir(home, ".continue")
    }

    /// `home` is the home directory (empty when unknown); `yaml_exists` and
    /// `json_exists` tell whether `config.yaml` and `config.json` exist.
    pub fn connect(&self, opts: &ConnectOptions, home: &str, yaml_exists: bool, json_exists: bool) -> (r: ConnectPlan)
        ensures
            yaml_exists ==> match r {
                ConnectPlan::Report(res) => res.adapter@ == "continue"@ && res.config_path@ == join_path(
                    join_path(home@, ".continue"@),
                    "config.yaml"@,
                ) && !res.wrote && res.note is Some && res.note->0@
                    == "config.yaml exists — manual edit required (YAML)"@,
                _ => false,
            },
            !yaml_exists && json_exists ==> writes_config(
                r,
                join_path(join_path(home@, ".continue"@), "config.json"@),
                "mcpServers"@,
                opts.dry_run,
            ),
            !yaml_exists && !json_exists && opts.dry_run ==> match r {
                ConnectPlan::Report(res) => res.adapter@ == "continue"@ && res.config_path@ == join_path(
                    join_path(home@, ".continue"@),
                    "config.json"@,
                ) && !res.wrote && res.note is Some && res.note->0@ == "dry-run: would create config.json"@,
                _ => false,
            },
            !yaml_exists && !json_exists && !opts.dry_run ==> match r {
                ConnectPlan::CreateAndWrite { path, key } => path@ == join_path(
                    join_path(home@, ".continue"@),
                    "config.json"@,
                ) && key@ == "mcpServers"@,
                _ => false,
            },
    {
        let dir = join_home(home, ".continue");
        let yaml_path = join_home(dir.as_str(), "config.yaml");
        let json_path = join_home(dir.as_str(), "config.json");
        if yaml_exists {
            return ConnectPlan::Report(
                ConnectResult {
                    adapter: owned(self.name()),
                    config_path: yaml_path,
                    wrote: false,
                    note: Some(owned("config.yaml exists — manual edit required (YAML)")),
                },
            );
        }
        if json_exists {
            return write_plan(json_path, "mcpServers", opts.dry_run);
        }
        if opts.dry_run {
            return ConnectPlan::Report(
                ConnectResult {
                    adapter: owned(self.name()),
                    config_path: json_path,
                    wrote: false,
                    note: Some(owned("dry-run: would create config.json")),
                },
            );
        }
        ConnectPlan::CreateAndWrite { path: json_path, key: owned("mcpServers") }
    }
}

} // verus!
