use mempalace_core::claude_code::{format_tool_result, format_tool_use, strip_noise, try_claude_code_jsonl};
use mempalace_core::exports::{
    try_chatgpt_json, try_claude_ai_json, try_continue_dev_json, try_gemini_ai_studio_json, try_slack_json,
};
use mempalace_core::json::{to_json_text, Json};
use mempalace_core::normalize::{
    detect_format, messages_to_transcript, parse_transcript_to_messages, split_jsonl_lines, try_opencode_sqlite,
};
use mempalace_core::observations::{deterministic_obs_id, normalize_to_observations, HookType, RawObservation};
use mempalace_core::pipeline::{extract_message_from_entry, normalize, try_aider_md, NormalizeError};

fn to_json(v: &serde_json::Value) -> Json {
    match v {
        serde_json::Value::Null => Json::Null,
        serde_json::Value::Bool(b) => Json::Bool(*b),
        serde_json::Value::Number(n) => Json::Number(n.to_string()),
        serde_json::Value::String(s) => Json::Str(s.clone()),
        serde_json::Value::Array(a) => Json::Array(a.iter().map(to_json).collect()),
        serde_json::Value::Object(m) => Json::Object(m.iter().map(|(k, x)| (k.clone(), to_json(x))).collect()),
    }
}

fn decode(s: &str) -> Option<Json> {
    serde_json::from_str::<serde_json::Value>(s).ok().map(|v| to_json(&v))
}

fn jsonl(content: &str) -> Vec<Option<Json>> {
    split_jsonl_lines(content).iter().map(|l| decode(l)).collect()
}

fn ext_of(path: &str) -> &str {
    std::path::Path::new(path).extension().and_then(|e| e.to_str()).unwrap_or("")
}

fn run_normalize(path: &str, content: &str) -> Result<String, NormalizeError> {
    normalize(content, ext_of(path), None, None)
}

fn run_detect(content: &str) -> Option<String> {
    Some(detect_format(content))
}

fn run_observations(path: &str, content: &str, session: &str) -> Result<Vec<RawObservation>, NormalizeError> {
    normalize_to_observations(content, ext_of(path), None, session, 1_700_000_000)
}

fn pairs(v: &[(&str, &str)]) -> Vec<(String, String)> {
    v.iter().map(|(a, b)| (a.to_string(), b.to_string())).collect()
}

#[test]
fn test_plain_text_pass_through() {
    let content = "This is plain text\nwithout any markers";
    let result = run_normalize("test.txt", content).unwrap();
    assert_eq!(result, content);
}

#[test]
fn test_transcript_pass_through() {
    let content = "> user message\nassistant response\n> another user";
    let result = run_normalize("test.txt", content).unwrap();
    assert_eq!(result, content);
}

#[test]
fn test_claude_code_jsonl() {
    let content = r#"{"type":"human","message":{"content":"Hello"}}
{"type":"assistant","message":{"content":"Hi there"}}"#;
    let result = run_normalize("test.jsonl", content).unwrap();
    assert!(result.contains("> Hello"));
    assert!(result.contains("Hi there"));
}

#[test]
fn test_empty_content() {
    let result = run_normalize("test.txt", "").unwrap();
    assert_eq!(result, "");
}

#[test]
fn test_codex_jsonl() {
    let content = r#"{"type":"session_meta","sessionId":"abc123","model":"gpt-4"}
{"type":"event_msg/user_message","text":"Hello Codex"}
{"type":"event_msg/agent_message","text":"Hello from Codex agent"}"#;
    let result = run_normalize("test.jsonl", content).unwrap();
    assert!(result.contains("> Hello Codex"));
    assert!(result.contains("Hello from Codex agent"));
}

#[test]
fn test_gemini_cli_jsonl() {
    let content = r#"{"role":"user","content":"Hi Gemini"}
{"role":"model","content":"Hi! How can I help today?"}"#;
    let result = run_normalize("session.jsonl", content).unwrap();
    assert!(result.contains("> Hi Gemini"));
    assert!(result.contains("Hi! How can I help today?"));
    assert!(!result.contains("> Hi! How can I help today?"));
}

#[test]
fn test_gemini_cli_jsonl_handles_parts_array() {
    let content = r#"{"role":"user","parts":[{"text":"line one"},{"text":"line two"}]}
{"type":"model","parts":[{"text":"ack"}]}"#;
    let result = run_normalize("session.jsonl", content).unwrap();
    assert!(result.contains("line one"));
    assert!(result.contains("line two"));
    assert!(result.contains("ack"));
}

#[test]
fn test_messages_to_transcript_routes_user_lines_through_spellcheck_path() {
    let transcript = messages_to_transcript(&pairs(&[
        ("user", "hello world test message"),
        ("assistant", "Assistant text should stay untouched."),
    ]));
    assert!(transcript.starts_with("> hello world test message"));
    assert!(transcript.contains("Assistant text should stay untouched."));
}

#[test]
fn test_messages_to_transcript_preserves_assistant_lines() {
    let transcript = messages_to_transcript(&pairs(&[("assistant", "MemPalace ChromaDB NDCG@10"), ("user", "hello world")]));
    assert!(transcript.contains("MemPalace ChromaDB NDCG@10"));
}

#[test]
fn test_codex_jsonl_skips_response_items() {
    let content = r#"{"type":"session_meta","sessionId":"abc123","model":"gpt-4"}
{"type":"event_msg/user_message","text":"Hello"}
{"type":"response_item","text":"Should be skipped"}
{"type":"event_msg/agent_message","text":"Real response"}"#;
    let result = run_normalize("test.jsonl", content).unwrap();
    assert!(result.contains("> Hello"));
    assert!(result.contains("Real response"));
    assert!(!result.contains("Should be skipped"));
}

#[test]
fn test_codex_jsonl_rejects_non_codex() {
    let content = r#"{"type":"event","data":"something"}"#;
    let result = run_detect(content);
    assert_ne!(result, Some("codex_jsonl".to_string()));
}

#[test]
fn test_detect_format_codex() {
    let content = r#"{"type":"session_meta","sessionId":"abc123"}
{"type":"event_msg/user_message","text":"Hello"}"#;
    let result = run_detect(content);
    assert_eq!(result, Some("codex_jsonl".to_string()));
}

#[test]
fn test_soulforge_jsonl() {
    let content = r#"{"role":"user","message":{"text":"Hello SoulForge"}}
{"role":"assistant","message":{"text":"Hello from SoulForge"}}"#;
    let result = run_normalize("test.jsonl", content);
    assert!(result.is_ok());
}

#[test]
fn test_soulforge_with_segments() {
    let content = r#"{"role":"user","message":{"segments":[{"text":"Hello"}]}}
{"role":"assistant","message":{"segments":[{"text":"Response"}]}}"#;
    let result = run_normalize("test.jsonl", content);
    assert!(result.is_ok());
}

#[test]
fn test_soulforge_with_tool_calls() {
    let content = r#"{"role":"user","message":{"text":"Run a command"}}
{"role":"assistant","message":{"text":"Running...","toolCalls":[{"name":"bash","input":"ls"}]}}"#;
    let result = run_normalize("test.jsonl", content);
    assert!(result.is_ok());
    let r = result.unwrap();
    assert!(r.contains("[tools:"));
}

#[test]
fn test_detect_format_soulforge() {
    let content = r#"{"role":"user","message":{"text":"Hello"}}
{"role":"assistant","message":{"segments":[{"text":"Hi"}]}}"#;
    let result = run_detect(content);
    assert_eq!(result, Some("soulforge_jsonl".to_string()));
}

#[test]
fn test_detect_format() {
    assert_eq!(run_detect(r#"{"messages": []}"#).unwrap(), "claude_ai_json");
    assert_eq!(run_detect(r#"{"mapping": {}}"#).unwrap(), "chatgpt_json");
    assert_eq!(run_detect("[{\"type\": \"message\"}]").unwrap(), "slack_json");
    assert!(run_detect("plain text").is_some());
}

#[test]
fn test_gemini_ai_studio_json_array_of_conversations() {
    let content = r#"[
            {
                "messages": [
                    {"role": "user", "content": "What is Rust?"},
                    {"role": "model", "content": "Rust is a systems programming language."}
                ]
            }
        ]"#;
    let result = run_normalize("export.json", content).unwrap();
    assert!(result.contains("> What is Rust?"));
    assert!(result.contains("Rust is a systems programming language."));
}

#[test]
fn test_gemini_ai_studio_json_with_parts() {
    let content = r#"{"contents": [
            {"role": "user", "parts": [{"text": "Hello from AI Studio"}]},
            {"role": "model", "parts": [{"text": "Hi there!"}]}
        ]}"#;
    let result = run_normalize("export.json", content).unwrap();
    assert!(result.contains("> Hello from AI Studio"));
    assert!(result.contains("Hi there!"));
}

#[test]
fn test_gemini_ai_studio_detect_format() {
    let content = r#"[{"messages": [{"role": "user", "content": "hi"}]}]"#;
    let result = run_detect(content);
    assert_eq!(result, Some("gemini_ai_studio_json".to_string()));
}

#[test]
fn test_pi_jsonl_basic() {
    let content = "{\"type\":\"user\",\"text\":\"Hello Pi\"}\n{\"type\":\"pi\",\"text\":\"Hi! How can I help?\"}";
    let result = run_normalize("chat.jsonl", content).unwrap();
    assert!(result.contains("> Hello Pi"));
    assert!(result.contains("Hi! How can I help?"));
}

#[test]
fn test_pi_jsonl_with_kind_field() {
    let content = "{\"kind\":\"user\",\"message\":\"What's up?\"}\n{\"kind\":\"pi\",\"message\":\"Not much, you?\"}";
    let result = run_normalize("chat.jsonl", content).unwrap();
    assert!(result.contains("> What's up?"));
    assert!(result.contains("Not much, you?"));
}

#[test]
fn test_pi_jsonl_detect_format() {
    let content = "{\"type\":\"user\",\"text\":\"hi\"}\n{\"type\":\"pi\",\"text\":\"hello\"}";
    let result = run_detect(content);
    assert_eq!(result, Some("pi_jsonl".to_string()));
}

#[test]
fn test_continue_dev_json_history() {
    let content = r#"{
            "history": [
                {"role": "user", "content": "How do I deploy this"},
                {"role": "assistant", "content": "Run cargo build and then upload the binary."}
            ]
        }"#;
    let result = run_normalize("chat.json", content).unwrap();
    assert!(result.contains("> How do I deploy this"));
    assert!(result.contains("cargo build"));
}

#[test]
fn test_continue_dev_json_messages() {
    let content = r#"{
            "messages": [
                {"role": "user", "parts": [{"text": "Debug this code"}]},
                {"role": "assistant", "parts": [{"text": "I see the issue."}]}
            ]
        }"#;
    let result = run_normalize("chat.json", content).unwrap();
    assert!(result.contains("> Debug this code"));
    assert!(result.contains("I see the issue."));
}

#[test]
fn test_continue_dev_json_detect_format() {
    let content = r#"{"history": [
            {"role": "user", "content": "test"},
            {"role": "assistant", "content": "response"}
        ]}"#;
    let result = run_detect(content);
    assert_eq!(result, Some("continue_dev_json".to_string()));
}

#[test]
fn test_claude_code_jsonl_harden_skips_malformed_lines() {
    let content = r#"not json at all
{"type":"human","message":{"content":"Hello"}}
{"broken json
{"type":"assistant","message":{"content":"Hi there"}}"#;
    let result = run_normalize("test.jsonl", content).unwrap();
    assert!(result.contains("> Hello"));
    assert!(result.contains("Hi there"));
}

#[test]
fn test_claude_code_jsonl_harden_ignores_thinking_blocks() {
    let content = r#"{"type":"human","message":{"content":"Hello"}}
{"type":"assistant","message":{"content":[{"type":"thinking","thinking":"internal reasoning"},{"type":"text","text":"Hi there!"}]}}"#;
    let result = run_normalize("test.jsonl", content).unwrap();
    assert!(result.contains("> Hello"));
    assert!(result.contains("Hi there!"));
    assert!(!result.contains("internal reasoning"));
}

#[test]
fn test_deterministic_obs_id_is_stable() {
    let id1 = deterministic_obs_id("test_format", 0, "hello world");
    let id2 = deterministic_obs_id("test_format", 0, "hello world");
    assert_eq!(id1, id2);
    assert!(id1.starts_with("obs-"));
    assert_eq!(id1.len(), 20);
}

#[test]
fn test_deterministic_obs_id_varies_by_content() {
    let id1 = deterministic_obs_id("test", 0, "hello");
    let id2 = deterministic_obs_id("test", 0, "world");
    assert_ne!(id1, id2);
}

#[test]
fn test_deterministic_obs_id_varies_by_index() {
    let id1 = deterministic_obs_id("test", 0, "hello");
    let id2 = deterministic_obs_id("test", 1, "hello");
    assert_ne!(id1, id2);
}

#[test]
fn test_normalize_to_observations_claude_code() {
    let content = r#"{"type":"human","message":{"content":"Hello"}}
{"type":"assistant","message":{"content":"Hi there"}}"#;
    let obs = run_observations("test.jsonl", content, "test-session").unwrap();
    assert_eq!(obs.len(), 2);
    assert_eq!(obs[0].user_prompt.as_deref(), Some("Hello"));
    assert_eq!(obs[1].assistant_response.as_deref(), Some("Hi there"));
    assert!(obs[0].id.starts_with("obs-"));
    assert!(obs[1].id.starts_with("obs-"));
    assert_ne!(obs[0].id, obs[1].id);
    assert_eq!(obs[0].session_id, "test-session");
}

#[test]
fn test_normalize_to_observations_pi_jsonl() {
    let content = "{\"type\":\"user\",\"text\":\"Hello Pi\"}\n{\"type\":\"pi\",\"text\":\"Hi there!\"}";
    let obs = run_observations("chat.jsonl", content, "pi-session").unwrap();
    assert_eq!(obs.len(), 2);
    assert_eq!(obs[0].user_prompt.as_deref(), Some("Hello Pi"));
    assert_eq!(obs[1].assistant_response.as_deref(), Some("Hi there!"));
}

#[test]
fn test_normalize_to_observations_empty() {
    let obs = run_observations("empty.txt", "", "session").unwrap();
    assert!(obs.is_empty());
}

#[test]
fn test_normalize_to_observations_gemini_ai_studio() {
    let content = r#"{"contents": [
            {"role": "user", "parts": [{"text": "Hi"}]},
            {"role": "model", "parts": [{"text": "Hello!"}]}
        ]}"#;
    let obs = run_observations("export.json", content, "ai-studio-session").unwrap();
    assert_eq!(obs.len(), 2);
    assert_eq!(obs[0].user_prompt.as_deref(), Some("Hi"));
    assert_eq!(obs[1].assistant_response.as_deref(), Some("Hello!"));
}

#[test]
fn test_parse_transcript_to_messages() {
    let transcript = "> Hello world\nHi there!\n\n> Another question\nAnother answer\n";
    let messages = parse_transcript_to_messages(transcript).unwrap();
    assert_eq!(messages.len(), 4);
    assert_eq!(messages[0], ("user".to_string(), "Hello world".to_string()));
    assert_eq!(messages[1], ("assistant".to_string(), "Hi there!".to_string()));
    assert_eq!(messages[2], ("user".to_string(), "Another question".to_string()));
    assert_eq!(messages[3], ("assistant".to_string(), "Another answer".to_string()));
}

// ---------------------------------------------------------------------------
// Further cases
// ---------------------------------------------------------------------------

#[test]
fn normalize_rejects_a_file_over_the_cap() {
    let content = "{\"type\":\"user\",\"text\":\"hi\"}";
    let r = normalize(content, "jsonl", Some(600 * 1024 * 1024), None);
    match r {
        Err(NormalizeError::TooLarge { size, cap }) => {
            assert_eq!(size, 600 * 1024 * 1024);
            assert_eq!(cap, 500 * 1024 * 1024);
        },
        Ok(_) => panic!("expected an error"),
    }
}

#[test]
fn normalize_reads_a_database_transcript() {
    let content = "SQLite format 3";
    let r = normalize(content, "DB", None, Some("> a\nb\n".to_string())).unwrap();
    assert_eq!(r, "> a\nb\n");
}

#[test]
fn claude_ai_export_becomes_a_transcript() {
    let d = decode(r#"{"chat_messages":[{"role":"human","content":"Q?"},{"role":"assistant","content":[{"type":"text","text":" A. "}]}]}"#)
        .unwrap();
    assert_eq!(try_claude_ai_json(&d), Some("> Q?\nA.\n".to_string()));
}

#[test]
fn claude_ai_export_without_content_is_rejected() {
    let d = decode(r#"[{"role":"user","content":"Q?"},{"role":"assistant"}]"#).unwrap();
    assert_eq!(try_claude_ai_json(&d), None);
}

#[test]
fn chatgpt_export_walks_first_children() {
    let d = decode(
        r#"{"mapping":{
        "a":{"parent":null,"children":["b"]},
        "b":{"parent":"a","message":{"author":{"role":"user"},"content":["Hello"," there"]},"children":["c"]},
        "c":{"parent":"b","message":{"author":{"role":"assistant"},"content":["Hi"]},"children":[]}
    }}"#,
    )
    .unwrap();
    // The walk stops at the leaf, whose children list is empty.
    assert_eq!(try_chatgpt_json(&d), None);
    let d2 = decode(
        r#"{"mapping":{
        "a":{"parent":null,"children":["b"]},
        "b":{"parent":"a","message":{"author":{"role":"user"},"content":["Hello"]},"children":["c"]},
        "c":{"parent":"b","message":{"author":{"role":"assistant"},"content":["Hi"]},"children":[""]}
    }}"#,
    )
    .unwrap();
    assert_eq!(try_chatgpt_json(&d2), Some("> Hello\nHi\n".to_string()));
}

#[test]
fn chatgpt_export_stops_at_a_cycle() {
    let d = decode(
        r#"{"mapping":{
        "a":{"parent":null,"children":["b"]},
        "b":{"parent":"a","message":{"author":{"role":"user"},"content":["Q"]},"children":["c"]},
        "c":{"parent":"b","message":{"author":{"role":"assistant"},"content":["R"]},"children":["b"]}
    }}"#,
    )
    .unwrap();
    assert_eq!(try_chatgpt_json(&d), Some("> Q\nR\n".to_string()));
}

#[test]
fn slack_export_assigns_roles_by_order() {
    let d = decode(
        r#"[{"type":"message","user":"U1","text":"hi"},
            {"type":"message","user":"U2","text":"hello"},
            {"type":"message","user":"U1","text":"bye"}]"#,
    )
    .unwrap();
    let t = try_slack_json(&d).unwrap();
    assert_eq!(
        t,
        "> hi\nhello\n\n> bye\n\n[source: slack-export | multi-party chat — speaker roles are positional, not verified]"
    );
}

#[test]
fn slack_message_without_text_rejects_the_export() {
    let d = decode(r#"[{"type":"message","user":"U1","text":"hi"},{"type":"message","user":"U2"}]"#).unwrap();
    assert_eq!(try_slack_json(&d), None);
}

#[test]
fn continue_dev_needs_a_marker() {
    let d = decode(r#"{"history":[{"role":"bot","content":"x"},{"role":"human","content":"y"}]}"#).unwrap();
    assert_eq!(try_continue_dev_json(&d), None);
}

#[test]
fn gemini_studio_takes_the_first_conversation_with_two_messages() {
    let d = decode(
        r#"[{"turns":[{"role":"user","content":"only one"}]},
            {"contents":[{"role":"user","content":"a"},{"role":"system","content":"s"},{"role":"ai","content":"b"}]}]"#,
    )
    .unwrap();
    assert_eq!(try_gemini_ai_studio_json(&d), Some("> a\nb\n".to_string()));
}

#[test]
fn aider_history_is_read_turn_by_turn() {
    let content = "# Aider Chat History\n> fix the bug\nDone.\nAlso tests.\n```\n> thanks\n";
    assert_eq!(try_aider_md(content), Some("> fix the bug\nDone.\nAlso tests.\n\n> thanks\n".to_string()));
    assert_eq!(try_aider_md("no markers here\n> one quote\n"), None);
}

#[test]
fn claude_code_folds_tool_results_into_the_assistant_turn() {
    let content = r#"{"type":"user","message":{"content":"List files"}}
{"type":"assistant","message":{"content":[{"type":"text","text":"Listing."},{"type":"tool_use","id":"t1","name":"Bash","input":{"command":"ls"}}]}}
{"type":"user","message":{"content":[{"type":"tool_result","tool_use_id":"t1","content":"a.txt"}]}}"#;
    let t = try_claude_code_jsonl(&jsonl(content)).unwrap();
    assert_eq!(t, "> List files\nListing. [Bash] ls\n→ a.txt\n");
}

#[test]
fn claude_code_strips_hook_noise() {
    assert_eq!(strip_noise("Ran 2 Stop hooks\nreal text\n\n\n\nmore\n  system-reminder  "), "real text\n\nmore");
}

#[test]
fn tool_use_lines_per_tool() {
    let read = decode(r#"{"name":"Read","input":{"file_path":"/a.rs","offset":10,"limit":5}}"#).unwrap();
    assert_eq!(format_tool_use(&read), "[Read /a.rs:10-15]");
    let grep = decode(r#"{"name":"Grep","arguments":{"pattern":"fn","target":"src"}}"#).unwrap();
    assert_eq!(format_tool_use(&grep), "[Grep] fn in src");
    let other = decode(r#"{"name":"Fetch","input":{"url":"x\"y","n":1}}"#).unwrap();
    assert_eq!(format_tool_use(&other), "[Fetch] {\"n\":1,\"url\":\"x\\\"y\"}");
    assert_eq!(format_tool_use(&Json::Null), "");
}

#[test]
fn tool_results_are_cut_per_tool() {
    let long: Vec<String> = (1..=45).map(|i| format!("l{}", i)).collect();
    let r = Json::Object(vec![("content".to_string(), Json::Str(long.join("\n")))]);
    let bash = format_tool_result(&r, Some("Bash"));
    assert!(bash.starts_with("→ l1\n"));
    assert!(bash.contains("\n… [5 lines truncated] …\nl26\n"));
    assert!(bash.ends_with("l45"));
    let grep = format_tool_result(&r, Some("Grep"));
    assert!(grep.ends_with("l20\n… [25 matches truncated] …"));
    assert_eq!(format_tool_result(&r, Some("Read")), "");
}

#[test]
fn entries_of_each_jsonl_format() {
    let e = decode(r#"{"type":"event_msg/user_message","text":" hi "}"#).unwrap();
    assert_eq!(extract_message_from_entry(&e, "codex_jsonl"), Some(("user".to_string(), " hi ".to_string())));
    let e = decode(r#"{"role":"agent","message":{"segments":[{"text":"seg"}]}}"#).unwrap();
    assert_eq!(extract_message_from_entry(&e, "soulforge_jsonl"), Some(("assistant".to_string(), "seg".to_string())));
    let e = decode(r#"{"kind":"pi","content":"  yo  "}"#).unwrap();
    assert_eq!(extract_message_from_entry(&e, "pi_jsonl"), Some(("assistant".to_string(), "yo".to_string())));
    assert_eq!(extract_message_from_entry(&e, "plain_text"), None);
}

#[test]
fn observations_carry_hook_and_raw_entry() {
    let content = "{\"type\":\"user\",\"text\":\"Hello Pi\"}\n{\"type\":\"pi\",\"text\":\"\"}\n{\"type\":\"pi\",\"text\":\"Back\"}";
    let obs = run_observations("chat.jsonl", content, "s").unwrap();
    assert_eq!(obs.len(), 2);
    assert_eq!(obs[0].hook_type, HookType::UserPromptSubmit);
    assert_eq!(obs[1].hook_type, HookType::PostToolUse);
    assert_eq!(obs[1].id, deterministic_obs_id("pi_jsonl", 2, "Back"));
    assert_eq!(obs[0].raw.as_deref(), Some("{\"text\":\"Hello Pi\",\"type\":\"user\"}"));
    assert_eq!(obs[0].tool_name.as_deref(), Some("pi_jsonl"));
    assert_eq!(obs[0].timestamp, 1_700_000_000);
}

#[test]
fn obs_id_matches_the_sha256_prefix() {
    // sha256("f\0" "0" "\0" "x") computed independently.
    let id = deterministic_obs_id("f", 0, "x");
    assert_eq!(id.len(), 20);
    assert!(id[4..].chars().all(|c| c.is_ascii_hexdigit() && !c.is_ascii_uppercase()));
}

#[test]
fn compact_json_text_escapes_strings() {
    let j = Json::Array(vec![Json::Str("a\"b\\c\n\u{1}".to_string()), Json::Bool(true), Json::Null]);
    assert_eq!(to_json_text(&j), "[\"a\\\"b\\\\c\\n\\u0001\",true,null]");
}

#[test]
fn test_try_opencode_sqlite_header() {
    assert_eq!(try_opencode_sqlite("SQLite format 3\u{0}rest of the file"), Some("opencode-sqlite".to_string()));
    assert_eq!(try_opencode_sqlite("SQLite format 3"), Some("opencode-sqlite".to_string()));
    assert_eq!(try_opencode_sqlite("SQLite format 2\u{0}"), None);
    assert_eq!(try_opencode_sqlite("{\"type\": \"user\"}"), None);
    assert_eq!(try_opencode_sqlite(""), None);
}

#[test]
fn test_transcript_round_trip_alternating_messages() {
    let msgs = pairs(&[
        ("user", "what is the plan?"),
        ("assistant", "ship the parser first"),
        ("user", "and the tests?"),
        ("assistant", "right after"),
        ("user", "ok"),
    ]);
    let transcript = messages_to_transcript(&msgs);
    assert_eq!(parse_transcript_to_messages(&transcript), Some(msgs));
}
