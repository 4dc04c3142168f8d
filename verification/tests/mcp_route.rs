use mempalace_core::http_guards::HttpMcpError;
use mempalace_core::json::{to_json_text, Json};
use mempalace_core::mcp_route::{
    initialize_body, route_mcp_request, tool_call_answer, tools_list_body, McpRequest, ToolContent, ToolInfo,
};

fn to_json(v: &serde_json::Value) -> Json {
    match v {
        serde_json::Value::Null => Json::Null,
        serde_json::Value::Bool(b) => Json::Bool(*b),
        serde_json::Value::Number(n) => Json::Number(n.to_string()),
        serde_json::Value::String(s) => Json::Str(s.clone()),
        serde_json::Value::Array(a) => Json::Array(a.iter().map(to_json).collect()),
        serde_json::Value::Object(m) => Json::Object(m.iter().map(|(k, x)| (k.clone(), to_json(x))).collect()),
    }
}

fn body(s: &str) -> Json {
    to_json(&serde_json::from_str::<serde_json::Value>(s).unwrap())
}

fn call(r: Result<McpRequest, HttpMcpError>) -> (String, String) {
    match r {
        Ok(McpRequest::CallTool { name, arguments }) => (name, to_json_text(&Json::Object(arguments))),
        _ => panic!("expected a tool call"),
    }
}

fn bad_request(r: Result<McpRequest, HttpMcpError>) -> String {
    match r {
        Err(HttpMcpError::BadRequest(m)) => m,
        _ => panic!("expected a bad request"),
    }
}

#[test]
fn json_rpc_methods_route() {
    assert!(matches!(route_mcp_request(body(r#"{"method":"tools/list"}"#)), Ok(McpRequest::ListTools)));
    assert!(matches!(route_mcp_request(body(r#"{"method":"initialize","params":{}}"#)), Ok(McpRequest::Initialize)));
    assert_eq!(
        call(route_mcp_request(body(r#"{"method":"tools/call","params":{"name":"mempalace_search","arguments":{"query":"x"}}}"#))),
        ("mempalace_search".to_string(), r#"{"query":"x"}"#.to_string())
    );
    assert_eq!(
        call(route_mcp_request(body(r#"{"method":"mempalace_status","params":{}}"#))),
        ("mempalace_status".to_string(), "{}".to_string())
    );
}

#[test]
fn arguments_that_are_not_objects_are_dropped() {
    assert_eq!(
        call(route_mcp_request(body(r#"{"method":"tools/call","params":{"name":"t","arguments":[1,2]}}"#))),
        ("t".to_string(), "{}".to_string())
    );
    assert_eq!(call(route_mcp_request(body(r#"{"method":"t","params":"x"}"#))), ("t".to_string(), "{}".to_string()));
}

#[test]
fn legacy_tool_bodies_route() {
    assert_eq!(
        call(route_mcp_request(body(r#"{"tool":"mempalace_add","args":{"text":"hi"}}"#))),
        ("mempalace_add".to_string(), r#"{"text":"hi"}"#.to_string())
    );
    assert_eq!(call(route_mcp_request(body(r#"{"tool":"t"}"#))), ("t".to_string(), "{}".to_string()));
}

#[test]
fn bodies_that_ask_for_nothing_are_bad_requests() {
    let missing = "Request must contain 'method' (JSON-RPC) or 'tool' (legacy) field";
    assert_eq!(bad_request(route_mcp_request(body(r#"{}"#))), missing);
    assert_eq!(bad_request(route_mcp_request(body(r#"{"tool":""}"#))), missing);
    assert_eq!(bad_request(route_mcp_request(body(r#"{"method":7,"tool":7}"#))), missing);
    assert_eq!(bad_request(route_mcp_request(body(r#"[1]"#))), missing);
    let no_name = "tools/call requires 'name' field";
    assert_eq!(bad_request(route_mcp_request(body(r#"{"method":"tools/call"}"#))), no_name);
    assert_eq!(bad_request(route_mcp_request(body(r#"{"method":"tools/call","params":{"name":3}}"#))), no_name);
}

#[test]
fn a_method_wins_over_a_legacy_tool() {
    assert!(matches!(route_mcp_request(body(r#"{"method":"tools/list","tool":"x"}"#)), Ok(McpRequest::ListTools)));
}

fn tool(name: &str, description: Option<&str>, mutation: bool) -> ToolInfo {
    ToolInfo {
        name: name.to_string(),
        description: description.map(|d| d.to_string()),
        input_schema: body(r#"{"type":"object"}"#),
        mutation,
    }
}

#[test]
fn tool_catalog_hides_mutations_in_read_only_mode() {
    let tools = vec![tool("search", Some("Find \"things\""), false), tool("add", None, true)];
    assert_eq!(
        tools_list_body(&tools, false),
        r#"{"jsonrpc":"2.0","result":{"tools":[{"description":"Find \"things\"","inputSchema":{"type":"object"},"name":"search"},{"description":null,"inputSchema":{"type":"object"},"name":"add"}]}}"#
    );
    assert_eq!(
        tools_list_body(&tools, true),
        r#"{"jsonrpc":"2.0","result":{"tools":[{"description":"Find \"things\"","inputSchema":{"type":"object"},"name":"search"}]}}"#
    );
    assert_eq!(tools_list_body(&[], true), r#"{"jsonrpc":"2.0","result":{"tools":[]}}"#);
}

#[test]
fn handshake_names_the_server() {
    assert_eq!(
        initialize_body("0.1.0"),
        r#"{"jsonrpc":"2.0","result":{"capabilities":{"tools":{}},"protocolVersion":"2025-03-26","serverInfo":{"name":"mempalace-mcp-http","version":"0.1.0"}}}"#
    );
}

fn answer(r: Result<String, HttpMcpError>) -> String {
    match r {
        Ok(t) => t,
        Err(_) => panic!("expected an answer"),
    }
}

#[test]
fn tool_results_are_answered_as_text_content() {
    assert_eq!(answer(tool_call_answer(Ok(None))), r#"{"jsonrpc":"2.0","result":{"content":[]}}"#);
    let json = ToolContent::Text { text: "{ \"a\": 1 }".to_string() };
    assert_eq!(
        answer(tool_call_answer(Ok(Some(json)))),
        r#"{"jsonrpc":"2.0","result":{"content":[{"text":"{\"a\":1}","type":"text"}]}}"#
    );
    let plain = ToolContent::Text { text: "done".to_string() };
    assert_eq!(
        answer(tool_call_answer(Ok(Some(plain)))),
        r#"{"jsonrpc":"2.0","result":{"content":[{"text":"{\"text\":\"done\"}","type":"text"}]}}"#
    );
    assert_eq!(
        answer(tool_call_answer(Ok(Some(ToolContent::Other)))),
        r#"{"jsonrpc":"2.0","result":{"content":[{"text":"{}","type":"text"}]}}"#
    );
}

#[test]
fn failed_calls_are_refused() {
    match tool_call_answer(Err("palace is read-only".to_string())) {
        Err(HttpMcpError::BadRequest(m)) => assert_eq!(m, "Mutation blocked (read-only mode): palace is read-only"),
        _ => panic!("expected a bad request"),
    }
    match tool_call_answer(Err("ReadOnly".to_string())) {
        Err(HttpMcpError::BadRequest(m)) => assert_eq!(m, "Mutation blocked (read-only mode): ReadOnly"),
        _ => panic!("expected a bad request"),
    }
    match tool_call_answer(Err("disk full".to_string())) {
        Err(HttpMcpError::Internal(m)) => assert_eq!(m, "disk full"),
        _ => panic!("expected an internal error"),
    }
}
