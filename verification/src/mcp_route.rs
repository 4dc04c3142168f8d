//! What the HTTP transport answers on `POST /mcp`: how a JSON-RPC or legacy
//! request body is routed (tool catalog, handshake or tool call), and the
//! JSON-RPC documents it answers with.
//!
//! Answer documents are compact JSON with their members in key order.
use vstd::prelude::*;
use crate::http_guards::{message_of, HttpMcpError};
use crate::json::{as_str, get, json_as_str, json_get, json_text, member_lookup, push_escaped, quoted, write_json, Json};
use crate::text::{contains_sub, owned, push_char, push_str, str_contains, str_eq};

verus! {

broadcast use vstd::string::group_string_axioms;

/// What a request body asks for.
pub enum McpRequest {
    /// `tools/list`: the tool catalog.
    ListTools,
    /// `initialize`: the handshake.
    Initialize,
    /// A tool call with its arguments (the members of an object).
    CallTool { name: String, arguments: Vec<(String, Json)> },
}

/// A routed request, with its strings as character sequences.
pub enum RouteView {
    ListTools,
    Initialize,
    CallTool(Seq<char>, Seq<(String, Json)>),
}

pub open spec fn request_view(q: McpRequest) -> RouteView {
    match q {
        McpRequest::ListTools => RouteView::ListTools,
        McpRequest::Initialize => RouteView::Initialize,
        McpRequest::CallTool { name, arguments } => RouteView::CallTool(name@, arguments@),
    }
}

/// The members of a value that is an object; none otherwise.
pub open spec fn members_of(j: Option<Json>) -> Seq<(String, Json)> {
    match j {
        Some(Json::Object(ms)) => ms@,
        _ => Seq::empty(),
    }
}

pub open spec fn missing_name_message() -> Seq<char> {
    "tools/call requires 'name' field"@
}

pub open spec fn missing_method_message() -> Seq<char> {
    "Request must contain 'method' (JSON-RPC) or 'tool' (legacy) field"@
}

/// How a body is routed, or the message of the bad-request refusal.
///
/// A string `method` decides first: `tools/list`, `tools/call` (its
/// `params` must hold a string `name`; `arguments` are its object
/// members), `initialize`, or any other name, called as a tool with the
/// members of `params`.  Without one, a non-empty string `tool` is called
/// with the members of `args`.
pub open spec fn mcp_route(body: Json) -> Result<RouteView, Seq<char>> {
    match as_str(get(body, "method"@)) {
        Some(m) => if m == "tools/list"@ {
            Ok(RouteView::ListTools)
        } else if m == "tools/call"@ {
            match get(body, "params"@) {
                Some(p) => match as_str(get(p, "name"@)) {
                    Some(n) => Ok(RouteView::CallTool(n, members_of(get(p, "arguments"@)))),
                    None => Err(missing_name_message()),
                },
                None => Err(missing_name_message()),
            }
        } else if m == "initialize"@ {
            Ok(RouteView::Initialize)
        } else {
            Ok(RouteView::CallTool(m, members_of(get(body, "params"@))))
        },
        None => match as_str(get(body, "tool"@)) {
            Some(t) => if t.len() > 0 {
                Ok(RouteView::CallTool(t, members_of(get(body, "args"@))))
            } else {
                Err(missing_method_message())
            },
            None => Err(missing_method_message()),
        },
    }
}

/// The member `key` of a value, taken out of it.
fn take_member(j: Json, key: &str) -> (r: Option<Json>)
    ensures
        r == get(j, key@),
{
    match j {
        Json::Object(ms) => {
            let ghost orig = ms@;
            let mut ms = ms;
            match member_lookup(&ms, key) {
                Some(i) => {
                    let m = ms.remove(i);
                    proof {
                        assert(m == orig[i as int]);
                    }
                    Some(m.1)
                },
                None => None,
            }
        },
        _ => None,
    }
}

/// The members of a value that is an object, taken out of it.
fn take_members(j: Option<Json>) -> (r: Vec<(String, Json)>)
    ensures
        r@ == members_of(j),
{
    match j {
        Some(Json::Object(ms)) => ms,
        _ => Vec::new(),
    }
}

/// A copy of the string member `key` of a value.
fn member_string(j: &Json, key: &str) -> (r: Option<String>)
    ensures
        match r {
            Some(s) => as_str(get(*j, key@)) == Some(s@),
            None => as_str(get(*j, key@)) is None,
        },
{
    match json_as_str(json_get(j, key)) {
        Some(s) => Some(owned(s)),
        None => None,
    }
}

/// Route a `POST /mcp` body.  A body that asks for nothing, or a
/// `tools/call` without a name, is a bad request.
pub fn route_mcp_request(body: Json) -> (r: Result<McpRequest, HttpMcpError>)
    ensures
        match r {
            Ok(q) => mcp_route(body) == Ok::<RouteView, Seq<char>>(request_view(q)),
            Err(e) => e is BadRequest && mcp_route(body) == Err::<RouteView, Seq<char>>(message_of(e)),
        },
{
    match member_string(&body, "method") {
        Some(method) => {
            if str_eq(method.as_str(), "tools/list") {
                Ok(McpRequest::ListTools)
            } else if str_eq(method.as_str(), "tools/call") {
                match take_member(body, "params") {
                    Some(params) => match member_string(&params, "name") {
                        Some(name) => {
                            let arguments = take_members(take_member(params, "arguments"));
                            Ok(McpRequest::CallTool { name, arguments })
                        },
                        None => Err(HttpMcpError::BadRequest(owned("tools/call requires 'name' field"))),
                    },
                    None => Err(HttpMcpError::BadRequest(owned("tools/call requires 'name' field"))),
                }
            } else if str_eq(method.as_str(), "initialize") {
                Ok(McpRequest::Initialize)
            } else {
                let arguments = take_members(take_member(body, "params"));
                Ok(McpRequest::CallTool { name: method, arguments })
            }
        },
        None => match member_string(&body, "tool") {
            Some(tool) => {
                if tool.as_str().is_empty() {
                    Err(
                        HttpMcpError::BadRequest(
                            owned("Request must contain 'method' (JSON-RPC) or 'tool' (legacy) field"),
                        ),
                    )
                } else {
                    let arguments = take_members(take_member(body, "args"));
                    Ok(McpRequest::CallTool { name: tool, arguments })
                }
            },
            None => Err(
                HttpMcpError::BadRequest(owned("Request must contain 'method' (JSON-RPC) or 'tool' (legacy) field")),
            ),
        },
    }
}

// ---------------------------------------------------------------------------
// Answer documents
// ---------------------------------------------------------------------------

/// A tool of the catalog: its name, description, input schema (an object)
/// and whether it changes the palace.
pub struct ToolInfo {
    pub name: String,
    pub description: Option<String>,
    pub input_schema: Json,
    pub mutation: bool,
}

/// A string value, or `null`.
pub open spec fn opt_quoted(d: Option<String>) -> Seq<char> {
    match d {
        Some(s) => quoted(s@),
        None => "null"@,
    }
}

/// The catalog entry of a tool.
pub open spec fn tool_text(t: ToolInfo) -> Seq<char> {
    "{\"description\":"@ + opt_quoted(t.description) + ",\"inputSchema\":"@ + json_text(t.input_schema)
        + ",\"name\":"@ + quoted(t.name@) + "}"@
}

/// The tools listed: all of them, or in read-only mode those that change
/// nothing, in catalog order.
pub open spec fn listed(tools: Seq<ToolInfo>, read_only: bool) -> Seq<ToolInfo>
    decreases tools.len(),
{
    if tools.len() == 0 {
        Seq::empty()
    } else {
        let p = listed(tools.drop_last(), read_only);
        if read_only && tools.last().mutation {
            p
        } else {
            p.push(tools.last())
        }
    }
}

/// Catalog entries separated by commas.
pub open spec fn tools_text(ts: Seq<ToolInfo>) -> Seq<char>
    decreases ts.len(),
{
    if ts.len() == 0 {
        Seq::empty()
    } else if ts.len() == 1 {
        tool_text(ts[0])
    } else {
        tools_text(ts.drop_last()) + ","@ + tool_text(ts.last())
    }
}

/// The answer to `tools/list`.
pub open spec fn tools_list_text(tools: Seq<ToolInfo>, read_only: bool) -> Seq<char> {
    "{\"jsonrpc\":\"2.0\",\"result\":{\"tools\":["@ + tools_text(listed(tools, read_only)) + "]}}"@
}

/// The answer to `initialize` for a server of version `version`.
pub open spec fn initialize_text(version: Seq<char>) -> Seq<char> {
    "{\"jsonrpc\":\"2.0\",\"result\":{\"capabilities\":{\"tools\":{}},\"protocolVersion\":\"2025-03-26\",\"serverInfo\":{\"name\":\"mempalace-mcp-http\",\"version\":"@
        + quoted(version) + "}}}"@
}

fn push_quoted(out: &mut String, s: &str)
    ensures
        final(out)@ == old(out)@ + quoted(s@),
{
    let ghost start = out@;
    push_char(out, '"');
    push_escaped(out, s);
    push_char(out, '"');
    proof {
        assert(out@ =~= start + quoted(s@));
    }
}

fn write_tool(t: &ToolInfo, out: &mut String)
    ensures
        final(out)@ == old(out)@ + tool_text(*t),
{
    let ghost start = out@;
    push_str(out, "{\"description\":");
    let ghost a = out@;
    match &t.description {
        Some(d) => push_quoted(out, d.as_str()),
        None => push_str(out, "null"),
    }
    proof {
        assert(out@ == a + opt_quoted(t.description));
    }
    push_str(out, ",\"inputSchema\":");
    write_json(&t.input_schema, out);
    push_str(out, ",\"name\":");
    push_quoted(out, t.name.as_str());
    push_str(out, "}");
    proof {
        assert(out@ =~= start + tool_text(*t));
    }
}

/// The answer to `tools/list`: the catalog, without the tools that change
/// the palace in read-only mode.
pub fn tools_list_body(tools: &[ToolInfo], read_only: bool) -> (r: String)
    ensures
        r@ == tools_list_text(tools@, read_only),
{
    let mut out = String::new();
    push_str(&mut out, "{\"jsonrpc\":\"2.0\",\"result\":{\"tools\":[");
    let ghost head = out@;
    let mut n: usize = 0;
    let mut k: usize = 0;
    proof {
        assert(tools@.take(0) =~= Seq::<ToolInfo>::empty());
        assert(out@ =~= head + tools_text(listed(tools@.take(0), read_only)));
    }
    while k < tools.len()
        invariant
            k <= tools@.len(),
            n == listed(tools@.take(k as int), read_only).len(),
            n <= k,
            out@ == head + tools_text(listed(tools@.take(k as int), read_only)),
        decreases tools.len() - k,
    {
        let t = &tools[k];
        let ghost pl = listed(tools@.take(k as int), read_only);
        proof {
            assert(tools@.take(k + 1).drop_last() =~= tools@.take(k as int));
            assert(tools@.take(k + 1).last() == *t);
        }
        if !(read_only && t.mutation) {
            if n > 0 {
                push_str(&mut out, ",");
            }
            write_tool(t, &mut out);
            proof {
                let nl = pl.push(*t);
                assert(nl.drop_last() =~= pl);
                if n == 0 {
                    assert(pl =~= Seq::<ToolInfo>::empty());
                    assert(out@ =~= head + tools_text(nl));
                } else {
                    assert(out@ =~= head + tools_text(nl));
                }
            }
            n += 1;
        }
        k += 1;
    }
    push_str(&mut out, "]}}");
    proof {
        assert(tools@.take(tools@.len() as int) =~= tools@);
        assert(out@ =~= tools_list_text(tools@, read_only));
    }
    out
}

/// The answer to `initialize` for a server of version `version`.
pub fn initialize_body(version: &str) -> (r: String)
    ensures
        r@ == initialize_text(version@),
{
    let mut out = String::new();
    push_str(
        &mut out,
        "{\"jsonrpc\":\"2.0\",\"result\":{\"capabilities\":{\"tools\":{}},\"protocolVersion\":\"2025-03-26\",\"serverInfo\":{\"name\":\"mempalace-mcp-http\",\"version\":",
    );
    push_quoted(&mut out, version);
    push_str(&mut out, "}}}");
    proof {
        assert(out@ =~= initialize_text(version@));
    }
    out
}

/// The first content item a tool call returned.
pub enum ToolContent {
    /// Text.
    Text { text: String },
    /// Any other kind of content.
    Other,
}

/// The answer to a tool call whose result held no content.
pub open spec fn empty_content_text() -> Seq<char> {
    "{\"jsonrpc\":\"2.0\",\"result\":{\"content\":[]}}"@
}

/// The answer to a tool call whose first content item has `payload` as its
/// text.
pub open spec fn content_answer(payload: Seq<char>) -> Seq<char> {
    "{\"jsonrpc\":\"2.0\",\"result\":{\"content\":[{\"text\":"@ + quoted(payload) + ",\"type\":\"text\"}]}}"@
}

/// The text answered for the first content item: the compact form of the
/// JSON it reads as (decoded by serde_json), text that is not JSON wrapped as `{"text": ...}`, and
/// `{}` for content that is not text.
pub open spec fn payload_of(c: ToolContent) -> Seq<char> {
    match c {
        ToolContent::Text { text } => match crate::json::json_decoded(text@) {
            Some(p) => json_text(p),
            None => "{\"text\":"@ + quoted(text@) + "}"@,
        },
        ToolContent::Other => "{}"@,
    }
}

/// A failed tool call that read-only mode refused.
pub open spec fn read_only_refusal(msg: Seq<char>) -> bool {
    contains_sub(msg, "read-only"@) || contains_sub(msg, "ReadOnly"@)
}

/// The answer to a tool call: its first content item (none when the result
/// held none), or the failure's message.  A failure that read-only mode
/// caused is a bad request; any other is an internal error.
pub fn tool_call_answer(outcome: Result<Option<ToolContent>, String>) -> (r: Result<String, HttpMcpError>)
    ensures
        match outcome {
            Ok(None) => r matches Ok(t) && t@ == empty_content_text(),
            Ok(Some(c)) => r matches Ok(t) && t@ == content_answer(payload_of(c)),
            Err(msg) => r matches Err(e) && if read_only_refusal(msg@) {
                e is BadRequest && message_of(e) == "Mutation blocked (read-only mode): "@ + msg@
            } else {
                e is Internal && message_of(e) == msg@
            },
        },
{
    match outcome {
        Ok(None) => Ok(owned("{\"jsonrpc\":\"2.0\",\"result\":{\"content\":[]}}")),
        Ok(Some(c)) => {
            let payload = match &c {
                ToolContent::Text { text } => match crate::json::decode_json(text.as_str()) {
                    Some(p) => {
                        let mut t = String::new();
                        write_json(&p, &mut t);
                        t
                    },
                    None => {
                        let mut t = String::new();
                        push_str(&mut t, "{\"text\":");
                        push_quoted(&mut t, text.as_str());
                        push_str(&mut t, "}");
                        t
                    },
                },
                ToolContent::Other => owned("{}"),
            };
            proof {
                assert(payload@ =~= payload_of(c));
            }
            let mut out = String::new();
            push_str(&mut out, "{\"jsonrpc\":\"2.0\",\"result\":{\"content\":[{\"text\":");
            push_quoted(&mut out, payload.as_str());
            push_str(&mut out, ",\"type\":\"text\"}]}}");
            proof {
                assert(out@ =~= content_answer(payload_of(c)));
            }
            Ok(out)
        },
        Err(msg) => {
            if str_contains(msg.as_str(), "read-only") || str_contains(msg.as_str(), "ReadOnly") {
                let mut m = owned("Mutation blocked (read-only mode): ");
                push_str(&mut m, msg.as_str());
                Err(HttpMcpError::BadRequest(m))
            } else {
                Err(HttpMcpError::Internal(msg))
            }
        },
    }
}

} // verus!
