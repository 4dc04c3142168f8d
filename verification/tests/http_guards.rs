use mempalace_core::http_transport::{idle_exit_due, plan_http_token, resolve_bind_host, TokenPlan};
use mempalace_core::http_guards::{
    check_bearer, content_length_refused, error_response, origin_hostname, port_split_candidate_of, strip_host_port,
    AuthHeader, HttpMcpError,
};

#[test]
fn refusals_answer_with_a_json_rpc_error() {
    let (status, body) = error_response(&HttpMcpError::Unauthorized("Invalid bearer token".to_string()));
    assert_eq!(status, 401);
    assert_eq!(body, "{\"error\":{\"code\":401,\"message\":\"Invalid bearer token\"},\"jsonrpc\":\"2.0\"}");
    let (status, body) = error_response(&HttpMcpError::PayloadTooLarge);
    assert_eq!(status, 413);
    assert!(body.contains("Request body exceeds 16777216 byte limit"));
    assert_eq!(error_response(&HttpMcpError::DnsRebindingBlocked("x".to_string())).0, 403);
    assert_eq!(error_response(&HttpMcpError::BadRequest("x".to_string())).0, 400);
    assert_eq!(error_response(&HttpMcpError::Internal("say \"hi\"".to_string())).1, "{\"error\":{\"code\":500,\"message\":\"say \\\"hi\\\"\"},\"jsonrpc\":\"2.0\"}");
}

fn unauthorized(r: Result<(), HttpMcpError>) -> String {
    match r {
        Err(HttpMcpError::Unauthorized(m)) => m,
        _ => panic!("expected unauthorized"),
    }
}

#[test]
fn bearer_checks() {
    assert!(check_bearer(None, &AuthHeader::Missing).is_ok());
    assert!(check_bearer(Some("s3"), &AuthHeader::Text("Bearer s3".to_string())).is_ok());
    assert!(check_bearer(Some("s3"), &AuthHeader::Text("s3".to_string())).is_ok());
    assert_eq!(unauthorized(check_bearer(Some("s3"), &AuthHeader::Text("Bearer nope".to_string()))), "Invalid bearer token");
    assert_eq!(
        unauthorized(check_bearer(Some("s3"), &AuthHeader::Missing)),
        "Bearer token required (set MEMPALACE_HTTP_TOKEN or --token)"
    );
    assert_eq!(unauthorized(check_bearer(Some("s3"), &AuthHeader::NotText)), "Invalid Authorization header encoding");
}

#[test]
fn declared_body_size() {
    assert!(!content_length_refused(None));
    assert!(!content_length_refused(Some("16777216")));
    assert!(content_length_refused(Some("16777217")));
    assert!(!content_length_refused(Some("abc")));
}

#[test]
fn origin_hosts() {
    assert_eq!(origin_hostname("http://localhost:3112"), Some("localhost".to_string()));
    assert_eq!(origin_hostname("https://evil.example/path"), Some("evil.example".to_string()));
    assert_eq!(origin_hostname("http://[::1]:3112"), Some("[::1]:3112".to_string()));
    assert_eq!(origin_hostname("null"), None);
}

#[test]
fn bind_host_and_token_policy() {
    assert_eq!(resolve_bind_host(Some("  0.0.0.0 "), Some("h"), Some("b")), "0.0.0.0");
    assert_eq!(resolve_bind_host(Some("   "), Some("h"), Some("b")), "h");
    assert_eq!(resolve_bind_host(None, Some(""), Some("b")), "b");
    assert_eq!(resolve_bind_host(None, None, Some("")), "127.0.0.1");
    assert!(matches!(plan_http_token("127.0.0.1", true, None, false), TokenPlan::Use(None)));
    assert!(matches!(plan_http_token("0.0.0.0", false, Some("t".to_string()), false), TokenPlan::Use(Some(_))));
    assert!(matches!(plan_http_token("0.0.0.0", false, None, true), TokenPlan::Generate));
    match plan_http_token("0.0.0.0", false, None, false) {
        TokenPlan::Refuse(m) => assert_eq!(
            m,
            "refusing to bind to non-loopback host '0.0.0.0' without a bearer token. Pass --token <secret>, set MEMPALACE_HTTP_TOKEN, or bind to 127.0.0.1."
        ),
        _ => panic!("expected a refusal"),
    }
    assert!(idle_exit_due(10_000, 5_000, 5));
    assert!(!idle_exit_due(10_000, 5_001, 5));
    assert!(!idle_exit_due(1_000, 5_000, 1));
    assert!(!idle_exit_due(u64::MAX - 1, 0, u64::MAX));
}

#[test]
fn host_values_lose_their_port() {
    assert_eq!(port_split_candidate_of("localhost:3112"), Some("localhost".to_string()));
    assert_eq!(strip_host_port("localhost:3112", false), "localhost");
    assert_eq!(port_split_candidate_of("127.0.0.1:8080"), Some("127.0.0.1".to_string()));
    assert_eq!(strip_host_port("127.0.0.1:8080", true), "127.0.0.1");
    assert_eq!(port_split_candidate_of("[::1]:3112"), None);
    assert_eq!(strip_host_port("[::1]:3112", false), "::1");
    assert_eq!(strip_host_port("[::1]", false), "::1");
    assert_eq!(strip_host_port("[::1", false), "[::1");
    assert_eq!(port_split_candidate_of("::1"), Some(":".to_string()));
    assert_eq!(strip_host_port("::1", false), "::1");
    assert_eq!(port_split_candidate_of("example.com"), None);
    assert_eq!(strip_host_port("example.com", false), "example.com");
}
