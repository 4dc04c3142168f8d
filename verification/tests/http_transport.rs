use mempalace_core::http_transport::{
    body_too_large, resolve_auth_token, resolve_idle_exit_seconds, resolve_port, validate_tls_pair, DEFAULT_PORT,
    MAX_BODY_BYTES,
};

#[test]
fn test_max_body_bytes_is_16_mib() {
    assert_eq!(MAX_BODY_BYTES, 16 * 1024 * 1024);
}

#[test]
fn body_limit_is_inclusive() {
    assert!(!body_too_large(MAX_BODY_BYTES));
    assert!(body_too_large(MAX_BODY_BYTES + 1));
}

#[test]
fn test_validate_tls_pair() {
    let cert = std::path::PathBuf::from("cert.pem");
    let key = std::path::PathBuf::from("key.pem");
    assert!(validate_tls_pair::<std::path::PathBuf>(None, None).is_ok());
    assert!(validate_tls_pair(Some(&cert), Some(&key)).is_ok());
    assert!(validate_tls_pair(Some(&cert), None).is_err());
    assert!(validate_tls_pair(None, Some(&key)).is_err());
}

#[test]
fn test_resolve_port_default() {
    assert_eq!(resolve_port(None, None), DEFAULT_PORT);
}

#[test]
fn test_resolve_port_override() {
    assert_eq!(resolve_port(None, Some(8080)), 8080);
    assert_eq!(resolve_port(Some("9000"), Some(8080)), 9000);
    assert_eq!(resolve_port(Some("99999"), Some(8080)), 8080);
    assert_eq!(resolve_port(Some("+80"), None), 80);
    assert_eq!(resolve_port(Some(" 80"), None), DEFAULT_PORT);
}

#[test]
fn test_resolve_auth_token_precedence() {
    assert_eq!(resolve_auth_token(Some("  cli  "), Some("env"), None), Some("cli".to_string()));
    assert_eq!(resolve_auth_token(Some("   "), Some("env"), Some("legacy")), Some("env".to_string()));
    assert_eq!(resolve_auth_token(None, Some(""), Some("legacy")), Some("legacy".to_string()));
    assert_eq!(resolve_auth_token(None, None, None), None);
}

#[test]
fn test_resolve_idle_exit_seconds() {
    assert_eq!(resolve_idle_exit_seconds(None), None);
    assert_eq!(resolve_idle_exit_seconds(Some("0")), None);
    assert_eq!(resolve_idle_exit_seconds(Some(" 30 ")), Some(30));
    assert_eq!(resolve_idle_exit_seconds(Some("nope")), None);
    assert_eq!(resolve_idle_exit_seconds(Some("18446744073709551616")), None);
}
