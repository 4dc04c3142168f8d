use mempalace_core::auth::{build_viewer_csp, create_viewer_nonce, timing_safe_equal, verify_bearer_token};

#[test]
fn test_timing_safe_equal_matches() {
    let input = b"same-secret-key-12345";
    assert!(timing_safe_equal(input, input));
}

#[test]
fn test_timing_safe_equal_different_length() {
    let a = b"short";
    let b = b"much-longer-input";
    assert!(!timing_safe_equal(a, b));
}

#[test]
fn test_timing_safe_equal_same_length_different_content() {
    let a = b"aaaaaaab";
    let b = b"aaaaaaac";
    assert!(!timing_safe_equal(a, b));
}

#[test]
fn test_csp_contains_nonce() {
    let nonce = "abc123xyz";
    let csp = build_viewer_csp(nonce);
    assert!(
        csp.contains("'nonce-abc123xyz'"),
        "CSP should contain nonce: {csp}"
    );
    assert!(
        csp.contains("default-src 'self'"),
        "CSP should contain default-src: {csp}"
    );
}

#[test]
fn test_create_viewer_nonce_length() {
    let nonce = create_viewer_nonce().unwrap();
    assert_eq!(nonce.len(), 22, "nonce={nonce}");
}

#[test]
fn test_create_viewer_nonce_deterministic() {
    let nonce1 = create_viewer_nonce().unwrap();
    let nonce2 = create_viewer_nonce().unwrap();
    assert_ne!(nonce1, nonce2, "two nonces should differ");
}

#[test]
fn test_verify_bearer_token_same() {
    let token = "my-secret-token";
    assert!(verify_bearer_token(token, token));
}

#[test]
fn test_verify_bearer_token_with_bearer_prefix() {
    let token = "my-secret-token";
    assert!(verify_bearer_token(&format!("Bearer {token}"), token));
    assert!(verify_bearer_token(token, &format!("Bearer {token}")));
}

#[test]
fn test_verify_bearer_token_empty() {
    assert!(!verify_bearer_token("", "token"));
    assert!(!verify_bearer_token("token", ""));
    assert!(!verify_bearer_token("", ""));
}

#[test]
fn test_verify_bearer_token_mismatch() {
    assert!(!verify_bearer_token("token-a", "token-b"));
}

#[test]
fn test_create_viewer_nonce_url_safe_alphabet() {
    let nonce = create_viewer_nonce().unwrap();
    assert!(nonce.chars().all(|c| c.is_ascii_alphanumeric() || c == '-' || c == '_'), "nonce={nonce}");
    assert!(!nonce.contains('='), "nonce={nonce}");
}
