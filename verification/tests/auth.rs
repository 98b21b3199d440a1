use gemini_openai_gateway::auth::{constant_time_eq, verify_bearer_token};
use gemini_openai_gateway::error::GatewayError;

#[test]
fn test_valid_bearer_token() {
    let expected = "secret_proxy_token_12345";
    let header = "Bearer secret_proxy_token_12345";
    assert!(verify_bearer_token(Some(header), expected).is_ok());
}

#[test]
fn test_lowercase_bearer_token() {
    let expected = "secret_proxy_token_12345";
    let header = "bearer secret_proxy_token_12345";
    assert!(verify_bearer_token(Some(header), expected).is_ok());
}

#[test]
fn test_missing_auth_header() {
    let expected = "secret_proxy_token_12345";
    assert!(verify_bearer_token(None, expected).is_err());
    assert!(verify_bearer_token(Some(""), expected).is_err());
}

#[test]
fn test_invalid_bearer_token() {
    let expected = "secret_proxy_token_12345";
    let header = "Bearer wrong_token";
    let res = verify_bearer_token(Some(header), expected);
    assert!(res.is_err());
}

#[test]
fn test_invalid_auth_scheme() {
    let expected = "secret_proxy_token_12345";
    let header = "Basic dXNlcjpwYXNz";
    let res = verify_bearer_token(Some(header), expected);
    assert!(res.is_err());
}

#[test]
fn test_constant_time_equality() {
    assert!(constant_time_eq(b"hello", b"hello"));
    assert!(!constant_time_eq(b"hello", b"world"));
    assert!(!constant_time_eq(b"short", b"longer_string"));
}

fn unauthorized_reason(r: Result<(), GatewayError>) -> String {
    match r {
        Err(GatewayError::Unauthorized(m)) => m,
        other => panic!("expected a 401, got {:?}", other),
    }
}

#[test]
fn bearer_reasons_name_the_failure() {
    assert_eq!(unauthorized_reason(verify_bearer_token(None, "t")), "Missing Authorization header");
    assert_eq!(unauthorized_reason(verify_bearer_token(Some("   \t"), "t")), "Missing Authorization header");
    assert_eq!(
        unauthorized_reason(verify_bearer_token(Some("Token t"), "t")),
        "Authorization scheme must be Bearer"
    );
    assert_eq!(unauthorized_reason(verify_bearer_token(Some("Bearer x"), "t")), "Invalid proxy token");
}

#[test]
fn bearer_token_whitespace_is_ignored() {
    assert!(verify_bearer_token(Some("  Bearer    tok-1  "), "tok-1").is_ok());
    assert!(verify_bearer_token(Some("Bearer tök€"), "tök€").is_ok());
    assert!(verify_bearer_token(Some("BEARER tok-1"), "tok-1").is_err());
    assert!(verify_bearer_token(Some("Bearer"), "").is_err());
}

#[test]
fn bearer_rejection_is_a_401() {
    let e = verify_bearer_token(Some("Bearer nope"), "yes").unwrap_err();
    assert_eq!(e.status_code(), 401);
    let body = e.to_openai_response();
    assert_eq!(body.error.code.as_deref(), Some("invalid_api_key"));
    assert_eq!(body.error.message, "Unauthorized: Invalid proxy token");
}

#[test]
fn constant_time_eq_edge_cases() {
    assert!(constant_time_eq(b"", b""));
    assert!(!constant_time_eq(b"a", b""));
    assert!(!constant_time_eq(b"abc", b"abd"));
}
