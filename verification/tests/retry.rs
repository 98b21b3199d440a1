use gemini_openai_gateway::retry::{
    classify_status, classify_upstream_response, parse_retry_after, ErrorClassification,
    FirstByteGuard,
};
use std::collections::HashMap;

#[test]
fn test_classify_retryable_statuses() {
    let headers = HashMap::new();
    let cap_ms = 10_000;

    assert!(classify_upstream_response(429, &headers, cap_ms).is_retryable());
    assert!(classify_upstream_response(500, &headers, cap_ms).is_retryable());
    assert!(classify_upstream_response(502, &headers, cap_ms).is_retryable());
    assert!(classify_upstream_response(503, &headers, cap_ms).is_retryable());
    assert!(classify_upstream_response(504, &headers, cap_ms).is_retryable());
}

#[test]
fn test_classify_permanent_errors() {
    let headers = HashMap::new();
    let cap_ms = 10_000;

    let auth_401 = classify_upstream_response(401, &headers, cap_ms);
    assert!(!auth_401.is_retryable());
    assert!(auth_401.is_permanent_auth());

    let auth_403 = classify_upstream_response(403, &headers, cap_ms);
    assert!(!auth_403.is_retryable());
    assert!(auth_403.is_permanent_auth());

    let client_400 = classify_upstream_response(400, &headers, cap_ms);
    assert!(!client_400.is_retryable());
}

#[test]
fn test_parse_retry_after_header_and_capping() {
    // 5 seconds -> 5000ms
    assert_eq!(parse_retry_after(Some("5"), 10_000), Some(5000));

    // 30 seconds -> capped at 10,000ms
    assert_eq!(parse_retry_after(Some("30"), 10_000), Some(10_000));

    // Invalid header
    assert_eq!(parse_retry_after(Some("invalid"), 10_000), None);
    assert_eq!(parse_retry_after(None, 10_000), None);
}

#[test]
fn test_first_byte_guard_semantics() {
    let mut guard = FirstByteGuard::new();

    // Before any communication: retry allowed
    assert!(guard.can_retry());

    // When headers arrive: retry still allowed if status failed
    guard.mark_headers_received();
    assert!(guard.can_retry());

    // Once streaming begins: FIRST BYTE SENT!
    guard.mark_stream_started();
    assert!(!guard.can_retry());
}

#[test]
fn retry_after_parsing_edge_cases() {
    assert_eq!(parse_retry_after(Some("  7 "), 60_000), Some(7_000));
    assert_eq!(parse_retry_after(Some("+2"), 60_000), Some(2_000));
    assert_eq!(parse_retry_after(Some("-2"), 60_000), None);
    assert_eq!(parse_retry_after(Some(""), 60_000), None);
    assert_eq!(parse_retry_after(Some("+"), 60_000), None);
    assert_eq!(parse_retry_after(Some("0"), 60_000), Some(0));
    assert_eq!(parse_retry_after(Some("1.5"), 60_000), None);
    // Overflowing seconds saturate before the cap applies.
    assert_eq!(parse_retry_after(Some("18446744073709551615"), u64::MAX), Some(u64::MAX));
    // Too large to be a u64 at all.
    assert_eq!(parse_retry_after(Some("18446744073709551616"), u64::MAX), None);
}

#[test]
fn classification_of_each_status_family() {
    let h = HashMap::new();
    assert_eq!(
        classify_upstream_response(429, &h, 1_000),
        ErrorClassification::RetryableRateLimit { retry_after_ms: None }
    );
    assert_eq!(
        classify_upstream_response(503, &h, 1_000),
        ErrorClassification::RetryableServerError { status: 503 }
    );
    assert_eq!(
        classify_upstream_response(403, &h, 1_000),
        ErrorClassification::PermanentAuthError {
            status: 403,
            message: "Authentication failure from upstream Gemini API".to_string()
        }
    );
    assert_eq!(
        classify_upstream_response(422, &h, 1_000),
        ErrorClassification::PermanentClientError {
            status: 422,
            message: "Client request error from upstream".to_string()
        }
    );
    assert_eq!(classify_upstream_response(501, &h, 1_000), ErrorClassification::Unknown { status: 501 });
    assert!(!classify_upstream_response(501, &h, 1_000).is_retryable());
    assert!(!classify_upstream_response(429, &h, 1_000).is_permanent_auth());
}

#[test]
fn rate_limit_reads_retry_after_header() {
    let mut h = HashMap::new();
    h.insert("retry-after".to_string(), "3".to_string());
    assert_eq!(
        classify_upstream_response(429, &h, 10_000),
        ErrorClassification::RetryableRateLimit { retry_after_ms: Some(3_000) }
    );
    let mut h2 = HashMap::new();
    h2.insert("Retry-After".to_string(), "60".to_string());
    assert_eq!(
        classify_upstream_response(429, &h2, 10_000),
        ErrorClassification::RetryableRateLimit { retry_after_ms: Some(10_000) }
    );
    // The lowercase header wins when both are present.
    h2.insert("retry-after".to_string(), "1".to_string());
    assert_eq!(
        classify_upstream_response(429, &h2, 10_000),
        ErrorClassification::RetryableRateLimit { retry_after_ms: Some(1_000) }
    );
    assert_eq!(
        classify_status(429, Some("2"), 10_000),
        ErrorClassification::RetryableRateLimit { retry_after_ms: Some(2_000) }
    );
}

#[test]
fn network_errors_are_retryable() {
    let e = ErrorClassification::RetryableNetworkError { message: "down".to_string() };
    assert!(e.is_retryable());
    assert!(!e.is_permanent_auth());
}
