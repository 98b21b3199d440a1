use gemini_openai_gateway::classifier::{ChatMessage, QuickRoute, SmartRouter, SmartRouterConfig, TaskDifficulty};
use gemini_openai_gateway::config::{AccountConfig, AppConfig, UpstreamConfig};
use gemini_openai_gateway::error::GatewayError;
use gemini_openai_gateway::metrics::generate_request_id;
use gemini_openai_gateway::router::{
    check_body_size, requires_proxy_token, route_not_found, route_request, AttemptVerdict, HttpMethod, Route, RetryLoop,
};
use gemini_openai_gateway::scheduler::{AccountScheduler, LruQuotaScheduler};
use gemini_openai_gateway::accounts::AccountHealth;
use gemini_openai_gateway::upstream::{trim_trailing_slashes, UpstreamClient};
use std::collections::HashMap;

#[test]
fn error_status_codes() {
    assert_eq!(GatewayError::Unauthorized("x".into()).status_code(), 401);
    assert_eq!(GatewayError::PayloadTooLarge { max_bytes: 1, received_bytes: 2 }.status_code(), 413);
    assert_eq!(GatewayError::BadRequest("x".into()).status_code(), 400);
    assert_eq!(GatewayError::NotFound("x".into()).status_code(), 404);
    assert_eq!(GatewayError::AllAccountsExhausted("x".into()).status_code(), 503);
    assert_eq!(GatewayError::UpstreamError { status: 418, message: "x".into() }.status_code(), 418);
    assert_eq!(GatewayError::StreamAborted("x".into()).status_code(), 502);
    assert_eq!(GatewayError::Internal("x".into()).status_code(), 500);
    assert_eq!(GatewayError::ConfigError("x".into()).status_code(), 500);
}

#[test]
fn error_messages() {
    assert_eq!(GatewayError::Unauthorized("no".into()).message(), "Unauthorized: no");
    assert_eq!(
        GatewayError::PayloadTooLarge { max_bytes: 10, received_bytes: 25 }.message(),
        "Payload too large: received 25 bytes, max allowed is 10"
    );
    assert_eq!(
        GatewayError::UpstreamError { status: 503, message: "busy".into() }.message(),
        "Upstream returned HTTP 503: busy"
    );
    assert_eq!(GatewayError::ConfigError("c".into()).message(), "Configuration error: c");
    assert_eq!(GatewayError::StreamAborted("s".into()).message(), "Stream aborted: s");
    assert_eq!(GatewayError::BadRequest("b".into()).message(), "Bad request: b");
    assert_eq!(GatewayError::NotFound("n".into()).message(), "Not found: n");
    assert_eq!(
        GatewayError::AllAccountsExhausted("a".into()).message(),
        "All upstream accounts exhausted: a"
    );
    assert_eq!(GatewayError::Internal("i".into()).message(), "Internal server error: i");
}

#[test]
fn error_codes_for_every_variant() {
    let code = |e: GatewayError| e.to_openai_response().error.code.unwrap();
    let kind = |e: GatewayError| e.to_openai_response().error.error_type;
    assert_eq!(code(GatewayError::PayloadTooLarge { max_bytes: 1, received_bytes: 2 }), "payload_too_large");
    assert_eq!(code(GatewayError::BadRequest("x".into())), "bad_request");
    assert_eq!(code(GatewayError::NotFound("x".into())), "not_found");
    assert_eq!(code(GatewayError::StreamAborted("x".into())), "stream_aborted");
    assert_eq!(kind(GatewayError::StreamAborted("x".into())), "stream_error");
    assert_eq!(code(GatewayError::Internal("x".into())), "internal_error");
    assert_eq!(code(GatewayError::ConfigError("x".into())), "internal_error");
    assert_eq!(kind(GatewayError::ConfigError("x".into())), "server_error");
}

#[test]
fn error_bodies_follow_openai_shape() {
    let r = GatewayError::UpstreamError { status: 429, message: "slow".into() }.to_openai_response();
    assert_eq!(r.error.message, "Upstream returned HTTP 429: slow");
    assert_eq!(r.error.error_type, "upstream_error");
    assert_eq!(r.error.code.as_deref(), Some("http_429"));
    assert!(r.error.param.is_none());
    let u = GatewayError::Unauthorized("t".into()).to_openai_response();
    assert_eq!(u.error.error_type, "invalid_request_error");
    assert_eq!(u.error.code.as_deref(), Some("invalid_api_key"));
    let e = GatewayError::AllAccountsExhausted("t".into()).to_openai_response();
    assert_eq!(e.error.error_type, "server_error");
    assert_eq!(e.error.code.as_deref(), Some("upstream_unavailable"));
}

#[test]
fn routes() {
    assert_eq!(route_request(HttpMethod::Options, "/anything", "/v1"), Route::Preflight);
    assert_eq!(route_request(HttpMethod::Get, "/health", "/v1"), Route::Health);
    assert_eq!(route_request(HttpMethod::Get, "/", "/v1"), Route::Health);
    assert_eq!(route_request(HttpMethod::Get, "/v1/models", "/v1/"), Route::Models);
    assert_eq!(route_request(HttpMethod::Post, "/v1/chat/completions", "/v1"), Route::ChatCompletions);
    assert_eq!(route_request(HttpMethod::Post, "/v1/responses", "/v1"), Route::ChatCompletions);
    assert_eq!(route_request(HttpMethod::Get, "/v1/chat/completions", "/v1"), Route::NotFound);
    assert_eq!(route_request(HttpMethod::Post, "/v2/models", "/v1"), Route::NotFound);
    assert_eq!(route_request(HttpMethod::Other, "/health", "/v1"), Route::NotFound);
}

#[test]
fn not_found_error_names_route() {
    match route_not_found("PUT", "/x") {
        GatewayError::NotFound(m) => assert_eq!(m, "Route PUT /x not found"),
        other => panic!("unexpected {:?}", other),
    }
}

#[test]
fn body_size_limit() {
    assert!(check_body_size(10, 10).is_ok());
    match check_body_size(11, 10) {
        Err(GatewayError::PayloadTooLarge { max_bytes, received_bytes }) => {
            assert_eq!(max_bytes, 10);
            assert_eq!(received_bytes, 11);
        }
        other => panic!("unexpected {:?}", other),
    }
}

fn two_accounts() -> Vec<AccountConfig> {
    vec![
        AccountConfig {
            id: "a".into(),
            secret_name: "KA".into(),
            direct_key: None,
            quota_domain: "d1".into(),
            enabled: true,
            rpm_limit: None,
            tpm_limit: None,
            rpd_limit: None,
        },
        AccountConfig {
            id: "b".into(),
            secret_name: "KB".into(),
            direct_key: None,
            quota_domain: "d2".into(),
            enabled: true,
            rpm_limit: None,
            tpm_limit: None,
            rpd_limit: None,
        },
    ]
}

#[test]
fn retry_loop_counts_attempts() {
    let mut l = RetryLoop::new(0);
    assert_eq!(l.max_attempts, 1);
    assert_eq!(l.begin_attempt(), Some(1));
    assert_eq!(l.begin_attempt(), None);
    let mut l3 = RetryLoop::new(3);
    assert_eq!(l3.begin_attempt(), Some(1));
    assert_eq!(l3.begin_attempt(), Some(2));
    assert_eq!(l3.begin_attempt(), Some(3));
    assert_eq!(l3.begin_attempt(), None);
    match l3.into_error() {
        GatewayError::Internal(m) => assert_eq!(m, "No attempt made"),
        other => panic!("unexpected {:?}", other),
    }
}

#[test]
fn retry_loop_moves_past_rate_limit_then_delivers() {
    let cfg = AppConfig::default();
    let mut sched = LruQuotaScheduler::new(&two_accounts());
    let mut l = RetryLoop::new(cfg.retry.max_attempts);
    let headers = HashMap::new();

    assert_eq!(l.begin_attempt(), Some(1));
    let acc = sched.select_account(1000).unwrap();
    assert_eq!(acc.id, "a");
    let v = l.on_response(&mut sched, &acc, 429, &headers, &cfg, 1000);
    assert!(matches!(v, AttemptVerdict::TryNext));
    match &l.last_error {
        GatewayError::UpstreamError { status, message } => {
            assert_eq!(*status, 429);
            assert_eq!(message, "Upstream rate limit (429) on account a");
        }
        other => panic!("unexpected {:?}", other),
    }

    assert_eq!(l.begin_attempt(), Some(2));
    let acc2 = sched.select_account(1001).unwrap();
    assert_eq!(acc2.id, "b");
    let v2 = l.on_response(&mut sched, &acc2, 200, &headers, &cfg, 1001);
    assert!(matches!(v2, AttemptVerdict::Deliver));
    assert!(l.guard.first_byte_sent);
    assert_eq!(l.begin_attempt(), None);

    let states = sched.get_account_states();
    assert_eq!(
        states[0].health,
        AccountHealth::Cooldown { until_ms: 31_000, reason: "429 Rate Limit".to_string() }
    );
    assert_eq!(states[1].success_count, 1);
}

#[test]
fn retry_loop_uses_retry_after_for_cooldown() {
    let cfg = AppConfig::default();
    let mut sched = LruQuotaScheduler::new(&two_accounts());
    let mut l = RetryLoop::new(2);
    let mut headers = HashMap::new();
    headers.insert("retry-after".to_string(), "5".to_string());
    l.begin_attempt();
    let acc = sched.select_account(0).unwrap();
    let v = l.on_response(&mut sched, &acc, 429, &headers, &cfg, 0);
    assert!(matches!(v, AttemptVerdict::TryNext));
    let states = sched.get_account_states();
    assert_eq!(
        states[0].health,
        AccountHealth::Cooldown { until_ms: 5_000, reason: "429 Rate Limit".to_string() }
    );
}

#[test]
fn retry_loop_gives_up_on_auth_failure() {
    let cfg = AppConfig::default();
    let mut sched = LruQuotaScheduler::new(&two_accounts());
    let mut l = RetryLoop::new(3);
    let headers = HashMap::new();
    l.begin_attempt();
    let acc = sched.select_account(0).unwrap();
    match l.on_response(&mut sched, &acc, 403, &headers, &cfg, 0) {
        AttemptVerdict::GiveUp(GatewayError::UpstreamError { status, message }) => {
            assert_eq!(status, 403);
            assert_eq!(message, "Authentication failure from upstream Gemini API");
        }
        other => panic!("unexpected {:?}", other),
    }
    let states = sched.get_account_states();
    assert_eq!(
        states[0].health,
        AccountHealth::Disabled { reason: "Authentication failure from upstream Gemini API".to_string() }
    );
}

#[test]
fn retry_loop_server_error_and_network_error() {
    let cfg = AppConfig::default();
    let mut sched = LruQuotaScheduler::new(&two_accounts());
    let mut l = RetryLoop::new(3);
    let headers = HashMap::new();
    l.begin_attempt();
    let acc = sched.select_account(0).unwrap();
    let v = l.on_response(&mut sched, &acc, 502, &headers, &cfg, 0);
    assert!(matches!(v, AttemptVerdict::TryNext));
    match &l.last_error {
        GatewayError::UpstreamError { status, message } => {
            assert_eq!(*status, 502);
            assert_eq!(message, "Upstream server error (502) on account a");
        }
        other => panic!("unexpected {:?}", other),
    }
    l.begin_attempt();
    let acc2 = sched.select_account(1).unwrap();
    assert_eq!(acc2.id, "b");
    l.on_network_error(&mut sched, &acc2, GatewayError::Internal("down".into()), &cfg.cooldown, 1);
    let states = sched.get_account_states();
    assert_eq!(
        states[1].health,
        AccountHealth::Cooldown { until_ms: 5_001, reason: "Network error".to_string() }
    );
    assert_eq!(states[1].last_error_class.as_deref(), Some("NETWORK_ERROR"));
    l.begin_attempt();
    match sched.select_account(2) {
        Err(e) => l.on_no_account(e),
        Ok(a) => panic!("unexpected {:?}", a),
    }
    assert!(l.finished);
    assert!(matches!(l.into_error(), GatewayError::AllAccountsExhausted(_)));
}

#[test]
fn retry_loop_missing_key_disables_account() {
    let mut sched = LruQuotaScheduler::new(&two_accounts());
    let mut l = RetryLoop::new(3);
    l.begin_attempt();
    let acc = sched.select_account(0).unwrap();
    l.on_missing_key(&mut sched, &acc, GatewayError::ConfigError("no key".into()));
    let states = sched.get_account_states();
    assert_eq!(
        states[0].health,
        AccountHealth::Disabled { reason: "Secret missing in Worker runtime".to_string() }
    );
    assert_eq!(sched.select_account(1).unwrap().id, "b");
}

fn msg(role: &str, content: Option<&str>) -> ChatMessage {
    ChatMessage { role: Some(role.to_string()), content: content.map(|c| c.to_string()) }
}

#[test]
fn user_query_is_last_nonblank_user_message() {
    let messages = vec![
        msg("system", Some("be nice")),
        msg("user", Some("  first question ")),
        msg("assistant", Some("answer")),
        msg("user", Some("   ")),
        msg("user", None),
    ];
    assert_eq!(SmartRouter::extract_user_query(&messages), "first question");
    assert_eq!(SmartRouter::extract_user_query(&[]), "");
    let long = "x".repeat(1500);
    let q = SmartRouter::extract_user_query(&[msg("user", Some(&long))]);
    assert_eq!(q.chars().count(), 1200);
}

#[test]
fn quick_routes() {
    assert_eq!(SmartRouter::quick_route("   "), QuickRoute::NoQuery);
    assert_eq!(SmartRouter::quick_route("Hello there"), QuickRoute::Easy);
    assert_eq!(SmartRouter::quick_route("fix this TYPO"), QuickRoute::Easy);
    assert_eq!(
        SmartRouter::quick_route("Please design the ARCHITECTURE for our payments platform"),
        QuickRoute::Hard
    );
    assert_eq!(
        SmartRouter::quick_route("Could you please format this very long paragraph of text for me"),
        QuickRoute::AskModel
    );
    assert_eq!(SmartRouter::quick_route("what is a monad"), QuickRoute::AskModel);
}

#[test]
fn routed_models() {
    let cfg = SmartRouterConfig::default();
    assert_eq!(
        SmartRouter::route_for(&cfg, TaskDifficulty::Easy),
        ("gemini-3.5-flash-lite".to_string(), None)
    );
    assert_eq!(
        SmartRouter::route_for(&cfg, TaskDifficulty::Normal),
        ("gemini-3.8-flash".to_string(), Some("medium".to_string()))
    );
    assert_eq!(
        SmartRouter::route_for(&cfg, TaskDifficulty::Hard),
        ("gemini-3.8-flash".to_string(), Some("high".to_string()))
    );
}

#[test]
fn request_ids_are_hex_time() {
    assert_eq!(generate_request_id(0x1234), "req_000000001234");
    assert_eq!(generate_request_id(0), "req_000000000000");
    assert_eq!(generate_request_id(0xabc_def0_1234_5678), "req_abcdef012345678");
}

#[test]
fn upstream_url_has_no_double_slash() {
    assert_eq!(trim_trailing_slashes("https://x.test/v1beta/openai//"), "https://x.test/v1beta/openai");
    let c = UpstreamClient::new(&UpstreamConfig::default());
    assert_eq!(
        c.chat_completions_url(),
        "https://generativelanguage.googleapis.com/v1beta/openai/chat/completions"
    );
}

#[test]
fn proxy_token_gate() {
    assert!(!requires_proxy_token(Route::Preflight, true));
    assert!(!requires_proxy_token(Route::Health, true));
    assert!(requires_proxy_token(Route::Models, true));
    assert!(requires_proxy_token(Route::ChatCompletions, true));
    assert!(requires_proxy_token(Route::NotFound, true));
    assert!(!requires_proxy_token(Route::Models, false));
}
