use gemini_openai_gateway::config::{default_accounts, AppConfig};
use gemini_openai_gateway::error::GatewayError;
use gemini_openai_gateway::runtime::{
    parse_bool, pick_pool_value, resolve_discrete_accounts, resolve_serving_accounts, EnvOverrides,
};
use gemini_openai_gateway::upstream::UpstreamClient;

fn none() -> EnvOverrides {
    EnvOverrides {
        primary_model: None,
        thinking_level: None,
        force_model: None,
        smart_router_enabled: None,
        base_path: None,
        accounts: None,
    }
}

#[test]
fn booleans_parse_exactly() {
    assert_eq!(parse_bool("true"), Some(true));
    assert_eq!(parse_bool("false"), Some(false));
    assert_eq!(parse_bool("TRUE"), None);
    assert_eq!(parse_bool(" true"), None);
    assert_eq!(parse_bool("1"), None);
}

#[test]
fn overrides_replace_only_what_is_set() {
    let mut cfg = AppConfig::default();
    let mut o = none();
    o.primary_model = Some("gemini-x".to_string());
    o.force_model = Some("true".to_string());
    o.smart_router_enabled = Some("nope".to_string());
    o.base_path = Some("/api".to_string());
    cfg.apply_env_overrides(o);
    assert_eq!(cfg.model.primary, "gemini-x");
    assert_eq!(cfg.model.thinking_level, "high");
    assert!(cfg.model.force_model);
    assert!(cfg.smart_router.enabled);
    assert_eq!(cfg.server.base_path, "/api");
    assert_eq!(cfg.accounts.len(), 20);
    assert_eq!(cfg.server.max_body_bytes, 10_000_000);
}

#[test]
fn account_override_needs_a_nonempty_list() {
    let mut cfg = AppConfig::default();
    let mut o = none();
    o.accounts = Some(Vec::new());
    cfg.apply_env_overrides(o);
    assert_eq!(cfg.accounts.len(), 20);

    let mut o2 = none();
    o2.accounts = Some(default_accounts().into_iter().take(2).collect());
    o2.smart_router_enabled = Some("false".to_string());
    cfg.apply_env_overrides(o2);
    assert_eq!(cfg.accounts.len(), 2);
    assert!(!cfg.smart_router.enabled);
}

fn s(v: &str) -> Option<String> {
    Some(v.to_string())
}

#[test]
fn discrete_accounts_need_a_configured_secret() {
    let mut accounts = default_accounts();
    accounts.truncate(4);
    accounts[3].enabled = false;
    let values = vec![
        (s("AIzaOne"), None),
        (s(" replace_me "), s("AIzaVar")),
        (None, s("AIzaVarOnly")),
        (s("AIzaDisabled"), None),
    ];
    let found = resolve_discrete_accounts(&accounts, &values);
    let ids: Vec<&str> = found.iter().map(|a| a.id.as_str()).collect();
    assert_eq!(ids, vec!["p01", "p03"]);
    let short = resolve_discrete_accounts(&accounts, &vec![(s("AIzaOne"), None)]);
    assert_eq!(short.len(), 1);
}

#[test]
fn pool_value_is_first_nonblank() {
    let c = vec![(s("  "), None), (None, s("AIzaB")), (s("AIzaC"), None)];
    assert_eq!(pick_pool_value(&c), s("AIzaB"));
    assert_eq!(pick_pool_value(&vec![(None, None), (s("\n"), s(""))]), None);
    assert_eq!(pick_pool_value(&vec![(s("AIzaS"), s("AIzaV"))]), s("AIzaS"));
}

#[test]
fn serving_accounts_combine_pool_and_discrete() {
    let accounts = default_accounts();
    let mut values: Vec<(Option<String>, Option<String>)> = vec![(None, None); 20];
    values[1] = (s("AIzaSecond"), None);
    let pool = vec![(s("AIzaP1,AIzaP2"), None)];
    let r = resolve_serving_accounts(&pool, &accounts, &values);
    assert_eq!(r.len(), 3);
    assert_eq!(r[0].id, "acc_0001");
    assert_eq!(r[0].direct_key.as_deref(), Some("AIzaP1"));
    assert_eq!(r[2].id, "acc_0003");
    assert_eq!(r[2].secret_name, "GEMINI_KEY_02");

    let none_found = resolve_serving_accounts(&Vec::new(), &accounts, &vec![(None, None); 20]);
    assert_eq!(none_found.len(), 5);
    assert_eq!(none_found[0].id, "p01");
}

#[test]
fn api_key_resolution() {
    assert_eq!(UpstreamClient::resolve_api_key(s("AIzaS"), s("AIzaV"), "K").unwrap(), "AIzaS");
    assert_eq!(UpstreamClient::resolve_api_key(s("replace_me"), s("AIzaV"), "K").unwrap(), "AIzaV");
    assert_eq!(UpstreamClient::resolve_api_key(s(" "), s("AIzaV"), "K").unwrap(), "AIzaV");
    match UpstreamClient::resolve_api_key(None, s("replace_me"), "GEMINI_KEY_07") {
        Err(GatewayError::Internal(m)) => assert_eq!(
            m,
            "Cloudflare Secret 'GEMINI_KEY_07' is missing or unconfigured in Worker runtime"
        ),
        other => panic!("unexpected {:?}", other),
    }
}
