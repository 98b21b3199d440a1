use gemini_openai_gateway::config::{
    active_accounts, default_accounts, is_configured_secret, is_usable_secret, numbered,
    parse_keys_pool, sanitize_token, split_raw_into_tokens, AccountConfig, AppConfig,
};

#[test]
fn test_default_config_values() {
    let cfg = AppConfig::default();

    assert_eq!(cfg.server.base_path, "/v1");
    assert_eq!(cfg.server.max_body_bytes, 10_000_000);
    assert_eq!(cfg.model.primary, "gemini-3.8-flash");
    assert_eq!(cfg.model.thinking_level, "high");
    assert!(!cfg.model.force_model);
    assert_eq!(cfg.retry.max_attempts, 3);
    assert_eq!(cfg.cooldown.after_429_ms, 30_000);
    assert_eq!(cfg.accounts.len(), 20);
    assert_eq!(cfg.accounts[0].id, "p01");
    assert_eq!(cfg.accounts[0].quota_domain, "project-01");
}

#[test]
fn test_parse_keys_pool_plain_text() {
    let pool_str = "AIzaSyKey001, AIzaSyKey002\nAIzaSyKey003;AIzaSyKey004";
    let accounts = parse_keys_pool(pool_str);
    assert_eq!(accounts.len(), 4);
    assert_eq!(accounts[0].direct_key.as_deref(), Some("AIzaSyKey001"));
    assert_eq!(accounts[1].direct_key.as_deref(), Some("AIzaSyKey002"));
    assert_eq!(accounts[2].direct_key.as_deref(), Some("AIzaSyKey003"));
    assert_eq!(accounts[3].direct_key.as_deref(), Some("AIzaSyKey004"));
}

#[test]
fn test_parse_keys_pool_json_objects() {
    let json_str = r#"[
        {"key": "AIzaSyKeyA", "project": "proj-alpha"},
        {"key": "AIzaSyKeyB", "domain": "proj-beta"}
    ]"#;
    let accounts = parse_keys_pool(json_str);
    assert_eq!(accounts.len(), 2);
    assert_eq!(accounts[0].direct_key.as_deref(), Some("AIzaSyKeyA"));
    assert_eq!(accounts[0].quota_domain, "proj-alpha");
    assert_eq!(accounts[1].direct_key.as_deref(), Some("AIzaSyKeyB"));
    assert_eq!(accounts[1].quota_domain, "proj-beta");
}

#[test]
fn test_parse_keys_pool_resilient_formats() {
    let raw = r#"[ "AIzaKey1", "AIzaKey2" ]"#;
    let accounts = parse_keys_pool(raw);
    assert_eq!(accounts.len(), 2);
    assert_eq!(accounts[0].direct_key.as_deref(), Some("AIzaKey1"));
    assert_eq!(accounts[1].direct_key.as_deref(), Some("AIzaKey2"));

    let single_kv = "GEMINI_KEYS_POOL = AIzaKeySingle";
    let accounts2 = parse_keys_pool(single_kv);
    assert_eq!(accounts2.len(), 1);
    assert_eq!(accounts2[0].direct_key.as_deref(), Some("AIzaKeySingle"));
}

#[test]
fn test_parse_keys_pool_space_separated() {
    let raw = "AIzaSyKey1 AIzaSyKey2 AIzaSyKey3";
    let accounts = parse_keys_pool(raw);
    assert_eq!(accounts.len(), 3);
    assert_eq!(accounts[0].direct_key.as_deref(), Some("AIzaSyKey1"));
    assert_eq!(accounts[1].direct_key.as_deref(), Some("AIzaSyKey2"));
    assert_eq!(accounts[2].direct_key.as_deref(), Some("AIzaSyKey3"));
}

#[test]
fn test_parse_keys_pool_aq_prefix_keys() {
    let raw = "AQ.MockTestKeySample00000000000000000000000000000000001, AQ.MockTestKeySample00000000000000000000000000000000002";
    let accounts = parse_keys_pool(raw);
    assert_eq!(accounts.len(), 2);
    assert_eq!(
        accounts[0].direct_key.as_deref(),
        Some("AQ.MockTestKeySample00000000000000000000000000000000001")
    );
    assert_eq!(
        accounts[1].direct_key.as_deref(),
        Some("AQ.MockTestKeySample00000000000000000000000000000000002")
    );
}

#[test]
fn pool_accounts_are_numbered_with_default_limits() {
    let accounts = parse_keys_pool("AIzaA\nAIzaB");
    assert_eq!(accounts.len(), 2);
    assert_eq!(accounts[0].id, "pool_0001");
    assert_eq!(accounts[1].id, "pool_0002");
    assert_eq!(accounts[0].secret_name, "GEMINI_KEYS_POOL");
    assert_eq!(accounts[0].quota_domain, "pool-domain-0001");
    assert_eq!(accounts[1].quota_domain, "pool-domain-0002");
    assert!(accounts[0].enabled);
    assert_eq!(accounts[0].rpm_limit, Some(15));
    assert_eq!(accounts[0].tpm_limit, Some(1_000_000));
    assert_eq!(accounts[0].rpd_limit, Some(1_500));
}

#[test]
fn empty_pool_gives_no_accounts() {
    assert!(parse_keys_pool("").is_empty());
    assert!(parse_keys_pool("   \n\t ").is_empty());
}

#[test]
fn single_json_object_pool() {
    let accounts = parse_keys_pool(r#"{"api_key": "AIzaObj", "project": "proj-x"}"#);
    assert_eq!(accounts.len(), 1);
    assert_eq!(accounts[0].id, "pool_0001");
    assert_eq!(accounts[0].direct_key.as_deref(), Some("AIzaObj"));
    assert_eq!(accounts[0].quota_domain, "proj-x");

    let no_domain = parse_keys_pool(r#"{"gemini_key": "AIzaObj2"}"#);
    assert_eq!(no_domain.len(), 1);
    assert_eq!(no_domain[0].quota_domain, "pool-domain-0001");
}

#[test]
fn json_objects_without_domain_get_numbered_domain() {
    let accounts = parse_keys_pool(r#"[{"key": "AIzaK1"}, {"key": "AIzaK2", "project": "p"}]"#);
    assert_eq!(accounts.len(), 2);
    assert_eq!(accounts[0].quota_domain, "pool-domain-0001");
    assert_eq!(accounts[1].quota_domain, "p");
}

#[test]
fn joined_keys_are_split_apart() {
    let raw = "AIza.first.key.00000000000000000AIza.second.key.0000000000000000";
    let tokens = split_raw_into_tokens(raw);
    assert_eq!(
        tokens,
        vec![
            "AIza.first.key.00000000000000000".to_string(),
            "AIza.second.key.0000000000000000".to_string()
        ]
    );
}

#[test]
fn placeholder_tokens_are_dropped() {
    assert_eq!(sanitize_token("  replace_me "), None);
    assert_eq!(sanitize_token("GEMINI_KEYS_POOL"), None);
    assert_eq!(sanitize_token("api_key"), None);
    assert_eq!(sanitize_token(""), None);
    assert_eq!(sanitize_token("\"[AIzaQuoted]\","), Some("AIzaQuoted".to_string()));
    assert_eq!(sanitize_token("api_key: AIzaAfterColon"), Some("AIzaAfterColon".to_string()));
    assert_eq!(sanitize_token("x = AIzaAfterEq"), Some("AIzaAfterEq".to_string()));
    assert_eq!(sanitize_token("host: value"), Some("host: value".to_string()));
}

#[test]
fn template_accounts_are_numbered() {
    let accounts = default_accounts();
    assert_eq!(accounts.len(), 20);
    assert_eq!(accounts[19].id, "p20");
    assert_eq!(accounts[19].secret_name, "GEMINI_KEY_20");
    assert_eq!(accounts[19].quota_domain, "project-20");
    assert_eq!(numbered("pool_", 7, 4), "pool_0007");
}

#[test]
fn secret_values_are_screened() {
    assert!(is_usable_secret("AIzaReal"));
    assert!(!is_usable_secret(""));
    assert!(!is_usable_secret("   "));
    assert!(!is_usable_secret("replace_me"));
    assert!(is_configured_secret("AIzaReal"));
    assert!(!is_configured_secret("replace_me"));
    assert!(!is_configured_secret(""));
}

fn discrete(id: &str) -> AccountConfig {
    AccountConfig {
        id: id.to_string(),
        secret_name: "GEMINI_KEY_01".to_string(),
        direct_key: None,
        quota_domain: "project-01".to_string(),
        enabled: true,
        rpm_limit: None,
        tpm_limit: None,
        rpd_limit: None,
    }
}

#[test]
fn active_accounts_renumbers_what_was_found() {
    let pool = parse_keys_pool("AIzaA AIzaB");
    let found = vec![discrete("p01")];
    let templates = default_accounts();
    let active = active_accounts(pool, found, &templates);
    assert_eq!(active.len(), 3);
    assert_eq!(active[0].id, "acc_0001");
    assert_eq!(active[1].id, "acc_0002");
    assert_eq!(active[2].id, "acc_0003");
    assert_eq!(active[2].secret_name, "GEMINI_KEY_01");
    assert_eq!(active[0].direct_key.as_deref(), Some("AIzaA"));
}

#[test]
fn active_accounts_falls_back_to_five_templates() {
    let templates = default_accounts();
    let active = active_accounts(Vec::new(), Vec::new(), &templates);
    assert_eq!(active.len(), 5);
    assert_eq!(active[0].id, "p01");
    assert_eq!(active[4].id, "p05");
}

#[test]
fn json_entries_with_non_string_fields_fall_back_to_text() {
    // A numeric "project" makes the JSON reading fail, as a typed entry would;
    // the text is then split as plain text.
    let accounts = parse_keys_pool(r#"[{"key": "AIzaNum", "project": 7}]"#);
    assert!(accounts.iter().all(|a| a.quota_domain.starts_with("pool-domain-")));
    let with_null = parse_keys_pool(r#"[{"key": "AIzaNull", "project": null}]"#);
    assert_eq!(with_null.len(), 1);
    assert_eq!(with_null[0].direct_key.as_deref(), Some("AIzaNull"));
    assert_eq!(with_null[0].quota_domain, "pool-domain-0001");
}
