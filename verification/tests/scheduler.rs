use gemini_openai_gateway::accounts::AccountHealth;
use gemini_openai_gateway::config::AccountConfig;
use gemini_openai_gateway::error::GatewayError;
use gemini_openai_gateway::scheduler::{AccountScheduler, LruQuotaScheduler};

fn account(id: &str, secret: &str, domain: &str) -> AccountConfig {
    AccountConfig {
        id: id.to_string(),
        secret_name: secret.to_string(),
        direct_key: None,
        quota_domain: domain.to_string(),
        enabled: true,
        rpm_limit: None,
        tpm_limit: None,
        rpd_limit: None,
    }
}

fn sample_accounts() -> Vec<AccountConfig> {
    vec![
        account("p01", "GEMINI_KEY_01", "project-a"),
        account("p02", "GEMINI_KEY_02", "project-a"),
        account("p03", "GEMINI_KEY_03", "project-b"),
    ]
}

#[test]
fn test_lru_selection_and_success_rotation() {
    let accounts = sample_accounts();
    let mut scheduler = LruQuotaScheduler::new(&accounts);

    let acc1 = scheduler.select_account(1000).expect("Should pick account");
    assert_eq!(acc1.id, "p01");
    scheduler.report_success(&acc1.id, 1000);

    let acc2 = scheduler.select_account(1001).expect("Should pick account");
    assert_ne!(acc2.id, "p01");
}

#[test]
fn test_quota_domain_cooldown_isolates_sister_accounts() {
    let accounts = sample_accounts();
    let mut scheduler = LruQuotaScheduler::new(&accounts);

    scheduler.report_cooldown("p01", "Rate limit", 30_000, 1000, "RATE_LIMIT_429");

    let acc = scheduler.select_account(1001).expect("Should pick available project-b account");
    assert_eq!(acc.id, "p03");
    assert_eq!(acc.quota_domain, "project-b");
}

#[test]
fn test_cooldown_expiration_restores_health() {
    let accounts = sample_accounts();
    let mut scheduler = LruQuotaScheduler::new(&accounts);

    scheduler.report_cooldown("p01", "503 Error", 10_000, 1000, "SERVER_ERROR_5XX");

    let _ = scheduler.select_account(12_000).expect("Should succeed");
    let states = scheduler.get_account_states();
    let p01 = states.iter().find(|a| a.id == "p01").unwrap();
    assert_eq!(p01.health, AccountHealth::Healthy);
}

#[test]
fn test_all_accounts_exhausted() {
    let accounts = vec![account("only_one", "KEY", "domain")];
    let mut scheduler = LruQuotaScheduler::new(&accounts);

    scheduler.report_cooldown("only_one", "Rate limit", 60_000, 1000, "RATE_LIMIT_429");

    let res = scheduler.select_account(1001);
    assert!(res.is_err());
}

#[test]
fn success_rotates_through_every_account() {
    let accounts = sample_accounts();
    let mut scheduler = LruQuotaScheduler::new(&accounts);
    let a = scheduler.select_account(10).unwrap();
    scheduler.report_success(&a.id, 10);
    let b = scheduler.select_account(11).unwrap();
    scheduler.report_success(&b.id, 11);
    let c = scheduler.select_account(12).unwrap();
    scheduler.report_success(&c.id, 12);
    assert_eq!(a.id, "p01");
    assert_eq!(b.id, "p02");
    assert_eq!(c.id, "p03");
    let d = scheduler.select_account(13).unwrap();
    assert_eq!(d.id, "p01");
}

#[test]
fn server_error_cools_only_that_account() {
    let accounts = sample_accounts();
    let mut scheduler = LruQuotaScheduler::new(&accounts);
    scheduler.report_cooldown("p01", "503", 10_000, 1000, "SERVER_ERROR_5XX");
    let acc = scheduler.select_account(1001).unwrap();
    assert_eq!(acc.id, "p02");
    let states = scheduler.get_account_states();
    assert_eq!(
        states[0].health,
        AccountHealth::Cooldown { until_ms: 11_000, reason: "503".to_string() }
    );
    assert_eq!(states[0].consecutive_failures, 1);
    assert_eq!(states[0].failure_count, 1);
    assert_eq!(states[0].last_error.as_deref(), Some("503"));
    assert_eq!(states[0].last_error_class.as_deref(), Some("SERVER_ERROR_5XX"));
}

#[test]
fn cooled_account_comes_back_at_the_exact_end() {
    let accounts = vec![account("solo", "K", "d")];
    let mut scheduler = LruQuotaScheduler::new(&accounts);
    scheduler.report_cooldown("solo", "503", 5_000, 1_000, "SERVER_ERROR_5XX");
    assert!(scheduler.select_account(5_999).is_err());
    assert_eq!(scheduler.select_account(6_000).unwrap().id, "solo");
}

#[test]
fn auth_failure_disables_for_good() {
    let accounts = vec![account("solo", "K", "d")];
    let mut scheduler = LruQuotaScheduler::new(&accounts);
    scheduler.report_permanent_auth_failure("solo", "bad key");
    match scheduler.select_account(u64::MAX) {
        Err(GatewayError::AllAccountsExhausted(m)) => assert_eq!(
            m,
            "All upstream accounts or quota domains are currently in cooldown or disabled"
        ),
        other => panic!("unexpected {:?}", other),
    }
    let states = scheduler.get_account_states();
    assert_eq!(states[0].health, AccountHealth::Disabled { reason: "bad key".to_string() });
}

#[test]
fn quota_domain_report_blocks_the_domain() {
    let accounts = sample_accounts();
    let mut scheduler = LruQuotaScheduler::new(&accounts);
    scheduler.report_quota_domain_cooldown("project-b", "quota", 1_000, 100);
    assert_eq!(scheduler.select_account(200).unwrap().id, "p01");
    scheduler.report_quota_domain_cooldown("project-a", "quota", 1_000, 100);
    assert!(scheduler.select_account(500).is_err());
    assert_eq!(scheduler.select_account(1_100).unwrap().id, "p01");
}

#[test]
fn disabled_configs_are_never_chosen() {
    let mut off = account("off", "K0", "d0");
    off.enabled = false;
    let accounts = vec![off, account("on", "K1", "d1")];
    let mut scheduler = LruQuotaScheduler::new(&accounts);
    assert_eq!(scheduler.select_account(0).unwrap().id, "on");
}

#[test]
fn unknown_account_reports_change_nothing() {
    let accounts = sample_accounts();
    let mut scheduler = LruQuotaScheduler::new(&accounts);
    scheduler.report_success("nobody", 5);
    scheduler.report_cooldown("nobody", "x", 100, 5, "RATE_LIMIT_429");
    scheduler.report_permanent_auth_failure("nobody", "x");
    let states = scheduler.get_account_states();
    assert_eq!(states.len(), 3);
    for s in &states {
        assert_eq!(s.health, AccountHealth::Healthy);
        assert_eq!(s.success_count, 0);
    }
    assert_eq!(scheduler.select_account(6).unwrap().id, "p01");
}

#[test]
fn success_resets_consecutive_failures() {
    let accounts = vec![account("solo", "K", "d")];
    let mut scheduler = LruQuotaScheduler::new(&accounts);
    scheduler.report_cooldown("solo", "503", 10, 0, "SERVER_ERROR_5XX");
    scheduler.report_success("solo", 50);
    let states = scheduler.get_account_states();
    assert_eq!(states[0].consecutive_failures, 0);
    assert_eq!(states[0].success_count, 1);
    assert_eq!(states[0].failure_count, 1);
    assert_eq!(states[0].last_used_ms, 50);
    assert_eq!(states[0].health, AccountHealth::Healthy);
}
