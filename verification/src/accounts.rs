//! Runtime state of one upstream account: health, cooldowns and counters.
use vstd::prelude::*;
use crate::config::{AccountConfig, clone_opt_string, clone_string, opt_str_view};

verus! {

#[derive(Debug, PartialEq)]
pub enum AccountHealth {
    Healthy,
    Cooldown { until_ms: u64, reason: String },
    Disabled { reason: String },
}

pub enum HealthView {
    Healthy,
    Cooldown { until_ms: u64, reason: Seq<char> },
    Disabled { reason: Seq<char> },
}

impl View for AccountHealth {
    type V = HealthView;

    open spec fn view(&self) -> HealthView {
        match self {
            AccountHealth::Healthy => HealthView::Healthy,
            AccountHealth::Cooldown { until_ms, reason } => HealthView::Cooldown {
                until_ms: *until_ms,
                reason: reason@,
            },
            AccountHealth::Disabled { reason } => HealthView::Disabled { reason: reason@ },
        }
    }
}

#[derive(Debug)]
pub struct AccountRuntimeState {
    pub id: String,
    pub secret_name: String,
    pub quota_domain: String,
    pub enabled: bool,
    pub rpm_limit: Option<u32>,
    pub tpm_limit: Option<u32>,
    pub rpd_limit: Option<u32>,
    pub health: AccountHealth,
    pub consecutive_failures: u32,
    pub success_count: u64,
    pub failure_count: u64,
    pub last_used_ms: u64,
    pub last_error: Option<String>,
    pub last_error_class: Option<String>,
}

pub struct AccountView {
    pub id: Seq<char>,
    pub secret_name: Seq<char>,
    pub quota_domain: Seq<char>,
    pub enabled: bool,
    pub rpm_limit: Option<u32>,
    pub tpm_limit: Option<u32>,
    pub rpd_limit: Option<u32>,
    pub health: HealthView,
    pub consecutive_failures: u32,
    pub success_count: u64,
    pub failure_count: u64,
    pub last_used_ms: u64,
    pub last_error: Option<Seq<char>>,
    pub last_error_class: Option<Seq<char>>,
}

impl View for AccountRuntimeState {
    type V = AccountView;

    open spec fn view(&self) -> AccountView {
        AccountView {
            id: self.id@,
            secret_name: self.secret_name@,
            quota_domain: self.quota_domain@,
            enabled: self.enabled,
            rpm_limit: self.rpm_limit,
            tpm_limit: self.tpm_limit,
            rpd_limit: self.rpd_limit,
            health: self.health@,
            consecutive_failures: self.consecutive_failures,
            success_count: self.success_count,
            failure_count: self.failure_count,
            last_used_ms: self.last_used_ms,
            last_error: opt_str_view(self.last_error),
            last_error_class: opt_str_view(self.last_error_class),
        }
    }
}

/// `a + b`, or `u64::MAX` when that does not fit.
pub open spec fn sat_add(a: u64, b: u64) -> u64 {
    if a + b > u64::MAX {
        u64::MAX
    } else {
        (a + b) as u64
    }
}

pub fn saturating_add(a: u64, b: u64) -> (r: u64)
    ensures
        r == sat_add(a, b),
{
    if a > u64::MAX - b {
        u64::MAX
    } else {
        a + b
    }
}

/// The state an account starts in.
pub open spec fn initial_state(cfg: crate::config::AccountConfigView) -> AccountView {
    AccountView {
        id: cfg.id,
        secret_name: cfg.secret_name,
        quota_domain: cfg.quota_domain,
        enabled: cfg.enabled,
        rpm_limit: cfg.rpm_limit,
        tpm_limit: cfg.tpm_limit,
        rpd_limit: cfg.rpd_limit,
        health: if cfg.enabled {
            HealthView::Healthy
        } else {
            HealthView::Disabled { reason: "Configured disabled"@ }
        },
        consecutive_failures: 0,
        success_count: 0,
        failure_count: 0,
        last_used_ms: 0,
        last_error: None,
        last_error_class: None,
    }
}

/// The account may serve a request at `now`.
pub open spec fn available(a: AccountView, now: u64) -> bool {
    a.enabled && match a.health {
        HealthView::Healthy => true,
        HealthView::Cooldown { until_ms, .. } => now >= until_ms,
        HealthView::Disabled { .. } => false,
    }
}

/// A cooldown that has run out by `now` returns the account to health.
pub open spec fn expired(a: AccountView, now: u64) -> AccountView {
    match a.health {
        HealthView::Cooldown { until_ms, .. } => if now >= until_ms {
            AccountView { health: HealthView::Healthy, consecutive_failures: 0, ..a }
        } else {
            a
        },
        _ => a,
    }
}

pub open spec fn after_success(a: AccountView, now: u64) -> AccountView {
    AccountView {
        health: HealthView::Healthy,
        consecutive_failures: 0,
        success_count: (a.success_count + 1) as u64,
        last_used_ms: now,
        last_error: None,
        last_error_class: None,
        ..a
    }
}

pub open spec fn after_cooldown(
    a: AccountView,
    reason: Seq<char>,
    duration_ms: u64,
    now: u64,
    error_class: Seq<char>,
) -> AccountView {
    AccountView {
        consecutive_failures: (a.consecutive_failures + 1) as u32,
        failure_count: (a.failure_count + 1) as u64,
        last_error: Some(reason),
        last_error_class: Some(error_class),
        health: HealthView::Cooldown { until_ms: sat_add(now, duration_ms), reason },
        ..a
    }
}

pub open spec fn after_disable(a: AccountView, reason: Seq<char>) -> AccountView {
    AccountView {
        enabled: false,
        health: HealthView::Disabled { reason },
        last_error: Some(reason),
        last_error_class: Some("PERMANENT_AUTH_FAILURE"@),
        ..a
    }
}

/// The counters can take one more success and one more failure.
pub open spec fn has_room(a: AccountView) -> bool {
    a.success_count < u64::MAX && a.failure_count < u64::MAX && a.consecutive_failures < u32::MAX
}

impl AccountRuntimeState {
    pub fn from_config(cfg: &AccountConfig) -> (s: Self)
        ensures
            s@ == initial_state(cfg@),
    {
        let health = if cfg.enabled {
            AccountHealth::Healthy
        } else {
            AccountHealth::Disabled { reason: "Configured disabled".to_owned() }
        };
        AccountRuntimeState {
            id: clone_string(&cfg.id),
            secret_name: clone_string(&cfg.secret_name),
            quota_domain: clone_string(&cfg.quota_domain),
            enabled: cfg.enabled,
            rpm_limit: cfg.rpm_limit,
            tpm_limit: cfg.tpm_limit,
            rpd_limit: cfg.rpd_limit,
            health,
            consecutive_failures: 0,
            success_count: 0,
            failure_count: 0,
            last_used_ms: 0,
            last_error: None,
            last_error_class: None,
        }
    }

    pub fn is_available(&self, current_time_ms: u64) -> (b: bool)
        ensures
            b == available(self@, current_time_ms),
    {
        if !self.enabled {
            return false;
        }
        match &self.health {
            AccountHealth::Healthy => true,
            AccountHealth::Cooldown { until_ms, .. } => current_time_ms >= *until_ms,
            AccountHealth::Disabled { .. } => false,
        }
    }

    pub fn check_cooldown_expiry(&mut self, current_time_ms: u64)
        ensures
            final(self)@ == expired(old(self)@, current_time_ms),
    {
        let expired_now = match &self.health {
            AccountHealth::Cooldown { until_ms, .. } => current_time_ms >= *until_ms,
            _ => false,
        };
        if expired_now {
            self.health = AccountHealth::Healthy;
            self.consecutive_failures = 0;
        }
    }

    pub fn record_success(&mut self, current_time_ms: u64)
        requires
            old(self).success_count < u64::MAX,
        ensures
            final(self)@ == after_success(old(self)@, current_time_ms),
    {
        self.health = AccountHealth::Healthy;
        self.consecutive_failures = 0;
        self.success_count = self.success_count + 1;
        self.last_used_ms = current_time_ms;
        self.last_error = None;
        self.last_error_class = None;
    }

    pub fn record_cooldown(
        &mut self,
        reason: &str,
        duration_ms: u64,
        current_time_ms: u64,
        error_class: &str,
    )
        requires
            old(self).consecutive_failures < u32::MAX,
            old(self).failure_count < u64::MAX,
        ensures
            final(self)@ == after_cooldown(
                old(self)@,
                reason@,
                duration_ms,
                current_time_ms,
                error_class@,
            ),
    {
        self.consecutive_failures = self.consecutive_failures + 1;
        self.failure_count = self.failure_count + 1;
        self.last_error = Some(reason.to_owned());
        self.last_error_class = Some(error_class.to_owned());
        self.health = AccountHealth::Cooldown {
            until_ms: saturating_add(current_time_ms, duration_ms),
            reason: reason.to_owned(),
        };
    }

    pub fn disable(&mut self, reason: &str)
        ensures
            final(self)@ == after_disable(old(self)@, reason@),
    {
        self.enabled = false;
        self.health = AccountHealth::Disabled { reason: reason.to_owned() };
        self.last_error = Some(reason.to_owned());
        self.last_error_class = Some("PERMANENT_AUTH_FAILURE".to_owned());
    }
}

impl Clone for AccountHealth {
    fn clone(&self) -> (r: Self)
        ensures
            r@ == self@,
    {
        match self {
            AccountHealth::Healthy => AccountHealth::Healthy,
            AccountHealth::Cooldown { until_ms, reason } => AccountHealth::Cooldown {
                until_ms: *until_ms,
                reason: reason.clone(),
            },
            AccountHealth::Disabled { reason } => AccountHealth::Disabled { reason: reason.clone() },
        }
    }
}

impl Clone for AccountRuntimeState {
    fn clone(&self) -> (r: Self)
        ensures
            r@ == self@,
    {
        AccountRuntimeState {
            id: self.id.clone(),
            secret_name: self.secret_name.clone(),
            quota_domain: self.quota_domain.clone(),
            enabled: self.enabled,
            rpm_limit: self.rpm_limit,
            tpm_limit: self.tpm_limit,
            rpd_limit: self.rpd_limit,
            health: self.health.clone(),
            consecutive_failures: self.consecutive_failures,
            success_count: self.success_count,
            failure_count: self.failure_count,
            last_used_ms: self.last_used_ms,
            last_error: clone_opt_string(&self.last_error),
            last_error_class: clone_opt_string(&self.last_error_class),
        }
    }
}

} // verus!
