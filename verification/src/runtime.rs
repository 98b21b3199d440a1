//! What the gateway takes from its runtime environment: variables that
//! override the configuration, the key pool, discrete account secrets and
//! the API key of the account a request goes out on.
use vstd::prelude::*;
use crate::config::{
    AccountConfig, AccountConfigView, AppConfig, accounts_view, active_accounts,
    active_accounts_spec, clone_opt_string, clone_string, configured_secret, is_configured_secret, is_usable_secret, opt_str_view,
    parse_keys_pool, parse_keys_pool_spec, usable_secret,
};
use crate::error::GatewayError;
use crate::upstream::UpstreamClient;
use crate::text::{chars_of, concat, eq_str, trim, trim_chars};

verus! {

/// `"true"` and `"false"` read as booleans; anything else does not.
pub open spec fn parse_bool_spec(s: Seq<char>) -> Option<bool> {
    if s == "true"@ {
        Some(true)
    } else if s == "false"@ {
        Some(false)
    } else {
        None
    }
}

pub fn parse_bool(s: &str) -> (r: Option<bool>)
    ensures
        r == parse_bool_spec(s@),
{
    let v = chars_of(s);
    if eq_str(&v, "true") {
        Some(true)
    } else if eq_str(&v, "false") {
        Some(false)
    } else {
        None
    }
}

/// The runtime variables that override the configuration, each as read when set.
#[derive(Debug)]
pub struct EnvOverrides {
    /// `PRIMARY_MODEL`.
    pub primary_model: Option<String>,
    /// `THINKING_LEVEL`.
    pub thinking_level: Option<String>,
    /// `FORCE_MODEL`.
    pub force_model: Option<String>,
    /// `SMART_ROUTER_ENABLED`.
    pub smart_router_enabled: Option<String>,
    /// `BASE_PATH`.
    pub base_path: Option<String>,
    /// The accounts of `ACCOUNTS_CONFIG_TOML`, when it is set and parses.
    pub accounts: Option<Vec<AccountConfig>>,
}

/// A text setting after an override: the variable's value when it is set.
pub open spec fn text_override(old: Seq<char>, var: Option<String>) -> Seq<char> {
    match var {
        Some(v) => v@,
        None => old,
    }
}

/// A boolean setting after an override: the variable's value when it reads as a boolean.
pub open spec fn bool_override(old: bool, var: Option<String>) -> bool {
    match var {
        Some(v) => match parse_bool_spec(v@) {
            Some(b) => b,
            None => old,
        },
        None => old,
    }
}

/// The account list after an override: replaced only by a non-empty list.
pub open spec fn accounts_override(
    old: Seq<AccountConfigView>,
    var: Option<Vec<AccountConfig>>,
) -> Seq<AccountConfigView> {
    match var {
        Some(a) => if a@.len() > 0 {
            accounts_view(a@)
        } else {
            old
        },
        None => old,
    }
}

fn override_text(target: &mut String, var: Option<String>)
    ensures
        final(target)@ == text_override(old(target)@, var),
{
    match var {
        Some(v) => {
            *target = v;
        },
        None => {},
    }
}

fn override_bool(target: &mut bool, var: Option<String>)
    ensures
        *final(target) == bool_override(*old(target), var),
{
    match var {
        Some(v) => match parse_bool(v.as_str()) {
            Some(b) => {
                *target = b;
            },
            None => {},
        },
        None => {},
    }
}

impl AppConfig {
    /// Applies the runtime overrides; every setting they do not name is kept.
    pub fn apply_env_overrides(&mut self, vars: EnvOverrides)
        ensures
            final(self).model.primary@ == text_override(old(self).model.primary@, vars.primary_model),
            final(self).model.thinking_level@ == text_override(
                old(self).model.thinking_level@,
                vars.thinking_level,
            ),
            final(self).model.force_model == bool_override(old(self).model.force_model, vars.force_model),
            final(self).smart_router.enabled == bool_override(
                old(self).smart_router.enabled,
                vars.smart_router_enabled,
            ),
            final(self).server.base_path@ == text_override(old(self).server.base_path@, vars.base_path),
            accounts_view(final(self).accounts@) == accounts_override(
                accounts_view(old(self).accounts@),
                vars.accounts,
            ),
            final(self).server.max_body_bytes == old(self).server.max_body_bytes,
            final(self).model.aliases == old(self).model.aliases,
            final(self).upstream == old(self).upstream,
            final(self).smart_router.classifier_model == old(self).smart_router.classifier_model,
            final(self).smart_router.lite_model == old(self).smart_router.lite_model,
            final(self).smart_router.primary_model == old(self).smart_router.primary_model,
            final(self).smart_router.min_confidence_permille == old(
                self,
            ).smart_router.min_confidence_permille,
            final(self).retry == old(self).retry,
            final(self).cooldown == old(self).cooldown,
            final(self).streaming == old(self).streaming,
            final(self).security == old(self).security,
    {
        let EnvOverrides {
            primary_model,
            thinking_level,
            force_model,
            smart_router_enabled,
            base_path,
            accounts,
        } = vars;
        override_text(&mut self.model.primary, primary_model);
        override_text(&mut self.model.thinking_level, thinking_level);
        override_bool(&mut self.model.force_model, force_model);
        override_bool(&mut self.smart_router.enabled, smart_router_enabled);
        override_text(&mut self.server.base_path, base_path);
        match accounts {
            Some(a) => {
                if a.len() > 0 {
                    self.accounts = a;
                }
            },
            None => {},
        }
    }
}

/// The value the runtime holds under one name: the secret when there is one,
/// else the plain variable.
pub open spec fn looked_up(secret: Option<String>, var: Option<String>) -> Option<Seq<char>> {
    match secret {
        Some(s) => Some(s@),
        None => opt_str_view(var),
    }
}

/// A discrete account is served when it is enabled and its secret is configured.
pub open spec fn discrete_spec(
    accounts: Seq<AccountConfigView>,
    values: Seq<(Option<String>, Option<String>)>,
) -> Seq<AccountConfigView>
    decreases accounts.len(),
{
    if accounts.len() == 0 {
        seq![]
    } else {
        let i = accounts.len() - 1;
        let prev = discrete_spec(accounts.drop_last(), values);
        let served = accounts.last().enabled && i < values.len() && (looked_up(values[i].0, values[i].1) matches Some(
            v,
        ) && configured_secret(v));
        if served {
            prev.push(accounts.last())
        } else {
            prev
        }
    }
}

/// The configured accounts whose secrets are set, in order. `values[i]` holds
/// the secret and the variable found under the secret name of `accounts[i]`.
pub fn resolve_discrete_accounts(
    accounts: &Vec<AccountConfig>,
    values: &Vec<(Option<String>, Option<String>)>,
) -> (r: Vec<AccountConfig>)
    ensures
        accounts_view(r@) == discrete_spec(accounts_view(accounts@), values@),
{
    let mut r: Vec<AccountConfig> = Vec::new();
    let n = accounts.len();
    let mut i: usize = 0;
    while i < n
        invariant
            i <= n == accounts@.len(),
            accounts_view(r@) == discrete_spec(accounts_view(accounts@).take(i as int), values@),
        decreases n - i,
    {
        let ghost all = accounts_view(accounts@);
        assert(all.take(i + 1).drop_last() =~= all.take(i as int));
        let a = &accounts[i];
        let mut served = false;
        if a.enabled && i < values.len() {
            served = match &values[i].0 {
                Some(s) => is_configured_secret(s.as_str()),
                None => match &values[i].1 {
                    Some(v) => is_configured_secret(v.as_str()),
                    None => false,
                },
            };
        }
        if served {
            let ghost before = accounts_view(r@);
            r.push(a.clone());
            assert(accounts_view(r@) =~= before.push(a@));
        }
        i = i + 1;
    }
    assert(accounts_view(accounts@).take(n as int) =~= accounts_view(accounts@));
    r
}

/// A value that is set and not blank.
pub open spec fn nonblank(v: Option<String>) -> bool {
    v matches Some(s) && trim(s@).len() > 0
}

/// The key pool: the first non-blank value among the candidates, each
/// candidate's secret before its plain variable.
pub open spec fn pool_value_spec(c: Seq<(Option<String>, Option<String>)>) -> Option<Seq<char>>
    decreases c.len(),
{
    if c.len() == 0 {
        None
    } else if nonblank(c[0].0) {
        opt_str_view(c[0].0)
    } else if nonblank(c[0].1) {
        opt_str_view(c[0].1)
    } else {
        pool_value_spec(c.drop_first())
    }
}

fn is_nonblank(v: &Option<String>) -> (b: bool)
    ensures
        b == nonblank(*v),
{
    match v {
        Some(s) => trim_chars(&chars_of(s.as_str())).len() > 0,
        None => false,
    }
}

/// Picks the key pool among the values found under the pool's names (see `pool_value_spec`).
pub fn pick_pool_value(candidates: &Vec<(Option<String>, Option<String>)>) -> (r: Option<String>)
    ensures
        opt_str_view(r) == pool_value_spec(candidates@),
{
    let n = candidates.len();
    let mut i: usize = 0;
    assert(candidates@.skip(0) =~= candidates@);
    while i < n
        invariant
            i <= n == candidates@.len(),
            pool_value_spec(candidates@) == pool_value_spec(candidates@.skip(i as int)),
        decreases n - i,
    {
        assert(candidates@.skip(i as int).drop_first() =~= candidates@.skip(i + 1));
        assert(candidates@.skip(i as int)[0] == candidates@[i as int]);
        if is_nonblank(&candidates[i].0) {
            return clone_opt_string(&candidates[i].0);
        }
        if is_nonblank(&candidates[i].1) {
            return clone_opt_string(&candidates[i].1);
        }
        i = i + 1;
    }
    None
}

/// The accounts the gateway serves with, from the key pool (if any) and the
/// configured accounts whose secrets are set; with neither, the first five
/// configured accounts.
pub open spec fn serving_accounts_spec(
    pool: Seq<(Option<String>, Option<String>)>,
    accounts: Seq<AccountConfigView>,
    values: Seq<(Option<String>, Option<String>)>,
) -> Seq<AccountConfigView> {
    let pooled = match pool_value_spec(pool) {
        Some(v) => parse_keys_pool_spec(v),
        None => seq![],
    };
    active_accounts_spec(pooled + discrete_spec(accounts, values), accounts)
}

pub fn resolve_serving_accounts(
    pool_candidates: &Vec<(Option<String>, Option<String>)>,
    accounts: &Vec<AccountConfig>,
    values: &Vec<(Option<String>, Option<String>)>,
) -> (r: Vec<AccountConfig>)
    ensures
        accounts_view(r@) == serving_accounts_spec(pool_candidates@, accounts_view(accounts@), values@),
{
    let pooled = match pick_pool_value(pool_candidates) {
        Some(v) => parse_keys_pool(v.as_str()),
        None => {
            let e: Vec<AccountConfig> = Vec::new();
            assert(accounts_view(e@) =~= Seq::<AccountConfigView>::empty());
            e
        },
    };
    let discrete = resolve_discrete_accounts(accounts, values);
    active_accounts(pooled, discrete, accounts)
}

/// What the API key lookup gives: the secret when it is usable, else the plain
/// variable when it is usable.
pub open spec fn api_key_spec(secret: Option<String>, var: Option<String>) -> Option<Seq<char>> {
    if secret matches Some(s) && usable_secret(s@) {
        Some(secret.unwrap()@)
    } else if var matches Some(v) && usable_secret(v@) {
        Some(var.unwrap()@)
    } else {
        None
    }
}

pub open spec fn missing_key_message(secret_name: Seq<char>) -> Seq<char> {
    "Cloudflare Secret '"@ + secret_name + "' is missing or unconfigured in Worker runtime"@
}

impl UpstreamClient {
    /// The API key of an account, from the secret and the plain variable found
    /// under its secret name; a 500 when neither holds a usable key.
    pub fn resolve_api_key(secret: Option<String>, var: Option<String>, secret_name: &str) -> (r:
        Result<String, GatewayError>)
        ensures
            match api_key_spec(secret, var) {
                Some(k) => r matches Ok(key) && key@ == k,
                None => r matches Err(GatewayError::Internal(m)) && m@ == missing_key_message(
                    secret_name@,
                ),
            },
    {
        if let Some(s) = &secret {
            if is_usable_secret(s.as_str()) {
                return Ok(clone_string(s));
            }
        }
        if let Some(v) = &var {
            if is_usable_secret(v.as_str()) {
                return Ok(clone_string(v));
            }
        }
        let a = concat("Cloudflare Secret '", secret_name);
        Err(GatewayError::Internal(concat(a.as_str(), "' is missing or unconfigured in Worker runtime")))
    }
}

} // verus!
