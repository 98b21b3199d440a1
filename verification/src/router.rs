//! Request routing and the decisions of the upstream retry loop.
//!
//! The loop itself (sending requests, awaiting responses, reading the clock)
//! runs outside; each step reports what happened and gets back what to do next.
use vstd::prelude::*;
use std::collections::HashMap;
use crate::config::{AppConfig, CooldownConfig, clone_string};
use crate::error::GatewayError;
use crate::retry::{
    ErrorClassification, FirstByteGuard, classified_as, classify_upstream_response,
    retry_after_pick,
};
use crate::scheduler::{
    AccountScheduler, AccountSnapshot, LruQuotaScheduler, SchedulerView, cooldown_spec,
    disable_spec, eligible, index_of_id, lemma_index_of_id, pruned, success_spec,
};
use crate::accounts::{HealthView, sat_add};
use crate::text::{chars_of, concat, decimal, decimal_string, string_of};
use crate::upstream::{trim_slashes, trim_trailing_slashes};

verus! {

#[derive(Debug, Clone, Copy, PartialEq, Eq, Structural)]
pub enum HttpMethod {
    Get,
    Post,
    Options,
    Other,
}

/// Where a request goes.
#[derive(Debug, Clone, Copy, PartialEq, Eq, Structural)]
pub enum Route {
    /// CORS preflight, answered without authentication.
    Preflight,
    /// The public health check.
    Health,
    /// `GET <base>/models`.
    Models,
    /// `POST <base>/chat/completions` or `POST <base>/responses`.
    ChatCompletions,
    NotFound,
}

/// The route of a request.
pub open spec fn route_spec(method: HttpMethod, path: Seq<char>, base_path: Seq<char>) -> Route {
    let base = trim_slashes(base_path);
    if method == HttpMethod::Options {
        Route::Preflight
    } else if (path == "/health"@ || path == "/"@) && method == HttpMethod::Get {
        Route::Health
    } else if path == base + "/models"@ && method == HttpMethod::Get {
        Route::Models
    } else if (path == base + "/chat/completions"@ || path == base + "/responses"@) && method
        == HttpMethod::Post {
        Route::ChatCompletions
    } else {
        Route::NotFound
    }
}

/// Whether a request on `route` must carry the proxy token: every route but the
/// preflight and the health check does, when the configuration asks for one.
pub fn requires_proxy_token(route: Route, require_proxy_token: bool) -> (b: bool)
    ensures
        b == (require_proxy_token && route != Route::Preflight && route != Route::Health),
{
    require_proxy_token && route != Route::Preflight && route != Route::Health
}

fn same(a: &String, b: &String) -> (r: bool)
    ensures
        r == (a@ == b@),
{
    *a == *b
}

pub fn route_request(method: HttpMethod, path: &str, base_path: &str) -> (r: Route)
    ensures
        r == route_spec(method, path@, base_path@),
{
    if method == HttpMethod::Options {
        return Route::Preflight;
    }
    let p = path.to_owned();
    if (same(&p, &"/health".to_owned()) || same(&p, &"/".to_owned())) && method == HttpMethod::Get {
        return Route::Health;
    }
    let base = trim_trailing_slashes(base_path);
    let models = concat(base.as_str(), "/models");
    let chat = concat(base.as_str(), "/chat/completions");
    let responses = concat(base.as_str(), "/responses");
    if same(&p, &models) && method == HttpMethod::Get {
        Route::Models
    } else if (same(&p, &chat) || same(&p, &responses)) && method == HttpMethod::Post {
        Route::ChatCompletions
    } else {
        Route::NotFound
    }
}

/// The 404 for a request that matches no route.
pub fn route_not_found(method_name: &str, path: &str) -> (e: GatewayError)
    ensures
        e matches GatewayError::NotFound(m) && m@ == "Route "@ + method_name@ + " "@ + path@
            + " not found"@,
{
    let a = concat("Route ", method_name);
    let b = concat(a.as_str(), " ");
    let c = concat(b.as_str(), path);
    GatewayError::NotFound(concat(c.as_str(), " not found"))
}

/// A request body larger than the limit is refused with 413 before it is parsed.
pub fn check_body_size(received_bytes: usize, max_bytes: usize) -> (r: Result<(), GatewayError>)
    ensures
        received_bytes <= max_bytes ==> r is Ok,
        received_bytes > max_bytes ==> r == Err::<(), GatewayError>(
            GatewayError::PayloadTooLarge { max_bytes, received_bytes },
        ),
{
    if received_bytes > max_bytes {
        Err(GatewayError::PayloadTooLarge { max_bytes, received_bytes })
    } else {
        Ok(())
    }
}

/// What to do after an upstream answer.
#[derive(Debug)]
pub enum AttemptVerdict {
    /// 2xx: stream the answer to the client.
    Deliver,
    /// A failure worth another attempt on another account.
    TryNext,
    /// A failure that ends the request with this error.
    GiveUp(GatewayError),
}

/// The state of the attempt loop for one chat request.
#[derive(Debug)]
pub struct RetryLoop {
    /// Attempts allowed in all (at least one).
    pub max_attempts: usize,
    /// Number of the next attempt (attempts are numbered from 1).
    pub next_attempt: usize,
    pub guard: FirstByteGuard,
    /// The error answered when no attempt succeeds.
    pub last_error: GatewayError,
    /// No further attempt will be made.
    pub finished: bool,
}

/// `e` is an upstream error with this status and message.
pub open spec fn upstream_error_is(e: GatewayError, status: u16, message: Seq<char>) -> bool {
    e matches GatewayError::UpstreamError { status: s, message: m } && s == status && m@ == message
}

/// Whether a failed attempt may be followed by another, and the status and
/// message of the error it leaves.
pub open spec fn failure_outcome(c: ErrorClassification, id: Seq<char>, status: u16) -> (bool, u16, Seq<char>) {
    match c {
        ErrorClassification::RetryableRateLimit { .. } => (
            true,
            429,
            "Upstream rate limit (429) on account "@ + id,
        ),
        ErrorClassification::RetryableServerError { status: s } => (
            true,
            s,
            "Upstream server error ("@ + decimal(s as nat) + ") on account "@ + id,
        ),
        ErrorClassification::PermanentAuthError { status: s, message: m } => (false, s, m@),
        ErrorClassification::PermanentClientError { status: s, message: m } => (false, s, m@),
        _ => (true, status, "Upstream error ("@ + decimal(status as nat) + ") on account "@ + id),
    }
}

/// What a failed attempt does to the accounts: a rate limit cools the account
/// (and its quota domain) for the `Retry-After` delay or the configured one, a
/// server error cools the account, an authentication failure disables it.
pub open spec fn failure_effect(
    s: SchedulerView,
    c: ErrorClassification,
    id: Seq<char>,
    cd: CooldownConfig,
    now: u64,
) -> SchedulerView {
    match c {
        ErrorClassification::RetryableRateLimit { retry_after_ms } => cooldown_spec(
            s,
            id,
            "429 Rate Limit"@,
            match retry_after_ms {
                Some(ms) => ms,
                None => cd.after_429_ms,
            },
            now,
            "RATE_LIMIT_429"@,
        ),
        ErrorClassification::RetryableServerError { .. } => cooldown_spec(
            s,
            id,
            "5xx Server Error"@,
            cd.after_5xx_ms,
            now,
            "SERVER_ERROR_5XX"@,
        ),
        ErrorClassification::PermanentAuthError { message, .. } => disable_spec(s, id, message@),
        _ => s,
    }
}

/// The loop's fields other than the error and the guard are unchanged.
pub open spec fn same_counters(a: RetryLoop, b: RetryLoop) -> bool {
    a.max_attempts == b.max_attempts && a.next_attempt == b.next_attempt && a.finished == b.finished
}

pub open spec fn is_success_status(status: u16) -> bool {
    200 <= status < 300
}

/// Another attempt may start: the loop is not over, attempts are left, and
/// nothing has been sent to the client yet.
pub open spec fn may_attempt(l: RetryLoop) -> bool {
    !l.finished && l.next_attempt <= l.max_attempts && !l.guard.first_byte_sent
}

/// Once the first byte of an answer has reached the client, no attempt is
/// started again: a request is never replayed.
pub proof fn law_no_replay_after_first_byte(l: RetryLoop)
    requires
        l.guard.first_byte_sent,
    ensures
        !may_attempt(l),
{
}

impl RetryLoop {
    pub fn new(configured_max_attempts: usize) -> (r: Self)
        ensures
            r.max_attempts == if configured_max_attempts < 1 {
                1
            } else {
                configured_max_attempts
            },
            r.next_attempt == 1,
            !r.finished,
            !r.guard.first_byte_sent,
            r.last_error matches GatewayError::Internal(m) && m@ == "No attempt made"@,
    {
        RetryLoop {
            max_attempts: if configured_max_attempts < 1 {
                1
            } else {
                configured_max_attempts
            },
            next_attempt: 1,
            guard: FirstByteGuard::new(),
            last_error: GatewayError::Internal("No attempt made".to_owned()),
            finished: false,
        }
    }

    /// Starts the next attempt and returns its number, or `None` when the loop is
    /// over: attempts used up, stopped, or the first byte already sent (no replay).
    pub fn begin_attempt(&mut self) -> (r: Option<usize>)
        ensures
            final(self).max_attempts == old(self).max_attempts,
            final(self).guard == old(self).guard,
            final(self).last_error == old(self).last_error,
            r is Some <==> may_attempt(*old(self)),
            r matches Some(k) ==> k <= final(self).max_attempts,
            !may_attempt(*old(self)) ==> r is None && final(self).finished
                && final(self).next_attempt == old(self).next_attempt,
            may_attempt(*old(self)) ==> r == Some(old(self).next_attempt) && if old(
                self,
            ).next_attempt < old(self).max_attempts {
                final(self).next_attempt == old(self).next_attempt + 1 && !final(self).finished
            } else {
                final(self).next_attempt == old(self).next_attempt && final(self).finished
            },
    {
        if self.finished || self.next_attempt > self.max_attempts || !self.guard.can_retry() {
            self.finished = true;
            return None;
        }
        let k = self.next_attempt;
        if k < self.max_attempts {
            self.next_attempt = k + 1;
        } else {
            self.finished = true;
        }
        Some(k)
    }

    /// No account could be selected: the loop ends with that error.
    pub fn on_no_account(&mut self, e: GatewayError)
        ensures
            final(self).finished,
            final(self).last_error == e,
            final(self).max_attempts == old(self).max_attempts,
            final(self).next_attempt == old(self).next_attempt,
            final(self).guard == old(self).guard,
    {
        self.last_error = e;
        self.finished = true;
    }

    /// The account's key is not configured: the account is disabled and the next one tried.
    pub fn on_missing_key(&mut self, sched: &mut LruQuotaScheduler, account: &AccountSnapshot, e: GatewayError)
        requires
            old(sched).inv(),
        ensures
            final(sched).inv(),
            final(sched)@ == disable_spec(
                old(sched)@,
                account.id@,
                "Secret missing in Worker runtime"@,
            ),
            final(self).last_error == e,
            same_counters(*final(self), *old(self)),
            final(self).guard == old(self).guard,
    {
        sched.report_permanent_auth_failure(account.id.as_str(), "Secret missing in Worker runtime");
        self.last_error = e;
    }

    /// The upstream could not be reached: the account cools down and the next one is tried.
    pub fn on_network_error(
        &mut self,
        sched: &mut LruQuotaScheduler,
        account: &AccountSnapshot,
        e: GatewayError,
        cooldown: &CooldownConfig,
        now: u64,
    )
        requires
            old(sched).inv(),
            old(sched).room(),
        ensures
            final(sched).inv(),
            final(sched)@ == cooldown_spec(
                old(sched)@,
                account.id@,
                "Network error"@,
                cooldown.after_network_error_ms,
                now,
                "NETWORK_ERROR"@,
            ),
            final(self).last_error == e,
            same_counters(*final(self), *old(self)),
            final(self).guard == old(self).guard,
    {
        sched.report_cooldown(
            account.id.as_str(),
            "Network error",
            cooldown.after_network_error_ms,
            now,
            "NETWORK_ERROR",
        );
        self.last_error = e;
    }

    /// The upstream answered with `status`: a 2xx is delivered (and the account
    /// credited); otherwise the failure is classified, the account cooled down or
    /// disabled as `failure_effect` says, and the request retried or given up.
    pub fn on_response(
        &mut self,
        sched: &mut LruQuotaScheduler,
        account: &AccountSnapshot,
        status: u16,
        headers: &HashMap<String, String>,
        config: &AppConfig,
        now: u64,
    ) -> (r: AttemptVerdict)
        requires
            old(sched).inv(),
            old(sched).room(),
        ensures
            final(sched).inv(),
            same_counters(*final(self), *old(self)),
            final(self).guard.upstream_headers_received,
            final(self).guard.request_started == old(self).guard.request_started,
            is_success_status(status) ==> {
                &&& r is Deliver
                &&& final(sched)@ == success_spec(old(sched)@, account.id@, now)
                &&& final(self).guard.first_byte_sent && final(self).guard.stream_started
                &&& final(self).last_error == old(self).last_error
            },
            !is_success_status(status) ==> exists|c: ErrorClassification, picked: Option<Seq<char>>|
                {
                    &&& retry_after_pick(headers@, picked)
                    &&& #[trigger] classified_as(c, status, picked, config.retry.retry_after_cap_ms)
                    &&& final(sched)@ == failure_effect(old(sched)@, c, account.id@, config.cooldown, now)
                    &&& final(self).guard.first_byte_sent == old(self).guard.first_byte_sent
                    &&& final(self).guard.stream_started == old(self).guard.stream_started
                    &&& if failure_outcome(c, account.id@, status).0 {
                        &&& r is TryNext
                        &&& upstream_error_is(
                            final(self).last_error,
                            failure_outcome(c, account.id@, status).1,
                            failure_outcome(c, account.id@, status).2,
                        )
                    } else {
                        &&& r matches AttemptVerdict::GiveUp(e)
                        &&& upstream_error_is(
                            e,
                            failure_outcome(c, account.id@, status).1,
                            failure_outcome(c, account.id@, status).2,
                        )
                        &&& final(self).last_error == old(self).last_error
                    }
                },
    {
        self.guard.mark_headers_received();
        if 200 <= status && status < 300 {
            sched.report_success(account.id.as_str(), now);
            self.guard.mark_stream_started();
            return AttemptVerdict::Deliver;
        }
        let c = classify_upstream_response(status, headers, config.retry.retry_after_cap_ms);
        let id = account.id.as_str();
        match c {
            ErrorClassification::RetryableRateLimit { retry_after_ms } => {
                let duration = match retry_after_ms {
                    Some(ms) => ms,
                    None => config.cooldown.after_429_ms,
                };
                sched.report_cooldown(id, "429 Rate Limit", duration, now, "RATE_LIMIT_429");
                self.last_error = GatewayError::UpstreamError {
                    status: 429,
                    message: concat("Upstream rate limit (429) on account ", id),
                };
                AttemptVerdict::TryNext
            },
            ErrorClassification::RetryableServerError { status: s } => {
                sched.report_cooldown(
                    id,
                    "5xx Server Error",
                    config.cooldown.after_5xx_ms,
                    now,
                    "SERVER_ERROR_5XX",
                );
                let a = concat("Upstream server error (", decimal_string(s as u64).as_str());
                self.last_error = GatewayError::UpstreamError {
                    status: s,
                    message: concat(concat(a.as_str(), ") on account ").as_str(), id),
                };
                AttemptVerdict::TryNext
            },
            ErrorClassification::PermanentAuthError { status: s, message } => {
                sched.report_permanent_auth_failure(id, message.as_str());
                AttemptVerdict::GiveUp(GatewayError::UpstreamError { status: s, message })
            },
            ErrorClassification::PermanentClientError { status: s, message } => {
                AttemptVerdict::GiveUp(GatewayError::UpstreamError { status: s, message })
            },
            _ => {
                let a = concat("Upstream error (", decimal_string(status as u64).as_str());
                self.last_error = GatewayError::UpstreamError {
                    status,
                    message: concat(concat(a.as_str(), ") on account ").as_str(), id),
                };
                AttemptVerdict::TryNext
            },
        }
    }

    /// The error the request ends with when no attempt delivered an answer.
    pub fn into_error(self) -> (e: GatewayError)
        ensures
            e == self.last_error,
    {
        self.last_error
    }
}

/// A server error (500, 502, 503 or 504) cools down only the account that got
/// it: the quota-domain cooldowns stay as they were, the account (if known) goes
/// into cooldown for the configured 5xx delay with error class
/// `SERVER_ERROR_5XX`, every other account is untouched, and the request moves on
/// to another attempt with an error carrying the status.
pub proof fn law_server_error_cools_only_the_account(
    s: SchedulerView,
    c: ErrorClassification,
    status: u16,
    picked: Option<Seq<char>>,
    cap_ms: u64,
    id: Seq<char>,
    cd: CooldownConfig,
    now: u64,
    k: int,
)
    requires
        status == 500 || status == 502 || status == 503 || status == 504,
        classified_as(c, status, picked, cap_ms),
        0 <= k < s.accounts.len(),
    ensures
        failure_effect(s, c, id, cd, now).cooldowns == s.cooldowns,
        failure_effect(s, c, id, cd, now).accounts.len() == s.accounts.len(),
        s.accounts[k].id != id ==> failure_effect(s, c, id, cd, now).accounts[k] == s.accounts[k],
        k == index_of_id(s.accounts, id, 0) ==> {
            &&& failure_effect(s, c, id, cd, now).accounts[k].health == (HealthView::Cooldown {
                until_ms: sat_add(now, cd.after_5xx_ms),
                reason: "5xx Server Error"@,
            })
            &&& failure_effect(s, c, id, cd, now).accounts[k].last_error_class == Some("SERVER_ERROR_5XX"@)
        },
        failure_outcome(c, id, status).0,
        failure_outcome(c, id, status).1 == status,
{
    lemma_index_of_id(s.accounts, id, 0);
    reveal_strlit("SERVER_ERROR_5XX");
    reveal_strlit("RATE_LIMIT_429");
    assert("SERVER_ERROR_5XX"@[0] != "RATE_LIMIT_429"@[0]);
}

/// A client error (400, 404, 413 or 422) is permanent: it is classified as a
/// client error carrying that status and the message
/// `Client request error from upstream`, and the request is given up with that
/// status and message instead of being tried on another account; no account
/// and no quota domain is cooled down or disabled for it.
pub proof fn law_client_errors_are_given_up(
    s: SchedulerView,
    c: ErrorClassification,
    status: u16,
    picked: Option<Seq<char>>,
    cap_ms: u64,
    id: Seq<char>,
    cd: CooldownConfig,
    now: u64,
)
    requires
        status == 400 || status == 404 || status == 413 || status == 422,
        classified_as(c, status, picked, cap_ms),
    ensures
        c matches ErrorClassification::PermanentClientError { status: st, message: m } && st == status
            && m@ == "Client request error from upstream"@,
        !failure_outcome(c, id, status).0,
        failure_outcome(c, id, status).1 == status,
        failure_outcome(c, id, status).2 == "Client request error from upstream"@,
        failure_effect(s, c, id, cd, now) == s,
{
}

/// A rate limit (429) on a known account cools down its whole quota domain: the
/// domain's cooldown ends after the `Retry-After` delay when one was read, else
/// after the configured 429 delay; until then no account of that domain can be
/// handed out; the request moves on to another attempt with a 429 error.
pub proof fn law_rate_limit_cools_the_domain(
    s: SchedulerView,
    c: ErrorClassification,
    picked: Option<Seq<char>>,
    cap_ms: u64,
    id: Seq<char>,
    cd: CooldownConfig,
    now: u64,
    later: u64,
    j: int,
)
    requires
        classified_as(c, 429, picked, cap_ms),
        index_of_id(s.accounts, id, 0) < s.accounts.len(),
        0 <= j < s.accounts.len(),
        s.accounts[j].quota_domain == s.accounts[index_of_id(s.accounts, id, 0)].quota_domain,
    ensures
        ({
            let delay = match crate::retry::retry_after_spec(picked, cap_ms) {
                Some(ms) => ms,
                None => cd.after_429_ms,
            };
            let domain = s.accounts[index_of_id(s.accounts, id, 0)].quota_domain;
            &&& failure_effect(s, c, id, cd, now).cooldowns == s.cooldowns.insert(
                domain,
                sat_add(now, delay),
            )
            &&& later < sat_add(now, delay) ==> !eligible(
                pruned(failure_effect(s, c, id, cd, now), later),
                later,
                j,
            )
        }),
        failure_outcome(c, id, 429).0,
        failure_outcome(c, id, 429).1 == 429,
{
    lemma_index_of_id(s.accounts, id, 0);
}

/// An authentication failure (401 or 403) disables the account for good and
/// gives the request up with that status; quota-domain cooldowns are unchanged.
pub proof fn law_auth_errors_disable_and_give_up(
    s: SchedulerView,
    c: ErrorClassification,
    status: u16,
    picked: Option<Seq<char>>,
    cap_ms: u64,
    id: Seq<char>,
    cd: CooldownConfig,
    now: u64,
    later: u64,
)
    requires
        status == 401 || status == 403,
        classified_as(c, status, picked, cap_ms),
        index_of_id(s.accounts, id, 0) < s.accounts.len(),
    ensures
        failure_effect(s, c, id, cd, now).cooldowns == s.cooldowns,
        !eligible(
            pruned(failure_effect(s, c, id, cd, now), later),
            later,
            index_of_id(s.accounts, id, 0),
        ),
        !failure_outcome(c, id, status).0,
        failure_outcome(c, id, status).1 == status,
        failure_outcome(c, id, status).2 == "Authentication failure from upstream Gemini API"@,
{
    lemma_index_of_id(s.accounts, id, 0);
}

} // verus!
