//! Least-recently-used account scheduling with quota-domain cooldowns.
//!
//! Accounts that share a quota domain share a rate limit: a 429 on one of
//! them cools the whole domain down.
use vstd::prelude::*;
use crate::accounts::{HealthView, AccountRuntimeState, AccountView, available, expired, after_success, after_cooldown, after_disable, has_room, initial_state, sat_add, saturating_add};
use crate::config::{AccountConfig, clone_string};
use crate::error::GatewayError;

verus! {

/// The part of an account that a request needs to reach the upstream.
#[derive(Debug, PartialEq)]
pub struct AccountSnapshot {
    pub id: String,
    pub secret_name: String,
    pub quota_domain: String,
}

impl Clone for AccountSnapshot {
    fn clone(&self) -> (r: Self)
        ensures
            r.id@ == self.id@,
            r.secret_name@ == self.secret_name@,
            r.quota_domain@ == self.quota_domain@,
    {
        AccountSnapshot {
            id: self.id.clone(),
            secret_name: self.secret_name.clone(),
            quota_domain: self.quota_domain.clone(),
        }
    }
}

/// The reason given when no account can be handed out.
pub open spec fn exhausted_message() -> Seq<char> {
    "All upstream accounts or quota domains are currently in cooldown or disabled"@
}

/// `snap` carries the name, key source and quota domain of account `a`.
pub open spec fn snapshot_of(snap: AccountSnapshot, a: AccountView) -> bool {
    snap.id@ == a.id && snap.secret_name@ == a.secret_name && snap.quota_domain@ == a.quota_domain
}

pub trait AccountScheduler: Send + Sync {
    /// The internal consistency that every operation keeps.
    spec fn inv(&self) -> bool;

    /// Every account's counters can take one more success and one more failure.
    spec fn room(&self) -> bool;

    fn select_account(&mut self, current_time_ms: u64) -> (r: Result<AccountSnapshot, GatewayError>)
        requires
            old(self).inv(),
        ensures
            final(self).inv(),
    ;

    fn report_success(&mut self, account_id: &str, current_time_ms: u64)
        requires
            old(self).inv(),
            old(self).room(),
        ensures
            final(self).inv(),
    ;

    fn report_cooldown(
        &mut self,
        account_id: &str,
        reason: &str,
        duration_ms: u64,
        current_time_ms: u64,
        error_class: &str,
    )
        requires
            old(self).inv(),
            old(self).room(),
        ensures
            final(self).inv(),
    ;

    fn report_quota_domain_cooldown(
        &mut self,
        quota_domain: &str,
        reason: &str,
        duration_ms: u64,
        current_time_ms: u64,
    )
        requires
            old(self).inv(),
        ensures
            final(self).inv(),
    ;

    fn report_permanent_auth_failure(&mut self, account_id: &str, reason: &str)
        requires
            old(self).inv(),
        ensures
            final(self).inv(),
    ;
}

/// What the scheduler holds: the accounts in configuration order, and the
/// quota domains under cooldown with the time each cooldown ends.
pub struct SchedulerView {
    pub accounts: Seq<AccountView>,
    pub cooldowns: Map<Seq<char>, u64>,
}

pub struct LruQuotaScheduler {
    accounts: Vec<AccountRuntimeState>,
    domain_cooldowns: Vec<(String, u64)>,
}

pub open spec fn pair_view(v: Seq<(String, u64)>) -> Seq<(Seq<char>, u64)> {
    v.map_values(|p: (String, u64)| (p.0@, p.1))
}

pub open spec fn keys_distinct(s: Seq<(Seq<char>, u64)>) -> bool {
    forall|i: int, j: int| 0 <= i < s.len() && 0 <= j < s.len() && i != j ==> s[i].0 != s[j].0
}

pub open spec fn has_key(s: Seq<(Seq<char>, u64)>, d: Seq<char>) -> bool {
    exists|i: int| 0 <= i < s.len() && s[i].0 == d
}

/// The map that a list of `(key, value)` pairs with distinct keys stands for.
pub open spec fn to_map(s: Seq<(Seq<char>, u64)>) -> Map<Seq<char>, u64> {
    Map::new(
        |d: Seq<char>| has_key(s, d),
        |d: Seq<char>| s[choose|i: int| 0 <= i < s.len() && s[i].0 == d].1,
    )
}

pub proof fn lemma_to_map_at(s: Seq<(Seq<char>, u64)>, i: int)
    requires
        keys_distinct(s),
        0 <= i < s.len(),
    ensures
        to_map(s).contains_key(s[i].0),
        to_map(s)[s[i].0] == s[i].1,
{
    assert(has_key(s, s[i].0));
    let j = choose|j: int| 0 <= j < s.len() && s[j].0 == s[i].0;
    assert(j == i);
}

pub proof fn lemma_to_map_push(s: Seq<(Seq<char>, u64)>, d: Seq<char>, u: u64)
    requires
        keys_distinct(s),
        !has_key(s, d),
    ensures
        keys_distinct(s.push((d, u))),
        to_map(s.push((d, u))) =~= to_map(s).insert(d, u),
{
    let t = s.push((d, u));
    assert(keys_distinct(t));
    assert forall|k: Seq<char>| #[trigger] to_map(t).contains_key(k) implies to_map(s).insert(
        d,
        u,
    ).contains_key(k) by {
        let i = choose|i: int| 0 <= i < t.len() && t[i].0 == k;
        if i < s.len() {
            assert(has_key(s, k));
        }
    }
    assert forall|k: Seq<char>| #[trigger] to_map(s).insert(d, u).contains_key(k) implies to_map(
        t,
    ).contains_key(k) && to_map(t)[k] == to_map(s).insert(d, u)[k] by {
        if k == d {
            lemma_to_map_at(t, s.len() as int);
        } else {
            let i = choose|i: int| 0 <= i < s.len() && s[i].0 == k;
            lemma_to_map_at(s, i);
            lemma_to_map_at(t, i);
        }
    }
}

pub proof fn lemma_to_map_update(s: Seq<(Seq<char>, u64)>, i: int, u: u64)
    requires
        keys_distinct(s),
        0 <= i < s.len(),
    ensures
        keys_distinct(s.update(i, (s[i].0, u))),
        to_map(s.update(i, (s[i].0, u))) =~= to_map(s).insert(s[i].0, u),
{
    let d = s[i].0;
    let t = s.update(i, (d, u));
    assert(keys_distinct(t));
    assert forall|k: Seq<char>| #[trigger] to_map(t).contains_key(k) implies to_map(s).insert(
        d,
        u,
    ).contains_key(k) by {
        let j = choose|j: int| 0 <= j < t.len() && t[j].0 == k;
        assert(s[j].0 == k);
    }
    assert forall|k: Seq<char>| #[trigger] to_map(s).insert(d, u).contains_key(k) implies to_map(
        t,
    ).contains_key(k) && to_map(t)[k] == to_map(s).insert(d, u)[k] by {
        if k == d {
            lemma_to_map_at(t, i);
        } else {
            let j = choose|j: int| 0 <= j < s.len() && s[j].0 == k;
            lemma_to_map_at(s, j);
            lemma_to_map_at(t, j);
        }
    }
}

/// The cooldowns that are still running at `now`.
pub open spec fn live(m: Map<Seq<char>, u64>, now: u64) -> Map<Seq<char>, u64> {
    Map::new(|d: Seq<char>| m.contains_key(d) && now < m[d], |d: Seq<char>| m[d])
}

/// The domain of account `a` is cooling down at `now`.
pub open spec fn domain_cooling(m: Map<Seq<char>, u64>, a: AccountView, now: u64) -> bool {
    m.contains_key(a.quota_domain) && now < m[a.quota_domain]
}

/// Account `i` may be handed out at `now`.
pub open spec fn eligible(s: SchedulerView, now: u64, i: int) -> bool {
    0 <= i < s.accounts.len() && available(s.accounts[i], now) && !domain_cooling(
        s.cooldowns,
        s.accounts[i],
        now,
    )
}

/// `a` comes before `b`: used less recently, then fewer consecutive failures,
/// then fewer failures in all.
pub open spec fn key_lt(a: AccountView, b: AccountView) -> bool {
    ||| a.last_used_ms < b.last_used_ms
    ||| a.last_used_ms == b.last_used_ms && a.consecutive_failures < b.consecutive_failures
    ||| a.last_used_ms == b.last_used_ms && a.consecutive_failures == b.consecutive_failures
        && a.failure_count < b.failure_count
}

/// Account `i` is the one handed out at `now`: eligible, no eligible account
/// comes before it, and it is the first of those that tie with it.
pub open spec fn chosen(s: SchedulerView, now: u64, i: int) -> bool {
    &&& eligible(s, now, i)
    &&& forall|j: int| #[trigger] eligible(s, now, j) ==> !key_lt(s.accounts[j], s.accounts[i])
    &&& forall|j: int| 0 <= j < i && #[trigger] eligible(s, now, j) ==> key_lt(
        s.accounts[i],
        s.accounts[j],
    )
}

/// The state after expired cooldowns have been cleared at `now`.
pub open spec fn pruned(s: SchedulerView, now: u64) -> SchedulerView {
    SchedulerView {
        accounts: s.accounts.map_values(|a: AccountView| expired(a, now)),
        cooldowns: live(s.cooldowns, now),
    }
}

/// Index of the first account called `id` (the number of accounts when there is none).
pub open spec fn index_of_id(accts: Seq<AccountView>, id: Seq<char>, i: int) -> int
    decreases accts.len() - i,
{
    if i >= accts.len() {
        accts.len() as int
    } else if accts[i].id == id {
        i
    } else {
        index_of_id(accts, id, i + 1)
    }
}

pub proof fn lemma_index_of_id(accts: Seq<AccountView>, id: Seq<char>, i: int)
    requires
        0 <= i,
    ensures
        i <= index_of_id(accts, id, i) || index_of_id(accts, id, i) == accts.len(),
        index_of_id(accts, id, i) <= accts.len(),
        index_of_id(accts, id, i) < accts.len() ==> accts[index_of_id(accts, id, i)].id == id,
        forall|k: int| i <= k < index_of_id(accts, id, i) ==> accts[k].id != id,
    decreases accts.len() - i,
{
    if i < accts.len() && accts[i].id != id {
        lemma_index_of_id(accts, id, i + 1);
    }
}

/// Applies `f` to the first account called `id`, if there is one.
pub open spec fn update_account(
    accts: Seq<AccountView>,
    id: Seq<char>,
    f: spec_fn(AccountView) -> AccountView,
) -> Seq<AccountView> {
    let i = index_of_id(accts, id, 0);
    if i < accts.len() {
        accts.update(i, f(accts[i]))
    } else {
        accts
    }
}

pub open spec fn success_spec(s: SchedulerView, id: Seq<char>, now: u64) -> SchedulerView {
    SchedulerView {
        accounts: update_account(s.accounts, id, |a: AccountView| after_success(a, now)),
        ..s
    }
}

pub open spec fn cooldown_spec(
    s: SchedulerView,
    id: Seq<char>,
    reason: Seq<char>,
    duration_ms: u64,
    now: u64,
    error_class: Seq<char>,
) -> SchedulerView {
    let i = index_of_id(s.accounts, id, 0);
    SchedulerView {
        accounts: update_account(
            s.accounts,
            id,
            |a: AccountView| after_cooldown(a, reason, duration_ms, now, error_class),
        ),
        cooldowns: if i < s.accounts.len() && error_class == "RATE_LIMIT_429"@ {
            s.cooldowns.insert(s.accounts[i].quota_domain, sat_add(now, duration_ms))
        } else {
            s.cooldowns
        },
    }
}

pub open spec fn domain_cooldown_spec(
    s: SchedulerView,
    domain: Seq<char>,
    duration_ms: u64,
    now: u64,
) -> SchedulerView {
    SchedulerView { cooldowns: s.cooldowns.insert(domain, sat_add(now, duration_ms)), ..s }
}

pub open spec fn disable_spec(s: SchedulerView, id: Seq<char>, reason: Seq<char>) -> SchedulerView {
    SchedulerView {
        accounts: update_account(s.accounts, id, |a: AccountView| after_disable(a, reason)),
        ..s
    }
}

impl View for LruQuotaScheduler {
    type V = SchedulerView;

    closed spec fn view(&self) -> SchedulerView {
        SchedulerView {
            accounts: self.accounts@.map_values(|a: AccountRuntimeState| a@),
            cooldowns: to_map(pair_view(self.domain_cooldowns@)),
        }
    }
}

} // verus!

verus! {

fn key_less(a: &AccountRuntimeState, b: &AccountRuntimeState) -> (r: bool)
    ensures
        r == key_lt(a@, b@),
{
    a.last_used_ms < b.last_used_ms || (a.last_used_ms == b.last_used_ms && (a.consecutive_failures
        < b.consecutive_failures || (a.consecutive_failures == b.consecutive_failures
        && a.failure_count < b.failure_count)))
}

impl LruQuotaScheduler {
    /// Every account's counters can take one more success and one more failure.
    pub open spec fn counters_have_room(&self) -> bool {
        forall|i: int| 0 <= i < self@.accounts.len() ==> has_room(#[trigger] self@.accounts[i])
    }

    pub closed spec fn well_formed(&self) -> bool {
        keys_distinct(pair_view(self.domain_cooldowns@))
    }

    pub fn new(configs: &[AccountConfig]) -> (s: Self)
        ensures
            s.well_formed(),
            s@.accounts == configs@.map_values(|c: AccountConfig| initial_state(c@)),
            s@.cooldowns == Map::<Seq<char>, u64>::empty(),
    {
        let mut accounts: Vec<AccountRuntimeState> = Vec::new();
        let n = configs.len();
        let mut i: usize = 0;
        while i < n
            invariant
                i <= n == configs@.len(),
                accounts@.map_values(|a: AccountRuntimeState| a@) =~= configs@.take(
                    i as int,
                ).map_values(|c: AccountConfig| initial_state(c@)),
            decreases n - i,
        {
            let ghost before = accounts@;
            accounts.push(AccountRuntimeState::from_config(&configs[i]));
            assert(configs@.take(i + 1) =~= configs@.take(i as int).push(configs@[i as int]));
            assert(accounts@.map_values(|a: AccountRuntimeState| a@) =~= before.map_values(
                |a: AccountRuntimeState| a@,
            ).push(accounts@[i as int]@));
            i = i + 1;
        }
        assert(configs@.take(n as int) =~= configs@);
        let s = LruQuotaScheduler { accounts, domain_cooldowns: Vec::new() };
        assert(s@.cooldowns =~= Map::<Seq<char>, u64>::empty());
        s
    }

    /// Whether every account's counters can take one more success and one more failure.
    pub fn has_counter_room(&self) -> (b: bool)
        ensures
            b == self.counters_have_room(),
    {
        let n = self.accounts.len();
        let mut i: usize = 0;
        while i < n
            invariant
                i <= n == self.accounts@.len(),
                forall|k: int| 0 <= k < i ==> has_room(#[trigger] self@.accounts[k]),
            decreases n - i,
        {
            let a = &self.accounts[i];
            if !(a.success_count < u64::MAX && a.failure_count < u64::MAX && a.consecutive_failures
                < u32::MAX) {
                assert(!has_room(self@.accounts[i as int]));
                return false;
            }
            i = i + 1;
        }
        true
    }

    /// A copy of every account's runtime state, in configuration order.
    pub fn get_account_states(&self) -> (v: Vec<AccountRuntimeState>)
        ensures
            v@.map_values(|a: AccountRuntimeState| a@) == self@.accounts,
    {
        let mut v: Vec<AccountRuntimeState> = Vec::new();
        let n = self.accounts.len();
        let mut i: usize = 0;
        while i < n
            invariant
                i <= n == self.accounts@.len(),
                v@.map_values(|a: AccountRuntimeState| a@) =~= self@.accounts.take(i as int),
            decreases n - i,
        {
            let ghost before = v@;
            v.push(self.accounts[i].clone());
            assert(v@.map_values(|a: AccountRuntimeState| a@) =~= before.map_values(
                |a: AccountRuntimeState| a@,
            ).push(self@.accounts[i as int]));
            i = i + 1;
        }
        assert(self@.accounts.take(n as int) =~= self@.accounts);
        v
    }

    /// The end of the cooldown of `domain`, if it has one.
    fn cooldown_until(&self, domain: &String) -> (r: Option<u64>)
        requires
            self.well_formed(),
        ensures
            r == (if self@.cooldowns.contains_key(domain@) {
                Some(self@.cooldowns[domain@])
            } else {
                None
            }),
    {
        let ghost s = pair_view(self.domain_cooldowns@);
        let n = self.domain_cooldowns.len();
        let mut k: usize = 0;
        while k < n
            invariant
                k <= n == self.domain_cooldowns@.len(),
                s == pair_view(self.domain_cooldowns@),
                keys_distinct(s),
                forall|j: int| 0 <= j < k ==> s[j].0 != domain@,
            decreases n - k,
        {
            if self.domain_cooldowns[k].0 == *domain {
                proof {
                    lemma_to_map_at(s, k as int);
                }
                return Some(self.domain_cooldowns[k].1);
            }
            k = k + 1;
        }
        assert(!has_key(s, domain@));
        None
    }

    /// Starts or replaces the cooldown of `domain`, ending at `until`.
    fn set_cooldown(&mut self, domain: String, until: u64)
        requires
            old(self).well_formed(),
        ensures
            final(self).well_formed(),
            final(self)@.accounts == old(self)@.accounts,
            final(self)@.cooldowns == old(self)@.cooldowns.insert(domain@, until),
    {
        let ghost s = pair_view(self.domain_cooldowns@);
        let n = self.domain_cooldowns.len();
        let mut k: usize = 0;
        while k < n
            invariant
                k <= n == self.domain_cooldowns@.len(),
                *self == *old(self),
                s == pair_view(self.domain_cooldowns@),
                keys_distinct(s),
                forall|j: int| 0 <= j < k ==> s[j].0 != domain@,
            decreases n - k,
        {
            if self.domain_cooldowns[k].0 == domain {
                proof {
                    lemma_to_map_update(s, k as int, until);
                }
                self.domain_cooldowns[k].1 = until;
                assert(pair_view(self.domain_cooldowns@) =~= s.update(k as int, (s[k as int].0, until)));
                return;
            }
            k = k + 1;
        }
        proof {
            lemma_to_map_push(s, domain@, until);
        }
        self.domain_cooldowns.push((domain, until));
        assert(pair_view(self.domain_cooldowns@) =~= s.push((domain@, until)));
    }

    /// Drops the cooldowns that have ended by `now`.
    fn drop_expired_cooldowns(&mut self, now: u64)
        requires
            old(self).well_formed(),
        ensures
            final(self).well_formed(),
            final(self)@.accounts == old(self)@.accounts,
            final(self)@.cooldowns == live(old(self)@.cooldowns, now),
    {
        let ghost s = pair_view(self.domain_cooldowns@);
        let mut kept: Vec<(String, u64)> = Vec::new();
        let ghost mut src: Seq<int> = Seq::empty();
        let n = self.domain_cooldowns.len();
        let mut k: usize = 0;
        while k < n
            invariant
                k <= n == self.domain_cooldowns@.len(),
                s == pair_view(self.domain_cooldowns@),
                keys_distinct(s),
                src.len() == kept@.len(),
                forall|a: int| 0 <= a < src.len() ==> 0 <= #[trigger] src[a] < k,
                forall|a: int, b: int| 0 <= a < b < src.len() ==> src[a] < src[b],
                forall|a: int|
                    0 <= a < src.len() ==> pair_view(kept@)[a] == s[#[trigger] src[a]] && now
                        < s[src[a]].1,
                forall|j: int|
                    0 <= j < k && now < s[j].1 ==> exists|a: int|
                        0 <= a < src.len() && #[trigger] src[a] == j,
            decreases n - k,
        {
            let until = self.domain_cooldowns[k].1;
            let ghost old_src = src;
            if now < until {
                let d = self.domain_cooldowns[k].0.clone();
                proof {
                    src = src.push(k as int);
                }
                kept.push((d, until));
                assert(pair_view(kept@)[src.len() - 1] == s[k as int]);
            }
            assert forall|j: int| 0 <= j < k + 1 && now < s[j].1 implies exists|a: int|
                0 <= a < src.len() && #[trigger] src[a] == j by {
                if j == k {
                    assert(src[src.len() - 1] == j);
                } else {
                    let a = choose|a: int| 0 <= a < old_src.len() && #[trigger] old_src[a] == j;
                    assert(src[a] == j);
                }
            }
            k = k + 1;
        }
        let ghost t = pair_view(kept@);
        assert(keys_distinct(t)) by {
            assert forall|a: int, b: int|
                0 <= a < t.len() && 0 <= b < t.len() && a != b implies t[a].0 != t[b].0 by {
                assert(src[a] != src[b]) by {
                    if a < b {
                        assert(src[a] < src[b]);
                    } else {
                        assert(src[b] < src[a]);
                    }
                }
            }
        }
        assert forall|d: Seq<char>| #[trigger] to_map(t).contains_key(d) implies live(
            to_map(s),
            now,
        ).contains_key(d) && to_map(t)[d] == live(to_map(s), now)[d] by {
            let a = choose|a: int| 0 <= a < t.len() && t[a].0 == d;
            lemma_to_map_at(t, a);
            lemma_to_map_at(s, src[a]);
        }
        assert forall|d: Seq<char>| #[trigger] live(to_map(s), now).contains_key(d) implies to_map(
            t,
        ).contains_key(d) by {
            let j = choose|j: int| 0 <= j < s.len() && s[j].0 == d;
            lemma_to_map_at(s, j);
            let a = choose|a: int| 0 <= a < src.len() && #[trigger] src[a] == j;
            assert(t[a].0 == d);
        }
        assert(to_map(t) =~= live(to_map(s), now));
        self.domain_cooldowns = kept;
    }

    /// Index of the first account called `id`, as `index_of_id` describes it.
    fn find_account(&self, id: &String) -> (i: usize)
        ensures
            i == index_of_id(self@.accounts, id@, 0),
    {
        let n = self.accounts.len();
        let mut k: usize = 0;
        while k < n
            invariant
                k <= n == self.accounts@.len(),
                index_of_id(self@.accounts, id@, 0) == index_of_id(self@.accounts, id@, k as int),
            decreases n - k,
        {
            if self.accounts[k].id == *id {
                return k;
            }
            k = k + 1;
        }
        k
    }
}

} // verus!

verus! {

impl AccountScheduler for LruQuotaScheduler {
    open spec fn inv(&self) -> bool {
        self.well_formed()
    }

    open spec fn room(&self) -> bool {
        self.counters_have_room()
    }

    /// Clears expired cooldowns, then hands out the eligible account that was
    /// used least recently (ties: fewer consecutive failures, then fewer failures,
    /// then configuration order).
    fn select_account(&mut self, current_time_ms: u64) -> (r: Result<AccountSnapshot, GatewayError>)
        ensures
            final(self)@ == pruned(old(self)@, current_time_ms),
            match r {
                Ok(snap) => exists|i: int|
                    #[trigger] chosen(final(self)@, current_time_ms, i) && snapshot_of(
                        snap,
                        final(self)@.accounts[i],
                    ),
                Err(e) => {
                    &&& forall|i: int| !#[trigger] eligible(final(self)@, current_time_ms, i)
                    &&& e matches GatewayError::AllAccountsExhausted(m)
                    &&& m@ == exhausted_message()
                },
            },
    {
        let now = current_time_ms;
        let ghost s0 = self@;
        let n = self.accounts.len();
        let mut i: usize = 0;
        while i < n
            invariant
                i <= n == self.accounts@.len(),
                self.well_formed(),
                self@.cooldowns == s0.cooldowns,
                self@.accounts.len() == s0.accounts.len(),
                forall|k: int| 0 <= k < i ==> #[trigger] self@.accounts[k] == expired(s0.accounts[k], now),
                forall|k: int| i <= k < n ==> #[trigger] self@.accounts[k] == s0.accounts[k],
            decreases n - i,
        {
            let ghost before = self@.accounts;
            self.accounts[i].check_cooldown_expiry(now);
            assert(self@.accounts =~= before.update(i as int, expired(before[i as int], now)));
            i = i + 1;
        }
        self.drop_expired_cooldowns(now);
        assert(self@.accounts =~= pruned(s0, now).accounts);
        assert(self@ == pruned(s0, now));
        let ghost s = self@;
        let mut best: Option<usize> = None;
        let mut k: usize = 0;
        while k < n
            invariant
                k <= n == self.accounts@.len(),
                self.well_formed(),
                self@ == s,
                best matches Some(b) ==> b < k && eligible(s, now, b as int) && (forall|j: int|
                    0 <= j < k && #[trigger] eligible(s, now, j) ==> !key_lt(
                        s.accounts[j],
                        s.accounts[b as int],
                    )) && (forall|j: int|
                    0 <= j < b && #[trigger] eligible(s, now, j) ==> key_lt(
                        s.accounts[b as int],
                        s.accounts[j],
                    )),
                best is None ==> forall|j: int| 0 <= j < k ==> !#[trigger] eligible(s, now, j),
            decreases n - k,
        {
            let acc = &self.accounts[k];
            let mut ok = acc.is_available(now);
            if ok {
                match self.cooldown_until(&acc.quota_domain) {
                    Some(until) => {
                        if now < until {
                            ok = false;
                        }
                    },
                    None => {},
                }
            }
            assert(ok == eligible(s, now, k as int));
            if ok {
                match best {
                    None => {
                        best = Some(k);
                    },
                    Some(b) => {
                        if key_less(acc, &self.accounts[b]) {
                            best = Some(k);
                        }
                    },
                }
            }
            k = k + 1;
        }
        match best {
            Some(b) => {
                let a = &self.accounts[b];
                assert(chosen(s, now, b as int));
                Ok(
                    AccountSnapshot {
                        id: clone_string(&a.id),
                        secret_name: clone_string(&a.secret_name),
                        quota_domain: clone_string(&a.quota_domain),
                    },
                )
            },
            None => {
                Err(
                    GatewayError::AllAccountsExhausted(
                        "All upstream accounts or quota domains are currently in cooldown or disabled".to_owned(),
                    ),
                )
            },
        }
    }

    /// Records a success for the first account called `account_id`.
    fn report_success(&mut self, account_id: &str, current_time_ms: u64)
        ensures
            final(self)@ == success_spec(old(self)@, account_id@, current_time_ms),
    {
        let id = account_id.to_owned();
        let i = self.find_account(&id);
        proof {
            lemma_index_of_id(self@.accounts, id@, 0);
        }
        if i < self.accounts.len() {
            assert(has_room(self@.accounts[i as int]));
            self.accounts[i].record_success(current_time_ms);
        }
        assert(self@.accounts =~= success_spec(old(self)@, account_id@, current_time_ms).accounts);
    }

    /// Puts the first account called `account_id` into cooldown; a rate limit
    /// (`RATE_LIMIT_429`) also cools down its whole quota domain.
    fn report_cooldown(
        &mut self,
        account_id: &str,
        reason: &str,
        duration_ms: u64,
        current_time_ms: u64,
        error_class: &str,
    )
        ensures
            final(self)@ == cooldown_spec(
                old(self)@,
                account_id@,
                reason@,
                duration_ms,
                current_time_ms,
                error_class@,
            ),
    {
        let id = account_id.to_owned();
        let i = self.find_account(&id);
        proof {
            lemma_index_of_id(self@.accounts, id@, 0);
        }
        if i < self.accounts.len() {
            assert(has_room(self@.accounts[i as int]));
            self.accounts[i].record_cooldown(reason, duration_ms, current_time_ms, error_class);
            let class = error_class.to_owned();
            let rate_limit = "RATE_LIMIT_429".to_owned();
            if class == rate_limit {
                let domain = clone_string(&self.accounts[i].quota_domain);
                let until = saturating_add(current_time_ms, duration_ms);
                self.set_cooldown(domain, until);
            }
        }
        assert(self@.accounts =~= cooldown_spec(
            old(self)@,
            account_id@,
            reason@,
            duration_ms,
            current_time_ms,
            error_class@,
        ).accounts);
    }

    /// Cools down every account of `quota_domain` until `duration_ms` from now.
    fn report_quota_domain_cooldown(
        &mut self,
        quota_domain: &str,
        reason: &str,
        duration_ms: u64,
        current_time_ms: u64,
    )
        ensures
            final(self)@ == domain_cooldown_spec(
                old(self)@,
                quota_domain@,
                duration_ms,
                current_time_ms,
            ),
    {
        let until = saturating_add(current_time_ms, duration_ms);
        self.set_cooldown(quota_domain.to_owned(), until);
    }

    /// Disables the first account called `account_id` for good.
    fn report_permanent_auth_failure(&mut self, account_id: &str, reason: &str)
        ensures
            final(self)@ == disable_spec(old(self)@, account_id@, reason@),
    {
        let id = account_id.to_owned();
        let i = self.find_account(&id);
        proof {
            lemma_index_of_id(self@.accounts, id@, 0);
        }
        if i < self.accounts.len() {
            self.accounts[i].disable(reason);
        }
        assert(self@.accounts =~= disable_spec(old(self)@, account_id@, reason@).accounts);
    }
}

} // verus!

verus! {

/// At any time, at most one account is the one handed out: selection is deterministic.
pub proof fn law_choice_is_unique(s: SchedulerView, now: u64, i: int, j: int)
    requires
        chosen(s, now, i),
        chosen(s, now, j),
    ensures
        i == j,
{
    if i < j {
        assert(key_lt(s.accounts[j], s.accounts[i]));
    } else if j < i {
        assert(key_lt(s.accounts[i], s.accounts[j]));
    }
}

/// A rate limit on one account cools down its whole quota domain: until the
/// cooldown ends, no account of that domain is eligible.
pub proof fn law_rate_limit_cools_quota_domain(
    s: SchedulerView,
    id: Seq<char>,
    reason: Seq<char>,
    duration_ms: u64,
    reported_at: u64,
    now: u64,
    j: int,
)
    requires
        index_of_id(s.accounts, id, 0) < s.accounts.len(),
        now < sat_add(reported_at, duration_ms),
        0 <= j < s.accounts.len(),
        s.accounts[j].quota_domain == s.accounts[index_of_id(s.accounts, id, 0)].quota_domain,
    ensures
        !eligible(
            pruned(
                cooldown_spec(s, id, reason, duration_ms, reported_at, "RATE_LIMIT_429"@),
                now,
            ),
            now,
            j,
        ),
{
    lemma_index_of_id(s.accounts, id, 0);
    let s2 = cooldown_spec(s, id, reason, duration_ms, reported_at, "RATE_LIMIT_429"@);
    let p = pruned(s2, now);
    assert(p.accounts[j].quota_domain == s.accounts[j].quota_domain);
}

/// An account put into cooldown is not handed out before the cooldown ends.
pub proof fn law_cooled_account_waits(
    s: SchedulerView,
    id: Seq<char>,
    reason: Seq<char>,
    duration_ms: u64,
    reported_at: u64,
    error_class: Seq<char>,
    now: u64,
)
    requires
        index_of_id(s.accounts, id, 0) < s.accounts.len(),
        now < sat_add(reported_at, duration_ms),
    ensures
        !eligible(
            pruned(cooldown_spec(s, id, reason, duration_ms, reported_at, error_class), now),
            now,
            index_of_id(s.accounts, id, 0),
        ),
{
    lemma_index_of_id(s.accounts, id, 0);
}

/// Once its cooldown has run out, an account is healthy again and its
/// consecutive failures are forgotten.
pub proof fn law_cooldown_expiry_restores_health(s: SchedulerView, now: u64, j: int)
    requires
        0 <= j < s.accounts.len(),
        s.accounts[j].health matches HealthView::Cooldown { until_ms, .. } && until_ms <= now,
    ensures
        pruned(s, now).accounts[j].health == HealthView::Healthy,
        pruned(s, now).accounts[j].consecutive_failures == 0,
{
}

/// An account disabled after a permanent authentication failure is never handed out again:
/// no operation enables it, and a disabled account is never eligible.
pub proof fn law_disabled_stays_out(
    s: SchedulerView,
    j: int,
    other: Seq<char>,
    reason: Seq<char>,
    duration_ms: u64,
    t: u64,
    class: Seq<char>,
    domain: Seq<char>,
)
    requires
        0 <= j < s.accounts.len(),
        !s.accounts[j].enabled,
    ensures
        !eligible(s, t, j),
        !pruned(s, t).accounts[j].enabled,
        !success_spec(s, other, t).accounts[j].enabled,
        !cooldown_spec(s, other, reason, duration_ms, t, class).accounts[j].enabled,
        !domain_cooldown_spec(s, domain, duration_ms, t).accounts[j].enabled,
        !disable_spec(s, other, reason).accounts[j].enabled,
{
    lemma_index_of_id(s.accounts, other, 0);
}

/// Reporting a permanent authentication failure disables the account.
pub proof fn law_auth_failure_disables(s: SchedulerView, id: Seq<char>, reason: Seq<char>)
    requires
        index_of_id(s.accounts, id, 0) < s.accounts.len(),
    ensures
        !disable_spec(s, id, reason).accounts[index_of_id(s.accounts, id, 0)].enabled,
{
    lemma_index_of_id(s.accounts, id, 0);
}

/// Least-recently-used rotation: after a success at `used_at`, an account is
/// handed out again only when no other eligible account was used before `used_at`.
pub proof fn law_success_rotates(s: SchedulerView, id: Seq<char>, used_at: u64, now: u64, j: int)
    requires
        index_of_id(s.accounts, id, 0) < s.accounts.len(),
        chosen(pruned(success_spec(s, id, used_at), now), now, index_of_id(s.accounts, id, 0)),
        eligible(pruned(success_spec(s, id, used_at), now), now, j),
    ensures
        pruned(success_spec(s, id, used_at), now).accounts[j].last_used_ms >= used_at,
{
    lemma_index_of_id(s.accounts, id, 0);
    let p = pruned(success_spec(s, id, used_at), now);
    let i = index_of_id(s.accounts, id, 0);
    assert(p.accounts[i].last_used_ms == used_at);
    assert(!key_lt(p.accounts[j], p.accounts[i]));
}

/// The first index, among those below `n`, whose key no eligible index below `n` beats.
pub proof fn lemma_min_in_prefix(s: SchedulerView, now: u64, n: int) -> (k: int)
    requires
        0 <= n <= s.accounts.len(),
        exists|j: int| 0 <= j < n && #[trigger] eligible(s, now, j),
    ensures
        0 <= k < n,
        eligible(s, now, k),
        forall|j: int| 0 <= j < n && #[trigger] eligible(s, now, j) ==> !key_lt(s.accounts[j], s.accounts[k]),
        forall|j: int| 0 <= j < k && #[trigger] eligible(s, now, j) ==> key_lt(s.accounts[k], s.accounts[j]),
    decreases n,
{
    if exists|j: int| 0 <= j < n - 1 && #[trigger] eligible(s, now, j) {
        let k0 = lemma_min_in_prefix(s, now, n - 1);
        if eligible(s, now, n - 1) && key_lt(s.accounts[n - 1], s.accounts[k0]) {
            n - 1
        } else {
            k0
        }
    } else {
        n - 1
    }
}

/// Whenever some account is eligible, one of them is the account to hand out;
/// selection reports exhaustion only when no account is eligible.
pub proof fn law_some_account_is_chosen(s: SchedulerView, now: u64, i: int)
    requires
        eligible(s, now, i),
    ensures
        exists|k: int| chosen(s, now, k),
{
    let k = lemma_min_in_prefix(s, now, s.accounts.len() as int);
    assert(chosen(s, now, k));
}

/// A report about one account leaves every other account as it was, and a
/// quota-domain report leaves all accounts as they were.
pub proof fn law_reports_touch_only_their_account(
    s: SchedulerView,
    id: Seq<char>,
    k: int,
    now: u64,
    reason: Seq<char>,
    duration_ms: u64,
    error_class: Seq<char>,
    domain: Seq<char>,
)
    requires
        0 <= k < s.accounts.len(),
        s.accounts[k].id != id,
    ensures
        success_spec(s, id, now).accounts[k] == s.accounts[k],
        cooldown_spec(s, id, reason, duration_ms, now, error_class).accounts[k] == s.accounts[k],
        disable_spec(s, id, reason).accounts[k] == s.accounts[k],
        domain_cooldown_spec(s, domain, duration_ms, now).accounts == s.accounts,
{
    lemma_index_of_id(s.accounts, id, 0);
}

/// The account handed out is a least recently used one among the eligible
/// accounts; among those, one with the fewest consecutive failures; among those,
/// one with the fewest failures in all; and among full ties, the first configured.
/// So an account that has failed more often is never preferred to an eligible
/// account that was used as recently and has failed less.
pub proof fn law_choice_prefers_least_used_and_least_failed(s: SchedulerView, now: u64, i: int, j: int)
    requires
        chosen(s, now, i),
        eligible(s, now, j),
    ensures
        s.accounts[i].last_used_ms <= s.accounts[j].last_used_ms,
        s.accounts[i].last_used_ms == s.accounts[j].last_used_ms ==> s.accounts[i].consecutive_failures
            <= s.accounts[j].consecutive_failures,
        s.accounts[i].last_used_ms == s.accounts[j].last_used_ms && s.accounts[i].consecutive_failures
            == s.accounts[j].consecutive_failures ==> s.accounts[i].failure_count
            <= s.accounts[j].failure_count,
        s.accounts[i].last_used_ms == s.accounts[j].last_used_ms && s.accounts[i].consecutive_failures
            == s.accounts[j].consecutive_failures && s.accounts[i].failure_count
            == s.accounts[j].failure_count ==> i <= j,
{
    assert(!key_lt(s.accounts[j], s.accounts[i]));
    if j < i {
        assert(key_lt(s.accounts[i], s.accounts[j]));
    }
}

} // verus!
