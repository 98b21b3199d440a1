//! Gateway configuration, its defaults, and the parsing of key pools.
use vstd::prelude::*;
use crate::classifier::SmartRouterConfig;
use crate::text::{chars_of, utf8_len_exceeds, find, lemma_first_from_at, lemma_first_from_bounds, opt_seq, views, string_views, strings_of, first_from, contains_str, decimal, eq_str, find_char, find_from, format_unsigned, has_sub, lemma_find_from, lower_chars, lowercase_of, slice_chars, string_of, strip, strip_set, trim, trim_chars, zero_pad, TrimSet};

verus! {

pub open spec fn opt_str_view(o: Option<String>) -> Option<Seq<char>> {
    match o {
        Some(s) => Some(s@),
        None => None,
    }
}

/// A `String` with the same characters.
pub fn clone_string(s: &String) -> (r: String)
    ensures
        r@ == s@,
{
    s.clone()
}

pub fn clone_opt_string(o: &Option<String>) -> (r: Option<String>)
    ensures
        opt_str_view(r) == opt_str_view(*o),
{
    match o {
        Some(s) => Some(s.clone()),
        None => None,
    }
}

#[derive(Debug)]
pub struct ServerConfig {
    pub base_path: String,
    pub max_body_bytes: usize,
}

pub open spec fn is_default_server(c: ServerConfig) -> bool {
    c.base_path@ == "/v1"@ && c.max_body_bytes == 10_000_000
}

impl Default for ServerConfig {
    fn default() -> (c: Self)
        ensures
            is_default_server(c),
    {
        ServerConfig { base_path: "/v1".to_owned(), max_body_bytes: 10_000_000 }
    }
}

#[derive(Debug)]
pub struct UpstreamConfig {
    pub base_url: String,
    pub connect_timeout_ms: u64,
    pub first_byte_timeout_ms: u64,
}

pub open spec fn is_default_upstream(c: UpstreamConfig) -> bool {
    c.base_url@ == "https://generativelanguage.googleapis.com/v1beta/openai"@ && c.connect_timeout_ms
        == 10_000 && c.first_byte_timeout_ms == 30_000
}

impl Default for UpstreamConfig {
    fn default() -> (c: Self)
        ensures
            is_default_upstream(c),
    {
        UpstreamConfig {
            base_url: "https://generativelanguage.googleapis.com/v1beta/openai".to_owned(),
            connect_timeout_ms: 10_000,
            first_byte_timeout_ms: 30_000,
        }
    }
}

/// Model names: the primary model, and client-facing aliases mapped to Gemini models.
///
/// `aliases` holds `(alias, target)` pairs; no alias occurs twice.
#[derive(Debug)]
pub struct ModelConfig {
    pub primary: String,
    pub thinking_level: String,
    pub force_model: bool,
    pub aliases: Vec<(String, String)>,
}

pub open spec fn pairs_view(v: Seq<(String, String)>) -> Seq<(Seq<char>, Seq<char>)> {
    v.map_values(|p: (String, String)| (p.0@, p.1@))
}

/// The alias table a default configuration starts with.
pub open spec fn default_alias_table() -> Seq<(Seq<char>, Seq<char>)> {
    seq![
        ("auto"@, "gemini-3.8-flash"@),
        ("gpt-4o"@, "gemini-3.8-flash"@),
        ("gpt-4o-mini"@, "gemini-3.5-flash-lite"@),
        ("gpt-4.1"@, "gemini-3.8-flash"@),
        ("o1"@, "gemini-2.5-pro"@),
        ("o3-mini"@, "gemini-3.8-flash"@),
        ("deepseek-chat"@, "gemini-3.8-flash"@),
        ("deepseek-reasoner"@, "gemini-2.5-pro"@),
        ("gemini-3.8-flash"@, "gemini-3.8-flash"@),
        ("gemini-3.5-flash-lite"@, "gemini-3.5-flash-lite"@),
        ("gemini-2.5-flash"@, "gemini-2.5-flash"@),
        ("gemini-2.5-pro"@, "gemini-2.5-pro"@),
        ("gemini-2.0-flash"@, "gemini-2.0-flash"@),
        ("gemini-2.0-flash-lite"@, "gemini-3.5-flash-lite"@),
        ("gemini-1.5-flash"@, "gemini-1.5-flash"@),
        ("gemini-1.5-pro"@, "gemini-1.5-pro"@),
    ]
}

fn alias(v: &mut Vec<(String, String)>, from: &str, to: &str)
    ensures
        pairs_view(final(v)@) == pairs_view(old(v)@).push((from@, to@)),
{
    v.push((from.to_owned(), to.to_owned()));
    assert(pairs_view(v@) =~= pairs_view(old(v)@).push((from@, to@)));
}

pub open spec fn is_default_model(c: ModelConfig) -> bool {
    c.primary@ == "gemini-3.8-flash"@ && c.thinking_level@ == "high"@ && !c.force_model && pairs_view(
        c.aliases@,
    ) == default_alias_table()
}

impl Default for ModelConfig {
    fn default() -> (c: Self)
        ensures
            is_default_model(c),
    {
        let mut a: Vec<(String, String)> = Vec::new();
        alias(&mut a, "auto", "gemini-3.8-flash");
        alias(&mut a, "gpt-4o", "gemini-3.8-flash");
        alias(&mut a, "gpt-4o-mini", "gemini-3.5-flash-lite");
        alias(&mut a, "gpt-4.1", "gemini-3.8-flash");
        alias(&mut a, "o1", "gemini-2.5-pro");
        alias(&mut a, "o3-mini", "gemini-3.8-flash");
        alias(&mut a, "deepseek-chat", "gemini-3.8-flash");
        alias(&mut a, "deepseek-reasoner", "gemini-2.5-pro");
        alias(&mut a, "gemini-3.8-flash", "gemini-3.8-flash");
        alias(&mut a, "gemini-3.5-flash-lite", "gemini-3.5-flash-lite");
        alias(&mut a, "gemini-2.5-flash", "gemini-2.5-flash");
        alias(&mut a, "gemini-2.5-pro", "gemini-2.5-pro");
        alias(&mut a, "gemini-2.0-flash", "gemini-2.0-flash");
        alias(&mut a, "gemini-2.0-flash-lite", "gemini-3.5-flash-lite");
        alias(&mut a, "gemini-1.5-flash", "gemini-1.5-flash");
        alias(&mut a, "gemini-1.5-pro", "gemini-1.5-pro");
        assert(pairs_view(a@) =~= default_alias_table());
        ModelConfig {
            primary: "gemini-3.8-flash".to_owned(),
            thinking_level: "high".to_owned(),
            force_model: false,
            aliases: a,
        }
    }
}

#[derive(Debug)]
pub struct RetryConfig {
    pub max_attempts: usize,
    pub retry_429: bool,
    pub retry_5xx: bool,
    pub retry_network: bool,
    pub retry_after_cap_ms: u64,
}

pub open spec fn is_default_retry(c: RetryConfig) -> bool {
    c.max_attempts == 3 && c.retry_429 && c.retry_5xx && c.retry_network && c.retry_after_cap_ms
        == 10_000
}

impl Default for RetryConfig {
    fn default() -> (c: Self)
        ensures
            is_default_retry(c),
    {
        RetryConfig {
            max_attempts: 3,
            retry_429: true,
            retry_5xx: true,
            retry_network: true,
            retry_after_cap_ms: 10_000,
        }
    }
}

#[derive(Debug)]
pub struct CooldownConfig {
    pub after_429_ms: u64,
    pub after_5xx_ms: u64,
    pub after_network_error_ms: u64,
    pub max_cooldown_ms: u64,
}

pub open spec fn is_default_cooldown(c: CooldownConfig) -> bool {
    c.after_429_ms == 30_000 && c.after_5xx_ms == 10_000 && c.after_network_error_ms == 5_000
        && c.max_cooldown_ms == 300_000
}

impl Default for CooldownConfig {
    fn default() -> (c: Self)
        ensures
            is_default_cooldown(c),
    {
        CooldownConfig {
            after_429_ms: 30_000,
            after_5xx_ms: 10_000,
            after_network_error_ms: 5_000,
            max_cooldown_ms: 300_000,
        }
    }
}

#[derive(Debug)]
pub struct StreamingConfig {
    pub enabled: bool,
    pub preserve_sse: bool,
    pub disable_buffering: bool,
}

impl Default for StreamingConfig {
    fn default() -> (c: Self)
        ensures
            c.enabled && c.preserve_sse && c.disable_buffering,
    {
        StreamingConfig { enabled: true, preserve_sse: true, disable_buffering: true }
    }
}

#[derive(Debug)]
pub struct SecurityConfig {
    pub require_proxy_token: bool,
}

impl Default for SecurityConfig {
    fn default() -> (c: Self)
        ensures
            c.require_proxy_token,
    {
        SecurityConfig { require_proxy_token: true }
    }
}

/// One upstream API account: where its key comes from and the quota domain it belongs to.
#[derive(Debug, PartialEq)]
pub struct AccountConfig {
    pub id: String,
    pub secret_name: String,
    pub direct_key: Option<String>,
    pub quota_domain: String,
    pub enabled: bool,
    pub rpm_limit: Option<u32>,
    pub tpm_limit: Option<u32>,
    pub rpd_limit: Option<u32>,
}

pub struct AccountConfigView {
    pub id: Seq<char>,
    pub secret_name: Seq<char>,
    pub direct_key: Option<Seq<char>>,
    pub quota_domain: Seq<char>,
    pub enabled: bool,
    pub rpm_limit: Option<u32>,
    pub tpm_limit: Option<u32>,
    pub rpd_limit: Option<u32>,
}

impl View for AccountConfig {
    type V = AccountConfigView;

    open spec fn view(&self) -> AccountConfigView {
        AccountConfigView {
            id: self.id@,
            secret_name: self.secret_name@,
            direct_key: opt_str_view(self.direct_key),
            quota_domain: self.quota_domain@,
            enabled: self.enabled,
            rpm_limit: self.rpm_limit,
            tpm_limit: self.tpm_limit,
            rpd_limit: self.rpd_limit,
        }
    }
}

impl Clone for AccountConfig {
    fn clone(&self) -> (r: Self)
        ensures
            r@ == self@,
    {
        AccountConfig {
            id: self.id.clone(),
            secret_name: self.secret_name.clone(),
            direct_key: clone_opt_string(&self.direct_key),
            quota_domain: self.quota_domain.clone(),
            enabled: self.enabled,
            rpm_limit: self.rpm_limit,
            tpm_limit: self.tpm_limit,
            rpd_limit: self.rpd_limit,
        }
    }
}

/// Whether an account section without an `enabled` entry counts as enabled.
pub fn default_enabled() -> (b: bool)
    ensures
        b,
{
    true
}

pub open spec fn two_digits(i: nat) -> Seq<char> {
    zero_pad(decimal(i), 2)
}

pub open spec fn four_digits(i: nat) -> Seq<char> {
    zero_pad(decimal(i), 4)
}

/// The `i`-th (from 1) account of the default template: key `GEMINI_KEY_ii` in `project-ii`.
pub open spec fn template_account(i: nat) -> AccountConfigView {
    AccountConfigView {
        id: "p"@ + two_digits(i),
        secret_name: "GEMINI_KEY_"@ + two_digits(i),
        direct_key: None,
        quota_domain: "project-"@ + two_digits(i),
        enabled: true,
        rpm_limit: Some(15),
        tpm_limit: Some(1_000_000),
        rpd_limit: Some(1_500),
    }
}

/// `prefix` followed by `n` zero-padded to `width` digits.
pub fn numbered(prefix: &str, n: u64, width: usize) -> (s: String)
    ensures
        s@ == prefix@ + zero_pad(decimal(n as nat), width as nat),
{
    let mut v = chars_of(prefix);
    let mut d = format_unsigned(n, 10, width);
    v.append(&mut d);
    string_of(v.as_slice())
}

/// The twenty template accounts `p01`..`p20`.
pub fn default_accounts() -> (v: Vec<AccountConfig>)
    ensures
        v@.len() == 20,
        forall|i: int| 0 <= i < 20 ==> #[trigger] v@[i]@ == template_account((i + 1) as nat),
{
    let mut v: Vec<AccountConfig> = Vec::new();
    let mut i: u64 = 1;
    while i <= 20
        invariant
            1 <= i <= 21,
            v@.len() == i - 1,
            forall|k: int| 0 <= k < i - 1 ==> #[trigger] v@[k]@ == template_account((k + 1) as nat),
        decreases 21 - i,
    {
        let acc = AccountConfig {
            id: numbered("p", i, 2),
            secret_name: numbered("GEMINI_KEY_", i, 2),
            direct_key: None,
            quota_domain: numbered("project-", i, 2),
            enabled: true,
            rpm_limit: Some(15),
            tpm_limit: Some(1_000_000),
            rpd_limit: Some(1_500),
        };
        assert(acc@ == template_account(i as nat));
        v.push(acc);
        i = i + 1;
    }
    v
}

} // verus!

verus! {

/// A label on the left of `=` or `:` that names a key, a token or the pool.
pub open spec fn names_secret(lower: Seq<char>) -> bool {
    has_sub(lower, "key"@) || has_sub(lower, "gemini"@) || has_sub(lower, "token"@) || has_sub(
        lower,
        "pool"@,
    )
}

fn names_secret_exec(lower: &Vec<char>) -> (b: bool)
    ensures
        b == names_secret(lower@),
{
    contains_str(lower, "key") || contains_str(lower, "gemini") || contains_str(lower, "token")
        || contains_str(lower, "pool")
}

/// The value part of `NAME = value`, or of `label: value` when the label names a secret.
pub open spec fn strip_label(val: Seq<char>) -> Seq<char> {
    match find_from(val, seq!['='], 0) {
        Some(p) => trim(val.skip(p + 1)),
        None => match find_from(val, seq![':'], 0) {
            Some(p) => if names_secret(lowercase_of(trim(val.take(p)))) {
                trim(val.skip(p + 1))
            } else {
                val
            },
            None => val,
        },
    }
}

/// Placeholder words that are never keys.
pub open spec fn is_placeholder(lower: Seq<char>) -> bool {
    lower == "gemini_keys_pool"@ || lower == "gemini_key_pool"@ || lower == "gemini_key"@ || lower
        == "gemini_keys"@ || lower == "key"@ || lower == "api_key"@
}

/// One key as written in a pool, cleaned: surrounding whitespace, a leading
/// `NAME =` / `key:` label and wrapping quotes, brackets and punctuation are
/// removed; empty values, `replace_me` and placeholder names give nothing.
pub open spec fn sanitize_spec(s: Seq<char>) -> Option<Seq<char>> {
    let val = trim(s);
    if val.len() == 0 {
        None
    } else {
        let cleaned = trim(strip_set(strip_label(val), TrimSet::Wrappers));
        if cleaned.len() == 0 || cleaned == "replace_me"@ {
            None
        } else if is_placeholder(lowercase_of(cleaned)) {
            None
        } else {
            Some(cleaned)
        }
    }
}

pub fn sanitize_chars(s: &Vec<char>) -> (r: Option<Vec<char>>)
    ensures
        match r {
            Some(v) => sanitize_spec(s@) == Some(v@),
            None => sanitize_spec(s@) is None,
        },
{
    let val = trim_chars(s);
    if val.len() == 0 {
        return None;
    }
    proof {
        lemma_find_from(val@, seq!['='], 0);
        lemma_find_from(val@, seq![':'], 0);
    }
    let labelled: Vec<char> = match find_char(&val, '=') {
        Some(p) => {
            assert(val@.subrange(p + 1, val@.len() as int) =~= val@.skip(p + 1));
            trim_chars(&slice_chars(&val, p + 1, val.len()))
        },
        None => match find_char(&val, ':') {
            Some(p) => {
                let lhs = lower_chars(&trim_chars(&slice_chars(&val, 0, p)));
                assert(val@.subrange(0, p as int) =~= val@.take(p as int));
                assert(val@.subrange(p + 1, val@.len() as int) =~= val@.skip(p + 1));
                if names_secret_exec(&lhs) {
                    trim_chars(&slice_chars(&val, p + 1, val.len()))
                } else {
                    val.clone()
                }
            },
            None => val.clone(),
        },
    };
    assert(labelled@ == strip_label(val@));
    let cleaned = trim_chars(&strip(&labelled, TrimSet::Wrappers));
    if cleaned.len() == 0 || eq_str(&cleaned, "replace_me") {
        return None;
    }
    let lower = lower_chars(&cleaned);
    if eq_str(&lower, "gemini_keys_pool") || eq_str(&lower, "gemini_key_pool") || eq_str(
        &lower,
        "gemini_key",
    ) || eq_str(&lower, "gemini_keys") || eq_str(&lower, "key") || eq_str(&lower, "api_key") {
        return None;
    }
    Some(cleaned)
}

/// Cleans one key as written in a pool (see `sanitize_spec`).
pub fn sanitize_token(s: &str) -> (r: Option<String>)
    ensures
        opt_str_view(r) == sanitize_spec(s@),
{
    match sanitize_chars(&chars_of(s)) {
        Some(v) => Some(string_of(v.as_slice())),
        None => None,
    }
}

} // verus!

verus! {

/// The characters that separate keys in a plain-text pool.
pub open spec fn is_sep(c: char) -> bool {
    c == '\n' || c == '\r' || c == ',' || c == ';' || c == ' ' || c == '\t'
}

/// The pieces between separators, as `str::split` yields them (empty pieces included).
pub open spec fn parts(s: Seq<char>) -> Seq<Seq<char>>
    decreases s.len(),
{
    let p = first_from(s, 0, |c: char| is_sep(c));
    if p >= s.len() {
        seq![s]
    } else {
        proof {
            lemma_first_from_bounds(s, 0, |c: char| is_sep(c));
        }
        seq![s.take(p)] + parts(s.skip(p + 1))
    }
}

/// Where the next key starts at or after `i`: the first `AIza` or `AQ.`.
pub open spec fn next_key_from(r: Seq<char>, i: int) -> Option<int> {
    match (find_from(r, "AIza"@, i), find_from(r, "AQ."@, i)) {
        (Some(a), Some(b)) => Some(if a < b { a } else { b }),
        (Some(a), None) => Some(a),
        (None, Some(b)) => Some(b),
        (None, None) => None,
    }
}

pub proof fn lemma_next_key_from(r: Seq<char>, i: int)
    requires
        0 <= i,
    ensures
        next_key_from(r, i) matches Some(k) ==> i <= k < r.len(),
{
    lemma_find_from(r, "AIza"@, i);
    lemma_find_from(r, "AQ."@, i);
    assert("AIza"@.len() == 4 && "AQ."@.len() == 3) by {
        reveal_strlit("AIza");
        reveal_strlit("AQ.");
    }
}

/// The keys of a run of keys written without separators, cut where each
/// `AIza` / `AQ.` begins.
pub open spec fn chunk_tokens(r: Seq<char>) -> Seq<Seq<char>>
    decreases r.len(),
{
    if r.len() == 0 {
        seq![]
    } else {
        proof {
            lemma_next_key_from(r, 0);
            lemma_next_key_from(r, 3);
        }
        match next_key_from(r, 0) {
            Some(pos) => if pos == 0 {
                match next_key_from(r, 3) {
                    Some(c) => opt_seq(sanitize_spec(r.take(c))) + chunk_tokens(r.skip(c)),
                    None => opt_seq(sanitize_spec(r)),
                }
            } else {
                opt_seq(sanitize_spec(r.take(pos))) + chunk_tokens(r.skip(pos))
            },
            None => opt_seq(sanitize_spec(r)),
        }
    }
}

/// The keys in one piece of a plain-text pool.
pub open spec fn part_tokens(part: Seq<char>) -> Seq<Seq<char>> {
    let t = trim(part);
    if t.len() == 0 {
        seq![]
    } else if vstd::utf8::encode_utf8(t).len() > 50 && (has_sub(t, "AIza"@) || has_sub(t, "AQ."@)) {
        chunk_tokens(t)
    } else {
        opt_seq(sanitize_spec(t))
    }
}

pub open spec fn tokens_of_parts(ps: Seq<Seq<char>>) -> Seq<Seq<char>>
    decreases ps.len(),
{
    if ps.len() == 0 {
        seq![]
    } else {
        part_tokens(ps[0]) + tokens_of_parts(ps.drop_first())
    }
}

/// The text after a leading `NAME =` when the name mentions the key pool.
pub open spec fn strip_env_name(text: Seq<char>) -> Seq<char> {
    match find_from(text, seq!['='], 0) {
        Some(p) => if names_secret(lowercase_of(trim(text.take(p)))) {
            trim(text.skip(p + 1))
        } else {
            text
        },
        None => text,
    }
}

/// The keys of a plain-text pool, in order.
pub open spec fn split_tokens_spec(raw: Seq<char>) -> Seq<Seq<char>> {
    tokens_of_parts(parts(strip_env_name(trim(raw))))
}

fn push_opt(out: &mut Vec<Vec<char>>, o: Option<Vec<char>>)
    ensures
        views(final(out)@) == views(old(out)@) + opt_seq(
            match o {
                Some(v) => Some(v@),
                None => None,
            },
        ),
{
    match o {
        Some(v) => {
            let ghost before = out@;
            out.push(v);
            assert(views(out@) =~= views(before) + opt_seq(Some(out@[before.len() as int]@)));
        },
        None => {
            assert(views(out@) =~= views(out@) + Seq::<Seq<char>>::empty());
        },
    }
}

fn sanitized(s: &Vec<char>) -> (r: Option<Vec<char>>)
    ensures
        match r {
            Some(v) => Some(v@),
            None => None,
        } == sanitize_spec(s@),
{
    sanitize_chars(s)
}

fn next_key(r: &Vec<char>, from: usize) -> (k: Option<usize>)
    ensures
        k == (match next_key_from(r@, from as int) {
            Some(x) => Some(x as usize),
            None => None::<usize>,
        }),
{
    proof {
        lemma_find_from(r@, "AIza"@, from as int);
        lemma_find_from(r@, "AQ."@, from as int);
    }
    let pa = chars_of("AIza");
    let pb = chars_of("AQ.");
    let a = find(r, &pa, from);
    let b = find(r, &pb, from);
    assert(r@.len() == r.len());
    assert(a == match find_from(r@, "AIza"@, from as int) { Some(x) => Some(x as usize), None => None::<usize> });
    match (a, b) {
        (Some(x), Some(y)) => Some(if x < y { x } else { y }),
        (Some(x), None) => Some(x),
        (None, Some(y)) => Some(y),
        (None, None) => None,
    }
}

/// Cuts a run of keys written without separators (see `chunk_tokens`).
fn chunk_tokens_exec(t: &Vec<char>) -> (out: Vec<Vec<char>>)
    ensures
        views(out@) == chunk_tokens(t@),
{
    let mut out: Vec<Vec<char>> = Vec::new();
    let mut rem: Vec<char> = t.clone();
    assert(rem@ =~= t@);
    while rem.len() > 0
        invariant
            views(out@) + chunk_tokens(rem@) == chunk_tokens(t@),
        decreases rem@.len(),
    {
        let ghost r = rem@;
        let ghost before = views(out@);
        proof {
            lemma_next_key_from(r, 0);
            lemma_next_key_from(r, 3);
        }
        match next_key(&rem, 0) {
            Some(pos) => {
                if pos == 0 {
                    match next_key(&rem, 3) {
                        Some(cut) => {
                            let key = slice_chars(&rem, 0, cut);
                            assert(key@ =~= r.take(cut as int));
                            push_opt(&mut out, sanitized(&key));
                            rem = slice_chars(&rem, cut, rem.len());
                            assert(rem@ =~= r.skip(cut as int));
                            assert(views(out@) + chunk_tokens(rem@) =~= before + chunk_tokens(r));
                        },
                        None => {
                            push_opt(&mut out, sanitized(&rem));
                            assert(views(out@) =~= before + chunk_tokens(r));
                            assert(chunk_tokens(Seq::<char>::empty()) =~= Seq::<Seq<char>>::empty());
                            rem = Vec::new();
                            assert(views(out@) + chunk_tokens(rem@) =~= chunk_tokens(t@));
                        },
                    }
                } else {
                    let key = slice_chars(&rem, 0, pos);
                    assert(key@ =~= r.take(pos as int));
                    push_opt(&mut out, sanitized(&key));
                    rem = slice_chars(&rem, pos, rem.len());
                    assert(rem@ =~= r.skip(pos as int));
                    assert(views(out@) + chunk_tokens(rem@) =~= before + chunk_tokens(r));
                }
            },
            None => {
                push_opt(&mut out, sanitized(&rem));
                assert(views(out@) =~= before + chunk_tokens(r));
                assert(chunk_tokens(Seq::<char>::empty()) =~= Seq::<Seq<char>>::empty());
                rem = Vec::new();
                assert(views(out@) + chunk_tokens(rem@) =~= chunk_tokens(t@));
            },
        }
    }
    assert(chunk_tokens(rem@) =~= Seq::<Seq<char>>::empty());
    assert(views(out@) =~= views(out@) + chunk_tokens(rem@));
    out
}

} // verus!

verus! {

/// The keys in one piece of a plain-text pool (see `part_tokens`).
fn part_tokens_exec(part: &Vec<char>) -> (out: Vec<Vec<char>>)
    ensures
        views(out@) == part_tokens(part@),
{
    let t = trim_chars(part);
    if t.len() == 0 {
        let out: Vec<Vec<char>> = Vec::new();
        assert(views(out@) =~= Seq::<Seq<char>>::empty());
        return out;
    }
    if utf8_len_exceeds(&t, 50) && (contains_str(&t, "AIza") || contains_str(&t, "AQ.")) {
        chunk_tokens_exec(&t)
    } else {
        let mut out: Vec<Vec<char>> = Vec::new();
        push_opt(&mut out, sanitized(&t));
        assert(views(out@) =~= opt_seq(sanitize_spec(t@)));
        out
    }
}

proof fn lemma_tokens_of_parts_cons(a: Seq<char>, rest: Seq<Seq<char>>)
    ensures
        tokens_of_parts(seq![a] + rest) == part_tokens(a) + tokens_of_parts(rest),
{
    assert((seq![a] + rest).drop_first() =~= rest);
}

/// The text after a leading `NAME =` when the name mentions the key pool.
fn strip_env_name_exec(text: Vec<char>) -> (r: Vec<char>)
    ensures
        r@ == strip_env_name(text@),
{
    proof {
        lemma_find_from(text@, seq!['='], 0);
    }
    match find_char(&text, '=') {
        Some(p) => {
            assert(p < text.len());
            let lhs = lower_chars(&trim_chars(&slice_chars(&text, 0, p)));
            assert(text@.subrange(0, p as int) =~= text@.take(p as int));
            if names_secret_exec(&lhs) {
                assert(text@.subrange(p + 1, text@.len() as int) =~= text@.skip(p + 1));
                trim_chars(&slice_chars(&text, p + 1, text.len()))
            } else {
                text
            }
        },
        None => text,
    }
}

/// The keys of a plain-text pool (see `split_tokens_spec`).
pub fn split_raw_into_tokens(raw: &str) -> (r: Vec<String>)
    ensures
        string_views(r@) == split_tokens_spec(raw@),
{
    let text = strip_env_name_exec(trim_chars(&chars_of(raw)));
    let ghost sep = |c: char| is_sep(c);
    let n = text.len();
    let mut out: Vec<Vec<char>> = Vec::new();
    let mut start: usize = 0;
    let mut i: usize = 0;
    assert(text@.skip(0) =~= text@);
    while i < n
        invariant
            start <= i <= n == text@.len(),
            sep == (|c: char| is_sep(c)),
            views(out@) + tokens_of_parts(parts(text@.skip(start as int))) == split_tokens_spec(raw@),
            forall|j: int| start <= j < i ==> !is_sep(#[trigger] text@[j]),
        decreases n - i,
    {
        let c = text[i];
        if c == '\n' || c == '\r' || c == ',' || c == ';' || c == ' ' || c == '\t' {
            let ghost s = text@.skip(start as int);
            proof {
                lemma_first_from_at(s, 0, i - start, sep);
                assert(s.take(i - start) =~= text@.subrange(start as int, i as int));
                assert(s.skip(i - start + 1) =~= text@.skip(i + 1));
                lemma_tokens_of_parts_cons(s.take(i - start), parts(s.skip(i - start + 1)));
            }
            let piece = slice_chars(&text, start, i);
            let mut toks = part_tokens_exec(&piece);
            let ghost before = views(out@);
            out.append(&mut toks);
            assert(views(out@) =~= before + part_tokens(piece@));
            start = i + 1;
        }
        i = i + 1;
    }
    let ghost s = text@.skip(start as int);
    proof {
        lemma_first_from_at(s, 0, s.len() as int, sep);
        assert(parts(s) == seq![s]);
        lemma_tokens_of_parts_cons(s, Seq::empty());
        assert(seq![s] + Seq::<Seq<char>>::empty() =~= seq![s]);
        assert(tokens_of_parts(Seq::<Seq<char>>::empty()) =~= Seq::<Seq<char>>::empty());
    }
    let piece = slice_chars(&text, start, n);
    assert(piece@ =~= s);
    let mut toks = part_tokens_exec(&piece);
    let ghost before = views(out@);
    out.append(&mut toks);
    assert(views(out@) =~= before + part_tokens(s));
    strings_of(&out)
}

} // verus!

verus! {

pub open spec fn strs_view(s: Seq<&str>) -> Seq<Seq<char>> {
    s.map_values(|x: &str| x@)
}

pub open spec fn opt_strs_view(row: Seq<Option<String>>) -> Seq<Option<Seq<char>>> {
    row.map_values(|o: Option<String>| opt_str_view(o))
}

pub open spec fn rows_view(rows: Seq<Vec<Option<String>>>) -> Seq<Seq<Option<Seq<char>>>> {
    rows.map_values(|r: Vec<Option<String>>| opt_strs_view(r@))
}

/// What `serde_json` makes of `text` read as a JSON array of objects, each
/// object reduced to its named fields read as optional strings.
pub uninterp spec fn json_object_list_fields(
    text: Seq<char>,
    fields: Seq<Seq<char>>,
) -> Option<Seq<Seq<Option<Seq<char>>>>>;

/// What `serde_json` makes of `text` read as one JSON object, reduced to its
/// named fields read as optional strings.
pub uninterp spec fn json_object_fields(text: Seq<char>, fields: Seq<Seq<char>>) -> Option<
    Seq<Option<Seq<char>>>,
>;

/// What `serde_json::from_str` makes of `text` read as a JSON array of strings.
pub uninterp spec fn json_string_list(text: Seq<char>) -> Option<Seq<Seq<char>>>;

/// Reads `text` as a JSON array of objects and reads, from each object, every
/// field in `fields` as an optional string (`None` where a field is missing or
/// `null`; the whole read fails where a named field holds anything else).
///
/// Calls `serde_json::from_str::<Vec<serde_json::Map<String, Value>>>` and
/// `serde_json::from_value::<Option<String>>` on each named field; the contract
/// names the result and claims that each row has one entry per field.
#[verifier::external_body]
fn parse_json_object_list(text: &str, fields: &[&str]) -> (r: Option<Vec<Vec<Option<String>>>>)
    ensures
        match r {
            Some(rows) => json_object_list_fields(text@, strs_view(fields@)) == Some(
                rows_view(rows@),
            ) && forall|i: int| 0 <= i < rows@.len() ==> #[trigger] rows@[i]@.len() == fields@.len(),
            None => json_object_list_fields(text@, strs_view(fields@)) is None,
        },
{
    let objs: Vec<serde_json::Map<String, serde_json::Value>> = serde_json::from_str(text).ok()?;
    objs.iter().map(|o| fields.iter().map(|f| match o.get(*f) {
        Some(v) => serde_json::from_value::<Option<String>>(v.clone()).ok(),
        None => Some(None),
    }).collect()).collect()
}

/// Reads `text` as one JSON object and reads every field in `fields` as an
/// optional string (`None` where a field is missing or `null`; the whole read
/// fails where a named field holds anything else).
///
/// Calls `serde_json::from_str::<serde_json::Map<String, Value>>` and
/// `serde_json::from_value::<Option<String>>` on each named field; the contract
/// names the result and claims that it has one entry per field.
#[verifier::external_body]
fn parse_json_object(text: &str, fields: &[&str]) -> (r: Option<Vec<Option<String>>>)
    ensures
        match r {
            Some(row) => json_object_fields(text@, strs_view(fields@)) == Some(opt_strs_view(row@))
                && row@.len() == fields@.len(),
            None => json_object_fields(text@, strs_view(fields@)) is None,
        },
{
    let obj: serde_json::Map<String, serde_json::Value> = serde_json::from_str(text).ok()?;
    fields.iter().map(|f| match obj.get(*f) {
        Some(v) => serde_json::from_value::<Option<String>>(v.clone()).ok(),
        None => Some(None),
    }).collect()
}

/// Reads `text` as a JSON array of strings.
///
/// Calls `serde_json::from_str::<Vec<String>>`; the contract names the result.
#[verifier::external_body]
fn parse_json_string_list(text: &str) -> (r: Option<Vec<String>>)
    ensures
        match r {
            Some(v) => json_string_list(text@) == Some(string_views(v@)),
            None => json_string_list(text@) is None,
        },
{
    serde_json::from_str::<Vec<String>>(text).ok()
}

/// The fields a JSON pool entry may carry, in the order the rows hold them.
pub open spec fn entry_fields() -> Seq<Seq<char>> {
    seq!["key"@, "api_key"@, "gemini_key"@, "domain"@, "project"@]
}

pub open spec fn or_else(a: Option<Seq<char>>, b: Option<Seq<char>>) -> Option<Seq<char>> {
    match a {
        Some(x) => Some(x),
        None => b,
    }
}

/// The account made for the `n`-th (from 1) key of a pool.
pub open spec fn pool_account(n: nat, key: Seq<char>, domain: Seq<char>) -> AccountConfigView {
    AccountConfigView {
        id: "pool_"@ + four_digits(n),
        secret_name: "GEMINI_KEYS_POOL"@,
        direct_key: Some(key),
        quota_domain: domain,
        enabled: true,
        rpm_limit: Some(15),
        tpm_limit: Some(1_000_000),
        rpd_limit: Some(1_500),
    }
}

pub open spec fn default_pool_domain(n: nat) -> Seq<char> {
    "pool-domain-"@ + four_digits(n)
}

pub open spec fn opt_account(o: Option<AccountConfigView>) -> Seq<AccountConfigView> {
    match o {
        Some(a) => seq![a],
        None => seq![],
    }
}

/// The account for the `n`-th object of a JSON pool: its key is `key`, else
/// `api_key`, else `gemini_key`; its domain is `domain`, else `project`.
pub open spec fn entry_account(row: Seq<Option<Seq<char>>>, n: nat, fallback_domain: Seq<char>) -> Option<
    AccountConfigView,
> {
    match or_else(row[0], or_else(row[1], row[2])) {
        None => None,
        Some(raw) => match sanitize_spec(raw) {
            None => None,
            Some(clean) => Some(
                pool_account(
                    n,
                    clean,
                    match or_else(row[3], row[4]) {
                        Some(d) => d,
                        None => fallback_domain,
                    },
                ),
            ),
        },
    }
}

pub open spec fn object_accounts(rows: Seq<Seq<Option<Seq<char>>>>) -> Seq<AccountConfigView>
    decreases rows.len(),
{
    if rows.len() == 0 {
        seq![]
    } else {
        object_accounts(rows.drop_last()) + opt_account(
            entry_account(rows.last(), rows.len(), default_pool_domain(rows.len())),
        )
    }
}

pub open spec fn string_accounts(keys: Seq<Seq<char>>) -> Seq<AccountConfigView>
    decreases keys.len(),
{
    if keys.len() == 0 {
        seq![]
    } else {
        string_accounts(keys.drop_last()) + match sanitize_spec(keys.last()) {
            Some(clean) => seq![pool_account(keys.len(), clean, default_pool_domain(keys.len()))],
            None => seq![],
        }
    }
}

pub open spec fn plain_accounts(tokens: Seq<Seq<char>>) -> Seq<AccountConfigView> {
    Seq::new(
        tokens.len(),
        |i: int| pool_account((i + 1) as nat, tokens[i], default_pool_domain((i + 1) as nat)),
    )
}

pub open spec fn starts_with_char(s: Seq<char>, c: char) -> bool {
    s.len() > 0 && s[0] == c
}

/// The accounts read from a JSON array (of objects, else of strings), when it yields any.
pub open spec fn array_accounts(t: Seq<char>) -> Option<Seq<AccountConfigView>> {
    let objs = match json_object_list_fields(t, entry_fields()) {
        Some(rows) => object_accounts(rows),
        None => seq![],
    };
    if objs.len() > 0 {
        Some(objs)
    } else {
        let strs = match json_string_list(t) {
            Some(keys) => string_accounts(keys),
            None => seq![],
        };
        if strs.len() > 0 {
            Some(strs)
        } else {
            None
        }
    }
}

/// The account read from a single JSON object, when it carries a usable key.
pub open spec fn object_account(t: Seq<char>) -> Option<AccountConfigView> {
    match json_object_fields(t, entry_fields()) {
        Some(row) => entry_account(row, 1, "pool-domain-0001"@),
        None => None,
    }
}

/// The accounts of a key pool: a JSON array of objects or of strings, a single
/// JSON object, or plain text with one key per separated piece.
pub open spec fn parse_keys_pool_spec(raw: Seq<char>) -> Seq<AccountConfigView> {
    let t = trim(raw);
    if t.len() == 0 {
        seq![]
    } else {
        match (if starts_with_char(t, '[') { array_accounts(t) } else { None }) {
            Some(a) => a,
            None => match (if starts_with_char(t, '{') { object_account(t) } else { None }) {
                Some(a) => seq![a],
                None => plain_accounts(split_tokens_spec(t)),
            },
        }
    }
}

pub open spec fn accounts_view(v: Seq<AccountConfig>) -> Seq<AccountConfigView> {
    v.map_values(|a: AccountConfig| a@)
}

} // verus!

verus! {

fn pool_account_exec(n: u64, key: &Vec<char>, domain: String) -> (a: AccountConfig)
    ensures
        a@ == pool_account(n as nat, key@, domain@),
{
    AccountConfig {
        id: numbered("pool_", n, 4),
        secret_name: "GEMINI_KEYS_POOL".to_owned(),
        direct_key: Some(string_of(key.as_slice())),
        quota_domain: domain,
        enabled: true,
        rpm_limit: Some(15),
        tpm_limit: Some(1_000_000),
        rpd_limit: Some(1_500),
    }
}

fn entry_field_names() -> (v: Vec<&'static str>)
    ensures
        strs_view(v@) == entry_fields(),
        v@.len() == 5,
{
    let mut v: Vec<&'static str> = Vec::new();
    v.push("key");
    v.push("api_key");
    v.push("gemini_key");
    v.push("domain");
    v.push("project");
    assert(strs_view(v@) =~= entry_fields());
    v
}

fn first_of(a: &Option<String>, b: Option<String>) -> (r: Option<String>)
    ensures
        opt_str_view(r) == or_else(opt_str_view(*a), opt_str_view(b)),
{
    match a {
        Some(x) => Some(x.clone()),
        None => b,
    }
}

fn entry_account_exec(row: &Vec<Option<String>>, n: u64, fallback_domain: String) -> (r: Option<
    AccountConfig,
>)
    requires
        row@.len() == 5,
    ensures
        match r {
            Some(a) => entry_account(opt_strs_view(row@), n as nat, fallback_domain@) == Some(a@),
            None => entry_account(opt_strs_view(row@), n as nat, fallback_domain@) is None,
        },
{
    let ghost rv = opt_strs_view(row@);
    assert(rv[0] == opt_str_view(row@[0]) && rv[1] == opt_str_view(row@[1]) && rv[2] == opt_str_view(
        row@[2],
    ) && rv[3] == opt_str_view(row@[3]) && rv[4] == opt_str_view(row@[4]));
    let raw = first_of(&row[0], first_of(&row[1], clone_opt_string(&row[2])));
    match raw {
        None => None,
        Some(raw) => match sanitize_chars(&chars_of(raw.as_str())) {
            None => None,
            Some(clean) => {
                let domain = match first_of(&row[3], clone_opt_string(&row[4])) {
                    Some(d) => d,
                    None => fallback_domain,
                };
                Some(pool_account_exec(n, &clean, domain))
            },
        },
    }
}

fn push_opt_account(out: &mut Vec<AccountConfig>, o: Option<AccountConfig>)
    ensures
        accounts_view(final(out)@) == accounts_view(old(out)@) + opt_account(
            match o {
                Some(a) => Some(a@),
                None => None,
            },
        ),
{
    let ghost before = accounts_view(out@);
    match o {
        Some(a) => {
            out.push(a);
            assert(accounts_view(out@) =~= before + seq![out@[out@.len() - 1]@]);
        },
        None => {
            assert(accounts_view(out@) =~= before + Seq::<AccountConfigView>::empty());
        },
    }
}

fn object_accounts_exec(rows: &Vec<Vec<Option<String>>>) -> (out: Vec<AccountConfig>)
    requires
        forall|i: int| 0 <= i < rows@.len() ==> #[trigger] rows@[i]@.len() == 5,
    ensures
        accounts_view(out@) == object_accounts(rows_view(rows@)),
{
    let mut out: Vec<AccountConfig> = Vec::new();
    let n = rows.len();
    let mut i: usize = 0;
    while i < n
        invariant
            i <= n == rows@.len(),
            forall|k: int| 0 <= k < rows@.len() ==> #[trigger] rows@[k]@.len() == 5,
            accounts_view(out@) == object_accounts(rows_view(rows@).take(i as int)),
        decreases n - i,
    {
        let idx = (i + 1) as u64;
        let fallback = numbered("pool-domain-", idx, 4);
        let acc = entry_account_exec(&rows[i], idx, fallback);
        push_opt_account(&mut out, acc);
        assert(rows_view(rows@).take(i + 1).drop_last() =~= rows_view(rows@).take(i as int));
        assert(rows_view(rows@).take(i + 1).last() == opt_strs_view(rows@[i as int]@));
        i = i + 1;
    }
    assert(rows_view(rows@).take(n as int) =~= rows_view(rows@));
    out
}

fn string_accounts_exec(keys: &Vec<String>) -> (out: Vec<AccountConfig>)
    ensures
        accounts_view(out@) == string_accounts(string_views(keys@)),
{
    let mut out: Vec<AccountConfig> = Vec::new();
    let n = keys.len();
    let mut i: usize = 0;
    while i < n
        invariant
            i <= n == keys@.len(),
            accounts_view(out@) == string_accounts(string_views(keys@).take(i as int)),
        decreases n - i,
    {
        let idx = (i + 1) as u64;
        let acc = match sanitize_chars(&chars_of(keys[i].as_str())) {
            Some(clean) => Some(pool_account_exec(idx, &clean, numbered("pool-domain-", idx, 4))),
            None => None,
        };
        push_opt_account(&mut out, acc);
        assert(string_views(keys@).take(i + 1).drop_last() =~= string_views(keys@).take(i as int));
        assert(string_views(keys@).take(i + 1).last() == keys@[i as int]@);
        i = i + 1;
    }
    assert(string_views(keys@).take(n as int) =~= string_views(keys@));
    out
}

fn plain_accounts_exec(tokens: &Vec<String>) -> (out: Vec<AccountConfig>)
    ensures
        accounts_view(out@) == plain_accounts(string_views(tokens@)),
{
    let mut out: Vec<AccountConfig> = Vec::new();
    let n = tokens.len();
    let mut i: usize = 0;
    while i < n
        invariant
            i <= n == tokens@.len(),
            accounts_view(out@) =~= plain_accounts(string_views(tokens@)).take(i as int),
        decreases n - i,
    {
        let idx = (i + 1) as u64;
        let key = chars_of(tokens[i].as_str());
        let ghost before = accounts_view(out@);
        let acc = pool_account_exec(idx, &key, numbered("pool-domain-", idx, 4));
        assert(acc@ == plain_accounts(string_views(tokens@))[i as int]);
        out.push(acc);
        assert(accounts_view(out@) =~= before.push(acc@));
        i = i + 1;
    }
    out
}

fn starts_with_char_exec(v: &Vec<char>, c: char) -> (b: bool)
    ensures
        b == starts_with_char(v@, c),
{
    v.len() > 0 && v[0] == c
}

/// Reads a key pool into accounts `pool_0001`, `pool_0002`, ...: a JSON array of
/// `{"key"|"api_key"|"gemini_key", "domain"|"project"}` objects, a JSON array of
/// keys, a single such object, or plain text separated by newlines, commas,
/// semicolons, spaces or tabs.
pub fn parse_keys_pool(raw: &str) -> (r: Vec<AccountConfig>)
    ensures
        accounts_view(r@) == parse_keys_pool_spec(raw@),
{
    let t = trim_chars(&chars_of(raw));
    if t.len() == 0 {
        let r: Vec<AccountConfig> = Vec::new();
        assert(accounts_view(r@) =~= Seq::<AccountConfigView>::empty());
        return r;
    }
    let text = string_of(t.as_slice());
    let fields = entry_field_names();
    if starts_with_char_exec(&t, '[') {
        let objs = match parse_json_object_list(text.as_str(), fields.as_slice()) {
            Some(rows) => object_accounts_exec(&rows),
            None => Vec::new(),
        };
        if objs.len() > 0 {
            return objs;
        }
        let strs = match parse_json_string_list(text.as_str()) {
            Some(keys) => string_accounts_exec(&keys),
            None => Vec::new(),
        };
        if strs.len() > 0 {
            return strs;
        }
        assert(array_accounts(t@) is None);
    }
    if starts_with_char_exec(&t, '{') {
        match parse_json_object(text.as_str(), fields.as_slice()) {
            Some(row) => {
                match entry_account_exec(&row, 1, "pool-domain-0001".to_owned()) {
                    Some(a) => {
                        let mut r: Vec<AccountConfig> = Vec::new();
                        r.push(a);
                        assert(accounts_view(r@) =~= seq![a@]);
                        return r;
                    },
                    None => {},
                }
            },
            None => {},
        }
    }
    let tokens = split_raw_into_tokens(text.as_str());
    plain_accounts_exec(&tokens)
}

} // verus!

verus! {

#[derive(Debug)]
pub struct AppConfig {
    pub server: ServerConfig,
    pub upstream: UpstreamConfig,
    pub model: ModelConfig,
    pub smart_router: SmartRouterConfig,
    pub retry: RetryConfig,
    pub cooldown: CooldownConfig,
    pub streaming: StreamingConfig,
    pub security: SecurityConfig,
    pub accounts: Vec<AccountConfig>,
}

impl Default for AppConfig {
    fn default() -> (c: Self)
        ensures
            is_default_server(c.server),
            is_default_upstream(c.upstream),
            is_default_model(c.model),
            c.smart_router.enabled,
            c.smart_router.min_confidence_permille == 600,
            is_default_retry(c.retry),
            is_default_cooldown(c.cooldown),
            c.streaming.enabled && c.streaming.preserve_sse && c.streaming.disable_buffering,
            c.security.require_proxy_token,
            c.accounts@.len() == 20,
            forall|i: int| 0 <= i < 20 ==> #[trigger] c.accounts@[i]@ == template_account((i + 1) as nat),
    {
        AppConfig {
            server: ServerConfig::default(),
            upstream: UpstreamConfig::default(),
            model: ModelConfig::default(),
            smart_router: SmartRouterConfig::default(),
            retry: RetryConfig::default(),
            cooldown: CooldownConfig::default(),
            streaming: StreamingConfig::default(),
            security: SecurityConfig::default(),
            accounts: default_accounts(),
        }
    }
}

/// A secret value counts as set when it is not blank and is not the `replace_me` placeholder.
pub open spec fn usable_secret(v: Seq<char>) -> bool {
    trim(v).len() > 0 && v != "replace_me"@
}

pub fn is_usable_secret(v: &str) -> (b: bool)
    ensures
        b == usable_secret(v@),
{
    let c = chars_of(v);
    trim_chars(&c).len() > 0 && !eq_str(&c, "replace_me")
}

/// A secret configured for a discrete account counts when it is not blank and,
/// once trimmed, is not the `replace_me` placeholder.
pub open spec fn configured_secret(v: Seq<char>) -> bool {
    trim(v).len() > 0 && trim(v) != "replace_me"@
}

pub fn is_configured_secret(v: &str) -> (b: bool)
    ensures
        b == configured_secret(v@),
{
    let t = trim_chars(&chars_of(v));
    t.len() > 0 && !eq_str(&t, "replace_me")
}

} // verus!

verus! {

/// The accounts the gateway serves with: the pooled and discrete accounts
/// renamed `acc_0001`, `acc_0002`, ... in that order, or, when there are none,
/// the first five template accounts.
pub open spec fn active_accounts_spec(
    found: Seq<AccountConfigView>,
    templates: Seq<AccountConfigView>,
) -> Seq<AccountConfigView> {
    if found.len() == 0 {
        templates.take(if templates.len() < 5 { templates.len() as int } else { 5 })
    } else {
        Seq::new(
            found.len(),
            |i: int| AccountConfigView { id: "acc_"@ + four_digits((i + 1) as nat), ..found[i] },
        )
    }
}

/// Combines the accounts read from a key pool with the discrete accounts whose
/// secrets are configured (see `active_accounts_spec`).
pub fn active_accounts(
    pool: Vec<AccountConfig>,
    discrete: Vec<AccountConfig>,
    templates: &Vec<AccountConfig>,
) -> (r: Vec<AccountConfig>)
    ensures
        accounts_view(r@) == active_accounts_spec(
            accounts_view(pool@) + accounts_view(discrete@),
            accounts_view(templates@),
        ),
{
    let ghost found = accounts_view(pool@) + accounts_view(discrete@);
    let mut all = pool;
    let mut d = discrete;
    all.append(&mut d);
    assert(accounts_view(all@) =~= found);
    let mut r: Vec<AccountConfig> = Vec::new();
    if all.len() == 0 {
        let n = if templates.len() < 5 {
            templates.len()
        } else {
            5
        };
        let mut i: usize = 0;
        while i < n
            invariant
                i <= n <= templates@.len(),
                accounts_view(r@) =~= accounts_view(templates@).take(i as int),
            decreases n - i,
        {
            let ghost before = accounts_view(r@);
            r.push(templates[i].clone());
            assert(accounts_view(r@) =~= before.push(templates@[i as int]@));
            i = i + 1;
        }
        return r;
    }
    let n = all.len();
    let mut i: usize = 0;
    while i < n
        invariant
            i <= n == all@.len(),
            accounts_view(all@) == found,
            accounts_view(r@) =~= active_accounts_spec(found, accounts_view(templates@)).take(i as int),
        decreases n - i,
    {
        let mut a = all[i].clone();
        a.id = numbered("acc_", (i + 1) as u64, 4);
        let ghost before = accounts_view(r@);
        r.push(a);
        assert(accounts_view(r@) =~= before.push(active_accounts_spec(found, accounts_view(templates@))[i as int]));
        i = i + 1;
    }
    r
}

} // verus!

verus! {

/// The names of the accounts the gateway serves with are pairwise distinct:
/// pooled and discrete accounts are renamed `acc_0001`, `acc_0002`, ..., and the
/// template fallback keeps template names that are themselves distinct.
pub proof fn law_served_account_ids_distinct(
    found: Seq<AccountConfigView>,
    templates: Seq<AccountConfigView>,
    i: int,
    j: int,
)
    requires
        0 <= i < j < active_accounts_spec(found, templates).len(),
        found.len() == 0 ==> forall|a: int, b: int|
            0 <= a < b < templates.len() ==> #[trigger] templates[a].id != #[trigger] templates[b].id,
    ensures
        active_accounts_spec(found, templates)[i].id != active_accounts_spec(found, templates)[j].id,
{
    let r = active_accounts_spec(found, templates);
    if found.len() > 0 {
        if r[i].id == r[j].id {
            let p = "acc_"@;
            let x = four_digits((i + 1) as nat);
            let y = four_digits((j + 1) as nat);
            assert((p + x).skip(p.len() as int) =~= x);
            assert((p + y).skip(p.len() as int) =~= y);
            crate::text::lemma_padded_decimal_injective((i + 1) as nat, (j + 1) as nat, 4);
        }
    } else {
        assert(r[i] == templates[i] && r[j] == templates[j]);
    }
}

} // verus!

verus! {

/// A key that may be used: not empty, not `replace_me`, not a placeholder name.
pub open spec fn clean_key(k: Seq<char>) -> bool {
    k.len() > 0 && k != "replace_me"@ && !is_placeholder(lowercase_of(k))
}

pub open spec fn all_clean(ks: Seq<Seq<char>>) -> bool {
    forall|i: int| 0 <= i < ks.len() ==> clean_key(#[trigger] ks[i])
}

proof fn lemma_opt_clean(s: Seq<char>)
    ensures
        all_clean(opt_seq(sanitize_spec(s))),
{
}

proof fn lemma_concat_clean(a: Seq<Seq<char>>, b: Seq<Seq<char>>)
    requires
        all_clean(a),
        all_clean(b),
    ensures
        all_clean(a + b),
{
    assert forall|i: int| 0 <= i < (a + b).len() implies clean_key(#[trigger] (a + b)[i]) by {
        if i < a.len() {
            assert((a + b)[i] == a[i]);
        } else {
            assert((a + b)[i] == b[i - a.len()]);
        }
    }
}

proof fn lemma_chunk_clean(r: Seq<char>)
    ensures
        all_clean(chunk_tokens(r)),
    decreases r.len(),
{
    if r.len() > 0 {
        lemma_next_key_from(r, 0);
        lemma_next_key_from(r, 3);
        match next_key_from(r, 0) {
            Some(pos) => if pos == 0 {
                match next_key_from(r, 3) {
                    Some(c) => {
                        lemma_opt_clean(r.take(c));
                        lemma_chunk_clean(r.skip(c));
                        lemma_concat_clean(opt_seq(sanitize_spec(r.take(c))), chunk_tokens(r.skip(c)));
                    },
                    None => lemma_opt_clean(r),
                }
            } else {
                lemma_opt_clean(r.take(pos));
                lemma_chunk_clean(r.skip(pos));
                lemma_concat_clean(opt_seq(sanitize_spec(r.take(pos))), chunk_tokens(r.skip(pos)));
            },
            None => lemma_opt_clean(r),
        }
    }
}

proof fn lemma_parts_clean(ps: Seq<Seq<char>>)
    ensures
        all_clean(tokens_of_parts(ps)),
    decreases ps.len(),
{
    if ps.len() > 0 {
        lemma_parts_clean(ps.drop_first());
        lemma_chunk_clean(trim(ps[0]));
        lemma_opt_clean(trim(ps[0]));
        lemma_concat_clean(part_tokens(ps[0]), tokens_of_parts(ps.drop_first()));
    }
}

/// The account holds a usable key read from the pool.
pub open spec fn pooled_with_clean_key(a: AccountConfigView) -> bool {
    &&& a.direct_key matches Some(k) && clean_key(k)
    &&& a.secret_name == "GEMINI_KEYS_POOL"@
    &&& a.enabled
}

proof fn lemma_object_accounts_clean(rows: Seq<Seq<Option<Seq<char>>>>)
    ensures
        forall|i: int|
            0 <= i < object_accounts(rows).len() ==> pooled_with_clean_key(
                #[trigger] object_accounts(rows)[i],
            ),
    decreases rows.len(),
{
    if rows.len() > 0 {
        lemma_object_accounts_clean(rows.drop_last());
        let prev = object_accounts(rows.drop_last());
        let extra = opt_account(
            entry_account(rows.last(), rows.len(), default_pool_domain(rows.len())),
        );
        assert(object_accounts(rows) == prev + extra);
        assert forall|i: int| 0 <= i < (prev + extra).len() implies pooled_with_clean_key(
            #[trigger] (prev + extra)[i],
        ) by {
            if i < prev.len() {
                assert((prev + extra)[i] == prev[i]);
            } else {
                assert((prev + extra)[i] == extra[i - prev.len()]);
            }
        }
    }
}

proof fn lemma_string_accounts_clean(keys: Seq<Seq<char>>)
    ensures
        forall|i: int|
            0 <= i < string_accounts(keys).len() ==> pooled_with_clean_key(
                #[trigger] string_accounts(keys)[i],
            ),
    decreases keys.len(),
{
    if keys.len() > 0 {
        lemma_string_accounts_clean(keys.drop_last());
        let prev = string_accounts(keys.drop_last());
        let extra = match sanitize_spec(keys.last()) {
            Some(clean) => seq![pool_account(keys.len(), clean, default_pool_domain(keys.len()))],
            None => seq![],
        };
        assert(string_accounts(keys) == prev + extra);
        assert forall|i: int| 0 <= i < (prev + extra).len() implies pooled_with_clean_key(
            #[trigger] (prev + extra)[i],
        ) by {
            if i < prev.len() {
                assert((prev + extra)[i] == prev[i]);
            } else {
                assert((prev + extra)[i] == extra[i - prev.len()]);
            }
        }
    }
}

/// Whatever a key pool holds, every account read from it carries a usable key:
/// empty entries, `replace_me` and placeholder names never become accounts.
pub proof fn law_pool_accounts_have_clean_keys(raw: Seq<char>)
    ensures
        forall|i: int|
            0 <= i < parse_keys_pool_spec(raw).len() ==> pooled_with_clean_key(
                #[trigger] parse_keys_pool_spec(raw)[i],
            ),
{
    let t = trim(raw);
    match json_object_list_fields(t, entry_fields()) {
        Some(rows) => lemma_object_accounts_clean(rows),
        None => {},
    }
    match json_string_list(t) {
        Some(keys) => lemma_string_accounts_clean(keys),
        None => {},
    }
    lemma_parts_clean(parts(strip_env_name(trim(t))));
}

/// The accounts made from a JSON array of key strings come from the entries in
/// order: the `i`-th account comes from entry `ns[i]` (counted from 1), is named
/// `pool_<ns[i]>` and sits in quota domain `pool-domain-<ns[i]>`, both numbers
/// in four digits, and holds that entry's cleaned key. Every usable entry makes one.
proof fn lemma_string_accounts_entries(keys: Seq<Seq<char>>) -> (ns: Seq<nat>)
    ensures
        ns.len() == string_accounts(keys).len(),
        forall|i: int|
            0 <= i < ns.len() ==> {
                &&& 1 <= #[trigger] ns[i] <= keys.len()
                &&& string_accounts(keys)[i].id == "pool_"@ + four_digits(ns[i])
                &&& string_accounts(keys)[i].quota_domain == "pool-domain-"@ + four_digits(ns[i])
                &&& string_accounts(keys)[i].direct_key == sanitize_spec(keys[ns[i] - 1])
            },
        forall|i: int, j: int| 0 <= i < j < ns.len() ==> ns[i] < ns[j],
        (exists|k: int| 0 <= k < keys.len() && #[trigger] sanitize_spec(keys[k]) is Some) ==> ns.len() > 0,
    decreases keys.len(),
{
    if keys.len() == 0 {
        Seq::empty()
    } else {
        let p = keys.drop_last();
        let ns0 = lemma_string_accounts_entries(p);
        let prev = string_accounts(p);
        let n = keys.len();
        assert forall|i: int| 0 <= i < ns0.len() implies keys[ns0[i] - 1] == p[ns0[i] - 1] by {}
        match sanitize_spec(keys.last()) {
            Some(clean) => {
                let ns = ns0.push(n);
                let r = string_accounts(keys);
                assert(r == prev + seq![pool_account(n, clean, default_pool_domain(n))]);
                assert forall|i: int| 0 <= i < ns.len() implies {
                    &&& 1 <= #[trigger] ns[i] <= keys.len()
                    &&& r[i].id == "pool_"@ + four_digits(ns[i])
                    &&& r[i].quota_domain == "pool-domain-"@ + four_digits(ns[i])
                    &&& r[i].direct_key == sanitize_spec(keys[ns[i] - 1])
                } by {
                    if i < ns0.len() {
                        assert(r[i] == prev[i]);
                        assert(ns[i] == ns0[i]);
                        assert(keys[ns0[i] - 1] == p[ns0[i] - 1]);
                    } else {
                        assert(r[i] == pool_account(n, clean, default_pool_domain(n)));
                        assert(keys[n - 1] == keys.last());
                    }
                }
                ns
            },
            None => {
                let r = string_accounts(keys);
                assert(r == prev + Seq::<AccountConfigView>::empty());
                assert(r =~= prev);
                if exists|k: int| 0 <= k < keys.len() && #[trigger] sanitize_spec(keys[k]) is Some {
                    let k = choose|k: int| 0 <= k < keys.len() && #[trigger] sanitize_spec(keys[k]) is Some;
                    assert(k < n - 1);
                    assert(p[k] == keys[k]);
                    assert(sanitize_spec(p[k]) is Some);
                }
                assert forall|i: int| 0 <= i < ns0.len() implies {
                    &&& 1 <= #[trigger] ns0[i] <= keys.len()
                    &&& r[i].id == "pool_"@ + four_digits(ns0[i])
                    &&& r[i].quota_domain == "pool-domain-"@ + four_digits(ns0[i])
                    &&& r[i].direct_key == sanitize_spec(keys[ns0[i] - 1])
                } by {
                    assert(keys[ns0[i] - 1] == p[ns0[i] - 1]);
                }
                ns0
            },
        }
    }
}

proof fn lemma_prefixed_numbers_differ(prefix: Seq<char>, a: nat, b: nat)
    requires
        a != b,
    ensures
        prefix + four_digits(a) != prefix + four_digits(b),
{
    if prefix + four_digits(a) == prefix + four_digits(b) {
        assert((prefix + four_digits(a)).skip(prefix.len() as int) =~= four_digits(a));
        assert((prefix + four_digits(b)).skip(prefix.len() as int) =~= four_digits(b));
        crate::text::lemma_padded_decimal_injective(a, b, 4);
    }
}

/// A key pool written as a JSON array of key strings gives every entry its own
/// account and its own quota domain: the account made from the `n`-th entry
/// (counted from 1) is `pool_<n>` in quota domain `pool-domain-<n>`, `n` in four
/// digits, and holds that entry's cleaned key; no two accounts share a name or a
/// quota domain, so a rate limit on one key never cools down another.
pub proof fn law_string_pool_entries_own_domains(raw: Seq<char>, keys: Seq<Seq<char>>)
    requires
        starts_with_char(trim(raw), '['),
        json_object_list_fields(trim(raw), entry_fields()) is None,
        json_string_list(trim(raw)) == Some(keys),
        exists|k: int| 0 <= k < keys.len() && #[trigger] sanitize_spec(keys[k]) is Some,
    ensures
        parse_keys_pool_spec(raw).len() > 0,
        forall|i: int|
            0 <= i < parse_keys_pool_spec(raw).len() ==> exists|n: nat|
                1 <= n <= keys.len() && (#[trigger] parse_keys_pool_spec(raw)[i]).id == "pool_"@
                    + four_digits(n) && parse_keys_pool_spec(raw)[i].quota_domain == "pool-domain-"@
                    + four_digits(n) && parse_keys_pool_spec(raw)[i].direct_key == sanitize_spec(
                    keys[n - 1],
                ),
        forall|i: int, j: int|
            0 <= i < j < parse_keys_pool_spec(raw).len() ==> (#[trigger] parse_keys_pool_spec(raw)[i]).quota_domain
                != (#[trigger] parse_keys_pool_spec(raw)[j]).quota_domain && parse_keys_pool_spec(raw)[i].id
                != parse_keys_pool_spec(raw)[j].id,
{
    let t = trim(raw);
    let ns = lemma_string_accounts_entries(keys);
    let sa = string_accounts(keys);
    assert(array_accounts(t) == Some(sa));
    assert(t.len() > 0);
    let r = parse_keys_pool_spec(raw);
    assert(r == sa);
    assert forall|i: int| 0 <= i < r.len() implies exists|n: nat|
        1 <= n <= keys.len() && (#[trigger] r[i]).id == "pool_"@ + four_digits(n) && r[i].quota_domain
            == "pool-domain-"@ + four_digits(n) && r[i].direct_key == sanitize_spec(keys[n - 1]) by {
        let n = ns[i];
        assert(1 <= n <= keys.len());
    }
    assert forall|i: int, j: int| 0 <= i < j < r.len() implies (#[trigger] r[i]).quota_domain
        != (#[trigger] r[j]).quota_domain && r[i].id != r[j].id by {
        assert(ns[i] < ns[j]);
        assert(1 <= ns[i] && 1 <= ns[j]);
        lemma_prefixed_numbers_differ("pool-domain-"@, ns[i], ns[j]);
        lemma_prefixed_numbers_differ("pool_"@, ns[i], ns[j]);
    }
}

/// A key pool written as plain text gives one account per key, in order: the
/// `n`-th key (counted from 1) becomes `pool_<n>` in its own quota domain
/// `pool-domain-<n>`, `n` in four digits; no two accounts share a name or a
/// quota domain.
pub proof fn law_plain_pool_entries_own_domains(raw: Seq<char>)
    requires
        trim(raw).len() > 0,
        !starts_with_char(trim(raw), '['),
        !starts_with_char(trim(raw), '{'),
    ensures
        parse_keys_pool_spec(raw).len() == split_tokens_spec(trim(raw)).len(),
        forall|i: int|
            0 <= i < parse_keys_pool_spec(raw).len() ==> {
                &&& (#[trigger] parse_keys_pool_spec(raw)[i]).id == "pool_"@ + four_digits((i + 1) as nat)
                &&& parse_keys_pool_spec(raw)[i].quota_domain == "pool-domain-"@ + four_digits((i + 1) as nat)
                &&& parse_keys_pool_spec(raw)[i].direct_key == Some(split_tokens_spec(trim(raw))[i])
            },
        forall|i: int, j: int|
            0 <= i < j < parse_keys_pool_spec(raw).len() ==> (#[trigger] parse_keys_pool_spec(raw)[i]).quota_domain
                != (#[trigger] parse_keys_pool_spec(raw)[j]).quota_domain && parse_keys_pool_spec(raw)[i].id
                != parse_keys_pool_spec(raw)[j].id,
{
    let r = parse_keys_pool_spec(raw);
    assert(r == plain_accounts(split_tokens_spec(trim(raw))));
    assert forall|i: int, j: int| 0 <= i < j < r.len() implies (#[trigger] r[i]).quota_domain
        != (#[trigger] r[j]).quota_domain && r[i].id != r[j].id by {
        lemma_prefixed_numbers_differ("pool-domain-"@, (i + 1) as nat, (j + 1) as nat);
        lemma_prefixed_numbers_differ("pool_"@, (i + 1) as nat, (j + 1) as nat);
    }
}

/// The domain the `n`-th object of a JSON pool asks for: its `domain`, else its
/// `project`, else `pool-domain-<n>`.
pub open spec fn entry_domain(row: Seq<Option<Seq<char>>>, n: nat) -> Seq<char> {
    match row[3] {
        Some(d) => d,
        None => match row[4] {
            Some(p) => p,
            None => "pool-domain-"@ + four_digits(n),
        },
    }
}

proof fn lemma_object_accounts_entries(rows: Seq<Seq<Option<Seq<char>>>>) -> (ns: Seq<nat>)
    ensures
        ns.len() == object_accounts(rows).len(),
        forall|i: int|
            0 <= i < ns.len() ==> {
                &&& 1 <= #[trigger] ns[i] <= rows.len()
                &&& object_accounts(rows)[i].id == "pool_"@ + four_digits(ns[i])
                &&& object_accounts(rows)[i].quota_domain == entry_domain(rows[ns[i] - 1], ns[i])
            },
        forall|i: int, j: int| 0 <= i < j < ns.len() ==> ns[i] < ns[j],
    decreases rows.len(),
{
    if rows.len() == 0 {
        Seq::empty()
    } else {
        let p = rows.drop_last();
        let ns0 = lemma_object_accounts_entries(p);
        let prev = object_accounts(p);
        let n = rows.len();
        let extra = opt_account(entry_account(rows.last(), n, default_pool_domain(n)));
        let r = object_accounts(rows);
        assert(r == prev + extra);
        match entry_account(rows.last(), n, default_pool_domain(n)) {
            Some(a) => {
                let ns = ns0.push(n);
                assert forall|i: int| 0 <= i < ns.len() implies {
                    &&& 1 <= #[trigger] ns[i] <= rows.len()
                    &&& r[i].id == "pool_"@ + four_digits(ns[i])
                    &&& r[i].quota_domain == entry_domain(rows[ns[i] - 1], ns[i])
                } by {
                    if i < ns0.len() {
                        assert(r[i] == prev[i]);
                        assert(ns[i] == ns0[i]);
                        assert(rows[ns0[i] - 1] == p[ns0[i] - 1]);
                    } else {
                        assert(r[i] == a);
                        assert(rows[n - 1] == rows.last());
                    }
                }
                ns
            },
            None => {
                assert(r =~= prev);
                assert forall|i: int| 0 <= i < ns0.len() implies {
                    &&& 1 <= #[trigger] ns0[i] <= rows.len()
                    &&& r[i].id == "pool_"@ + four_digits(ns0[i])
                    &&& r[i].quota_domain == entry_domain(rows[ns0[i] - 1], ns0[i])
                } by {
                    assert(rows[ns0[i] - 1] == p[ns0[i] - 1]);
                }
                ns0
            },
        }
    }
}

/// A key pool written as a JSON array of objects gives the account made from the
/// `n`-th object (counted from 1) the name `pool_<n>` and the quota domain that
/// object names (`domain`, else `project`), else its own `pool-domain-<n>`, `n`
/// in four digits; no two accounts share a name.
pub proof fn law_object_pool_entries_own_domains(raw: Seq<char>, rows: Seq<Seq<Option<Seq<char>>>>)
    requires
        starts_with_char(trim(raw), '['),
        json_object_list_fields(trim(raw), entry_fields()) == Some(rows),
        object_accounts(rows).len() > 0,
    ensures
        forall|i: int|
            0 <= i < parse_keys_pool_spec(raw).len() ==> exists|n: nat|
                1 <= n <= rows.len() && (#[trigger] parse_keys_pool_spec(raw)[i]).id == "pool_"@
                    + four_digits(n) && parse_keys_pool_spec(raw)[i].quota_domain == entry_domain(
                    rows[n - 1],
                    n,
                ),
        forall|i: int, j: int|
            0 <= i < j < parse_keys_pool_spec(raw).len() ==> (#[trigger] parse_keys_pool_spec(raw)[i]).id
                != (#[trigger] parse_keys_pool_spec(raw)[j]).id,
{
    let t = trim(raw);
    let ns = lemma_object_accounts_entries(rows);
    assert(t.len() > 0);
    let r = parse_keys_pool_spec(raw);
    assert(r == object_accounts(rows));
    assert forall|i: int| 0 <= i < r.len() implies exists|n: nat|
        1 <= n <= rows.len() && (#[trigger] r[i]).id == "pool_"@ + four_digits(n) && r[i].quota_domain
            == entry_domain(rows[n - 1], n) by {
        assert(1 <= ns[i] <= rows.len());
    }
    assert forall|i: int, j: int| 0 <= i < j < r.len() implies (#[trigger] r[i]).id != (#[trigger] r[j]).id by {
        assert(ns[i] < ns[j]);
        lemma_prefixed_numbers_differ("pool_"@, ns[i], ns[j]);
    }
}

} // verus!
