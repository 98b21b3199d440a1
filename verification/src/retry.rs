//! Classification of upstream failures and the first-byte retry guard.
use vstd::prelude::*;
use std::collections::HashMap;
use crate::text::{chars_of, parse_u64, parse_u64_spec, trim, trim_chars};

verus! {

#[derive(Debug, Clone, PartialEq)]
pub enum ErrorClassification {
    RetryableRateLimit { retry_after_ms: Option<u64> },
    RetryableServerError { status: u16 },
    RetryableNetworkError { message: String },
    PermanentAuthError { status: u16, message: String },
    PermanentClientError { status: u16, message: String },
    Unknown { status: u16 },
}

impl ErrorClassification {
    /// Rate limits, upstream 5xx and network failures may be retried on another account.
    pub fn is_retryable(&self) -> (b: bool)
        ensures
            b == (self is RetryableRateLimit || self is RetryableServerError
                || self is RetryableNetworkError),
    {
        match self {
            ErrorClassification::RetryableRateLimit { .. }
            | ErrorClassification::RetryableServerError { .. }
            | ErrorClassification::RetryableNetworkError { .. } => true,
            _ => false,
        }
    }

    pub fn is_permanent_auth(&self) -> (b: bool)
        ensures
            b == (self is PermanentAuthError),
    {
        match self {
            ErrorClassification::PermanentAuthError { .. } => true,
            _ => false,
        }
    }
}

/// The delay a `Retry-After` value asks for, in milliseconds and capped at `cap_ms`.
pub open spec fn retry_after_spec(header: Option<Seq<char>>, cap_ms: u64) -> Option<u64> {
    match header {
        None => None,
        Some(h) => match parse_u64_spec(trim(h)) {
            None => None,
            Some(secs) => {
                let ms: int = if secs * 1000 > u64::MAX {
                    u64::MAX as int
                } else {
                    secs * 1000
                };
                Some(if ms < cap_ms {
                    ms as u64
                } else {
                    cap_ms
                })
            },
        },
    }
}

/// A rate-limited account never waits longer than the cap because of what
/// the upstream's `Retry-After` asks for.
pub proof fn law_retry_after_is_capped(header: Option<Seq<char>>, cap_ms: u64)
    ensures
        retry_after_spec(header, cap_ms) matches Some(ms) ==> ms <= cap_ms,
{
}

/// Reads a `Retry-After` value given in whole seconds.
pub fn parse_retry_after(header_val: Option<&str>, cap_ms: u64) -> (r: Option<u64>)
    ensures
        r == retry_after_spec(
            match header_val {
                Some(h) => Some(h@),
                None => None,
            },
            cap_ms,
        ),
{
    let h = match header_val {
        Some(h) => h,
        None => {
            return None;
        },
    };
    let v = trim_chars(&chars_of(h));
    match parse_u64(&v) {
        None => None,
        Some(seconds) => {
            let ms = if seconds > u64::MAX / 1000 {
                u64::MAX
            } else {
                seconds * 1000
            };
            Some(if ms < cap_ms {
                ms
            } else {
                cap_ms
            })
        },
    }
}

/// `r` is how an upstream HTTP status is classified, given the `Retry-After` value found.
pub open spec fn classified_as(
    r: ErrorClassification,
    status: u16,
    retry_after: Option<Seq<char>>,
    cap_ms: u64,
) -> bool {
    if status == 429 {
        r == ErrorClassification::RetryableRateLimit {
            retry_after_ms: retry_after_spec(retry_after, cap_ms),
        }
    } else if status == 500 || status == 502 || status == 503 || status == 504 {
        r == ErrorClassification::RetryableServerError { status }
    } else if status == 401 || status == 403 {
        r matches ErrorClassification::PermanentAuthError { status: s, message: m } && s == status
            && m@ == "Authentication failure from upstream Gemini API"@
    } else if status == 400 || status == 404 || status == 413 || status == 422 {
        r matches ErrorClassification::PermanentClientError { status: s, message: m } && s == status
            && m@ == "Client request error from upstream"@
    } else {
        r == ErrorClassification::Unknown { status }
    }
}

/// Classifies an upstream status whose `Retry-After` header (if any) is `retry_after`.
pub fn classify_status(status: u16, retry_after: Option<&str>, cap_ms: u64) -> (r: ErrorClassification)
    ensures
        classified_as(
            r,
            status,
            match retry_after {
                Some(h) => Some(h@),
                None => None,
            },
            cap_ms,
        ),
{
    if status == 429 {
        ErrorClassification::RetryableRateLimit { retry_after_ms: parse_retry_after(retry_after, cap_ms) }
    } else if status == 500 || status == 502 || status == 503 || status == 504 {
        ErrorClassification::RetryableServerError { status }
    } else if status == 401 || status == 403 {
        ErrorClassification::PermanentAuthError {
            status,
            message: "Authentication failure from upstream Gemini API".to_owned(),
        }
    } else if status == 400 || status == 404 || status == 413 || status == 422 {
        ErrorClassification::PermanentClientError {
            status,
            message: "Client request error from upstream".to_owned(),
        }
    } else {
        ErrorClassification::Unknown { status }
    }
}

/// `headers` maps a key spelled `name` to `value`.
pub open spec fn header_has(headers: Map<String, String>, name: Seq<char>, value: Seq<char>) -> bool {
    exists|k: String| #[trigger] headers.contains_key(k) && k@ == name && headers[k]@ == value
}

/// `headers` has no key spelled `name`.
pub open spec fn header_absent(headers: Map<String, String>, name: Seq<char>) -> bool {
    forall|k: String| #[trigger] headers.contains_key(k) ==> k@ != name
}

/// The value under `name` in a header map.
///
/// Calls `HashMap::get`; the contract claims that a `String` key is found exactly
/// when a key with the same characters is present, and that the value under it is returned.
#[verifier::external_body]
fn header_value<'a>(headers: &'a HashMap<String, String>, name: &str) -> (r: Option<&'a String>)
    ensures
        r matches Some(v) ==> header_has(headers@, name@, v@),
        r is None ==> header_absent(headers@, name@),
{
    headers.get(name)
}

/// The `Retry-After` value picked from `headers`: the lowercase key first, then `Retry-After`.
pub open spec fn retry_after_pick(headers: Map<String, String>, picked: Option<Seq<char>>) -> bool {
    match picked {
        Some(v) => header_has(headers, "retry-after"@, v) || (header_absent(headers, "retry-after"@)
            && header_has(headers, "Retry-After"@, v)),
        None => header_absent(headers, "retry-after"@) && header_absent(headers, "Retry-After"@),
    }
}

/// Classifies an upstream HTTP status; a 429 carries the capped `Retry-After` delay.
pub fn classify_upstream_response(
    status: u16,
    headers: &HashMap<String, String>,
    cap_ms: u64,
) -> (r: ErrorClassification)
    ensures
        exists|picked: Option<Seq<char>>|
            retry_after_pick(headers@, picked) && classified_as(r, status, picked, cap_ms),
{
    let found = match header_value(headers, "retry-after") {
        Some(v) => Some(v),
        None => header_value(headers, "Retry-After"),
    };
    let r = match found {
        Some(v) => classify_status(status, Some(v.as_str()), cap_ms),
        None => classify_status(status, None, cap_ms),
    };
    proof {
        let picked = match found {
            Some(v) => Some(v@),
            None => None::<Seq<char>>,
        };
        assert(retry_after_pick(headers@, picked));
        assert(classified_as(r, status, picked, cap_ms));
    }
    r
}

/// Tracks how far an upstream exchange has gone; once the first byte has been
/// sent to the client, the request may not be replayed.
#[derive(Debug, Clone)]
pub struct FirstByteGuard {
    pub request_started: bool,
    pub upstream_headers_received: bool,
    pub first_byte_sent: bool,
    pub stream_started: bool,
}

impl Default for FirstByteGuard {
    fn default() -> (g: Self)
        ensures
            g.request_started && !g.upstream_headers_received && !g.first_byte_sent
                && !g.stream_started,
    {
        FirstByteGuard {
            request_started: true,
            upstream_headers_received: false,
            first_byte_sent: false,
            stream_started: false,
        }
    }
}

impl FirstByteGuard {
    pub fn new() -> (g: Self)
        ensures
            g.request_started && !g.upstream_headers_received && !g.first_byte_sent
                && !g.stream_started,
    {
        Self::default()
    }

    pub fn mark_headers_received(&mut self)
        ensures
            *final(self) == (FirstByteGuard { upstream_headers_received: true, ..*old(self) }),
    {
        self.upstream_headers_received = true;
    }

    pub fn mark_stream_started(&mut self)
        ensures
            *final(self) == (FirstByteGuard {
                stream_started: true,
                first_byte_sent: true,
                ..*old(self)
            }),
    {
        self.stream_started = true;
        self.first_byte_sent = true;
    }

    /// A retry is allowed only while nothing has been sent to the client.
    pub fn can_retry(&self) -> (b: bool)
        ensures
            b == !self.first_byte_sent,
    {
        !self.first_byte_sent
    }
}

} // verus!
