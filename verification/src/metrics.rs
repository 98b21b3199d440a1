//! Structured request log records and request ids.
use vstd::prelude::*;
use crate::text::{chars_of, digits, format_unsigned, string_of, zero_pad};

verus! {

/// One structured log record about an upstream attempt. It carries no key,
/// token or prompt text.
#[derive(Debug)]
pub struct RequestLogEvent<'a> {
    pub request_id: &'a str,
    pub account_id: &'a str,
    pub quota_domain: &'a str,
    pub model: &'a str,
    pub stream: bool,
    pub attempt: usize,
    pub status: u16,
    pub ttfb_ms: u64,
    pub duration_ms: u64,
    pub event: Option<&'a str>,
}

/// `req_` followed by the time in milliseconds as 12 lowercase hex digits (more when it is larger).
pub open spec fn request_id_spec(now_ms: u64) -> Seq<char> {
    "req_"@ + zero_pad(digits(now_ms as nat, 16), 12)
}

/// The request id for a request received at `now_ms` milliseconds since the epoch.
pub fn generate_request_id(now_ms: u64) -> (id: String)
    ensures
        id@ == request_id_spec(now_ms),
{
    let mut v = chars_of("req_");
    let mut hex = format_unsigned(now_ms, 16, 12);
    v.append(&mut hex);
    string_of(v.as_slice())
}

} // verus!
