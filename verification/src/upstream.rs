//! The fixed upstream endpoint.
use vstd::prelude::*;
use crate::config::UpstreamConfig;
use crate::text::{back_from, chars_of, slice_chars, string_of};

verus! {

/// `s` without its trailing `/` characters, as `str::trim_end_matches('/')` gives it.
pub open spec fn trim_slashes(s: Seq<char>) -> Seq<char> {
    s.take(back_from(s, 0, s.len() as int, |c: char| c != '/'))
}

pub fn trim_trailing_slashes(s: &str) -> (r: String)
    ensures
        r@ == trim_slashes(s@),
{
    let v = chars_of(s);
    let ghost keep = |c: char| c != '/';
    let mut b: usize = v.len();
    while b > 0 && v[b - 1] == '/'
        invariant
            b <= v@.len(),
            keep == (|c: char| c != '/'),
            back_from(v@, 0, v@.len() as int, keep) == back_from(v@, 0, b as int, keep),
        decreases b,
    {
        assert(!keep(v@[b - 1]));
        b = b - 1;
    }
    let t = slice_chars(&v, 0, b);
    assert(t@ =~= v@.take(b as int));
    string_of(t.as_slice())
}

/// The client for the upstream OpenAI-compatible Gemini endpoint.
#[derive(Debug)]
pub struct UpstreamClient {
    pub base_url: String,
}

impl UpstreamClient {
    pub fn new(cfg: &UpstreamConfig) -> (c: Self)
        ensures
            c.base_url@ == trim_slashes(cfg.base_url@),
    {
        UpstreamClient { base_url: trim_trailing_slashes(cfg.base_url.as_str()) }
    }

    /// The only URL requests are sent to: `<base_url>/chat/completions`.
    pub fn chat_completions_url(&self) -> (u: String)
        ensures
            u@ == self.base_url@ + "/chat/completions"@,
    {
        crate::text::concat(self.base_url.as_str(), "/chat/completions")
    }
}

} // verus!
