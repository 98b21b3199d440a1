//! Proxy-token check on the `Authorization` header.
use vstd::prelude::*;
use crate::error::GatewayError;
use crate::text::{back_from, chars_of, first_from, is_ws, lemma_back_from_bounds, lemma_first_from_bounds, occurs_at, slice_chars, string_of, trim, trim_chars};

verus! {

/// The outcome of checking an `Authorization` header against the proxy token:
/// `Ok` when it is accepted, else the reason given with the 401.
pub open spec fn bearer_check(header: Option<Seq<char>>, expected: Seq<char>) -> Result<(), Seq<char>> {
    match header {
        None => Err("Missing Authorization header"@),
        Some(h) => {
            let t = trim(h);
            if t.len() == 0 {
                Err("Missing Authorization header"@)
            } else if !occurs_at(t, "Bearer "@, 0) && !occurs_at(t, "bearer "@, 0) {
                Err("Authorization scheme must be Bearer"@)
            } else if trim(t.skip(7)) == expected {
                Ok(())
            } else {
                Err("Invalid proxy token"@)
            }
        },
    }
}

pub open spec fn opt_view(o: Option<&str>) -> Option<Seq<char>> {
    match o {
        Some(s) => Some(s@),
        None => None,
    }
}

/// Checks `Authorization: Bearer <token>` (scheme `Bearer` or `bearer`) against
/// the expected proxy token; surrounding whitespace is ignored.
pub fn verify_bearer_token(auth_header: Option<&str>, expected_token: &str) -> (r: Result<(), GatewayError>)
    ensures
        match (r, bearer_check(opt_view(auth_header), expected_token@)) {
            (Ok(()), Ok(())) => true,
            (Err(GatewayError::Unauthorized(m)), Err(reason)) => m@ == reason,
            _ => false,
        },
{
    let header = match auth_header {
        Some(h) => {
            let t = trim_chars(&chars_of(h));
            if t.len() == 0 {
                return Err(GatewayError::Unauthorized("Missing Authorization header".to_owned()));
            }
            t
        },
        None => {
            return Err(GatewayError::Unauthorized("Missing Authorization header".to_owned()));
        },
    };
    let upper = chars_of("Bearer ");
    let lower = chars_of("bearer ");
    let n = header.len();
    let has_scheme = n >= 7 && (crate::text::find(&header, &upper, 0) == Some(0usize)
        || crate::text::find(&header, &lower, 0) == Some(0usize));
    proof {
        crate::text::lemma_find_from(header@, upper@, 0);
        crate::text::lemma_find_from(header@, lower@, 0);
        assert(upper@.len() == 7 && lower@.len() == 7) by {
            reveal_strlit("Bearer ");
            reveal_strlit("bearer ");
        }
    }
    if !has_scheme {
        return Err(GatewayError::Unauthorized("Authorization scheme must be Bearer".to_owned()));
    }
    let token = trim_chars(&slice_chars(&header, 7, n));
    assert(header@.subrange(7, n as int) =~= header@.skip(7));
    let token_str = string_of(token.as_slice());
    let same = constant_time_eq(token_str.as_str().as_bytes(), expected_token.as_bytes());
    proof {
        vstd::utf8::encode_utf8_decode_utf8(token@);
        vstd::utf8::encode_utf8_decode_utf8(expected_token@);
    }
    if same {
        Ok(())
    } else {
        Err(GatewayError::Unauthorized("Invalid proxy token".to_owned()))
    }
}

/// Compares two byte strings in time that depends on their length only.
pub fn constant_time_eq(a: &[u8], b: &[u8]) -> (eq: bool)
    ensures
        eq == (a@ == b@),
{
    if a.len() != b.len() {
        return false;
    }
    let n = a.len();
    let mut diff: u8 = 0;
    let mut i: usize = 0;
    while i < n
        invariant
            n == a@.len() == b@.len(),
            i <= n,
            (diff == 0) <==> (forall|k: int| 0 <= k < i ==> a@[k] == b@[k]),
        decreases n - i,
    {
        let x = a[i];
        let y = b[i];
        let d = diff | (x ^ y);
        assert((d == 0) <==> (diff == 0 && x == y)) by (bit_vector)
            requires
                d == diff | (x ^ y),
        ;
        diff = d;
        i = i + 1;
    }
    assert(diff == 0 ==> a@ =~= b@);
    diff == 0
}

} // verus!

verus! {

/// A client that sends `Bearer <token>` (or `bearer <token>`) with the proxy
/// token is let through, whatever the token, as long as the token itself has no
/// surrounding whitespace.
pub proof fn law_own_token_accepted(token: Seq<char>)
    requires
        token.len() > 0,
        trim(token) == token,
    ensures
        bearer_check(Some("Bearer "@ + token), token) == Ok::<(), Seq<char>>(()),
        bearer_check(Some("bearer "@ + token), token) == Ok::<(), Seq<char>>(()),
{
    reveal_strlit("Bearer ");
    reveal_strlit("bearer ");
    let keep = |c: char| !is_ws(c);
    let a = first_from(token, 0, keep);
    lemma_first_from_bounds(token, 0, keep);
    lemma_back_from_bounds(token, a, token.len() as int, keep);
    let b = back_from(token, a, token.len() as int, keep);
    assert(token.subrange(a, b).len() == token.len());
    assert(keep(token[token.len() - 1]));
    assert(keep(token[0]));
    for_scheme("Bearer "@, token);
    for_scheme("bearer "@, token);
}

proof fn for_scheme(scheme: Seq<char>, token: Seq<char>)
    requires
        scheme.len() == 7,
        scheme == "Bearer "@ || scheme == "bearer "@,
        !is_ws(scheme[0]),
        token.len() > 0,
        !is_ws(token[token.len() - 1]),
        trim(token) == token,
    ensures
        bearer_check(Some(scheme + token), token) == Ok::<(), Seq<char>>(()),
{
    let s = scheme + token;
    let keep = |c: char| !is_ws(c);
    assert(first_from(s, 0, keep) == 0);
    assert(back_from(s, 0, s.len() as int, keep) == s.len());
    assert(trim(s) =~= s);
    assert(s.subrange(0, 7) =~= scheme);
    assert(s.skip(7) =~= token);
}

} // verus!
