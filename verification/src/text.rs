//! Character-level text helpers shared by the parsing and formatting code.
//!
//! Strings are handled as sequences of `char`s; every helper states its
//! result over `Seq<char>` so that callers can phrase contracts on views.
use vstd::prelude::*;
use vstd::multiset::Multiset;

verus! {

/// Unicode `White_Space` (the set that `char::is_whitespace` and `str::trim` use).
pub open spec fn is_ws(c: char) -> bool {
    let u = c as u32;
    ||| 0x09 <= u <= 0x0D
    ||| u == 0x20
    ||| u == 0x85
    ||| u == 0xA0
    ||| u == 0x1680
    ||| 0x2000 <= u <= 0x200A
    ||| u == 0x2028
    ||| u == 0x2029
    ||| u == 0x202F
    ||| u == 0x205F
    ||| u == 0x3000
}

pub fn is_whitespace(c: char) -> (b: bool)
    ensures
        b == is_ws(c),
{
    let u = c as u32;
    (0x09 <= u && u <= 0x0D) || u == 0x20 || u == 0x85 || u == 0xA0 || u == 0x1680 || (0x2000 <= u
        && u <= 0x200A) || u == 0x2028 || u == 0x2029 || u == 0x202F || u == 0x205F || u == 0x3000
}

/// Index of the first character at or after `i` that satisfies `keep`
/// (the length of `s` when there is none).
pub open spec fn first_from(s: Seq<char>, i: int, keep: spec_fn(char) -> bool) -> int
    decreases s.len() - i,
{
    if i >= s.len() {
        s.len() as int
    } else if keep(s[i]) {
        i
    } else {
        first_from(s, i + 1, keep)
    }
}

/// End (exclusive) of the last character in `lo..j` that satisfies `keep`
/// (`lo` when there is none).
pub open spec fn back_from(s: Seq<char>, lo: int, j: int, keep: spec_fn(char) -> bool) -> int
    decreases j - lo,
{
    if j <= lo {
        lo
    } else if keep(s[j - 1]) {
        j
    } else {
        back_from(s, lo, j - 1, keep)
    }
}

/// `s` with the leading and trailing characters outside `keep` removed.
pub open spec fn strip_by(s: Seq<char>, keep: spec_fn(char) -> bool) -> Seq<char> {
    let a = first_from(s, 0, keep);
    s.subrange(a, back_from(s, a, s.len() as int, keep))
}

/// What `str::trim` gives back.
pub open spec fn trim(s: Seq<char>) -> Seq<char> {
    strip_by(s, |c: char| !is_ws(c))
}

pub proof fn lemma_first_from_bounds(s: Seq<char>, i: int, keep: spec_fn(char) -> bool)
    requires
        0 <= i,
    ensures
        i <= first_from(s, i, keep) <= s.len() || (i > s.len() && first_from(s, i, keep) == s.len()),
        first_from(s, i, keep) < s.len() ==> keep(s[first_from(s, i, keep)]),
        forall|k: int| i <= k < first_from(s, i, keep) ==> !keep(#[trigger] s[k]),
    decreases s.len() - i,
{
    if i < s.len() && !keep(s[i]) {
        lemma_first_from_bounds(s, i + 1, keep);
    }
}

pub proof fn lemma_back_from_bounds(s: Seq<char>, lo: int, j: int, keep: spec_fn(char) -> bool)
    requires
        lo <= j,
    ensures
        lo <= back_from(s, lo, j, keep) <= j,
        back_from(s, lo, j, keep) > lo ==> keep(s[back_from(s, lo, j, keep) - 1]),
        forall|k: int| back_from(s, lo, j, keep) <= k < j ==> !keep(#[trigger] s[k]),
    decreases j - lo,
{
    if j > lo && !keep(s[j - 1]) {
        lemma_back_from_bounds(s, lo, j - 1, keep);
    }
}

/// Which characters a trimming operation removes from both ends.
#[derive(Clone, Copy, PartialEq, Eq)]
pub enum TrimSet {
    Whitespace,
    /// Quotes, brackets, braces, commas and semicolons.
    Wrappers,
}

pub open spec fn is_wrapper(c: char) -> bool {
    c == '[' || c == ']' || c == '{' || c == '}' || c == '"' || c == '\'' || c == ',' || c == ';'
}

pub open spec fn removed_by(set: TrimSet, c: char) -> bool {
    match set {
        TrimSet::Whitespace => is_ws(c),
        TrimSet::Wrappers => is_wrapper(c),
    }
}

pub open spec fn strip_set(s: Seq<char>, set: TrimSet) -> Seq<char> {
    strip_by(s, |c: char| !removed_by(set, c))
}

fn removes(set: TrimSet, c: char) -> (b: bool)
    ensures
        b == removed_by(set, c),
{
    match set {
        TrimSet::Whitespace => is_whitespace(c),
        TrimSet::Wrappers => c == '[' || c == ']' || c == '{' || c == '}' || c == '"' || c == '\''
            || c == ',' || c == ';',
    }
}

/// Removes the characters of `set` from both ends of `v`.
pub fn strip(v: &Vec<char>, set: TrimSet) -> (r: Vec<char>)
    ensures
        r@ == strip_set(v@, set),
{
    let ghost keep = |c: char| !removed_by(set, c);
    let n = v.len();
    let mut a: usize = 0;
    while a < n && removes(set, v[a])
        invariant
            a <= n == v@.len(),
            keep == (|c: char| !removed_by(set, c)),
            first_from(v@, 0, keep) == first_from(v@, a as int, keep),
        decreases n - a,
    {
        assert(!keep(v@[a as int]));
        a = a + 1;
    }
    let mut b: usize = n;
    while b > a && removes(set, v[b - 1])
        invariant
            a <= b <= n == v@.len(),
            keep == (|c: char| !removed_by(set, c)),
            first_from(v@, 0, keep) == a,
            back_from(v@, a as int, n as int, keep) == back_from(v@, a as int, b as int, keep),
        decreases b - a,
    {
        assert(!keep(v@[b - 1]));
        b = b - 1;
    }
    slice_chars(v, a, b)
}

/// Removes whitespace from both ends of `v`, as `str::trim` does.
pub fn trim_chars(v: &Vec<char>) -> (r: Vec<char>)
    ensures
        r@ == trim(v@),
{
    let r = strip(v, TrimSet::Whitespace);
    assert(strip_set(v@, TrimSet::Whitespace) =~= trim(v@)) by {
        let k1 = |c: char| !removed_by(TrimSet::Whitespace, c);
        let k2 = |c: char| !is_ws(c);
        assert(k1 =~= k2);
    }
    r
}

/// The characters `v[lo..hi]`.
pub fn slice_chars(v: &Vec<char>, lo: usize, hi: usize) -> (r: Vec<char>)
    requires
        lo <= hi <= v@.len(),
    ensures
        r@ == v@.subrange(lo as int, hi as int),
{
    let mut r: Vec<char> = Vec::new();
    let mut i: usize = lo;
    while i < hi
        invariant
            lo <= i <= hi <= v@.len(),
            r@ == v@.subrange(lo as int, i as int),
        decreases hi - i,
    {
        r.push(v[i]);
        i = i + 1;
    }
    r
}

/// The characters of a string slice, in order.
pub fn chars_of(s: &str) -> (v: Vec<char>)
    ensures
        v@ == s@,
{
    let mut v: Vec<char> = Vec::new();
    for c in it: s.chars()
        invariant
            it.seq() == s@,
            v@ == it.seq().take(it.index() as int),
    {
        v.push(c);
    }
    v
}

/// A `String` holding exactly the given characters.
///
/// Calls `String::from_iter` over the characters; the contract claims that the
/// string holds them in order.
#[verifier::external_body]
pub(crate) fn string_of(v: &[char]) -> (s: String)
    ensures
        s@ == v@,
{
    String::from_iter(v)
}

/// `p` occurs in `s` starting at index `i`.
pub open spec fn occurs_at(s: Seq<char>, p: Seq<char>, i: int) -> bool {
    0 <= i && i + p.len() <= s.len() && s.subrange(i, i + p.len()) == p
}

/// First index at or after `i` at which `p` occurs in `s`, as `str::find` reports it.
pub open spec fn find_from(s: Seq<char>, p: Seq<char>, i: int) -> Option<int>
    decreases s.len() + 1 - i,
{
    if i < 0 || i + p.len() > s.len() {
        None
    } else if occurs_at(s, p, i) {
        Some(i)
    } else {
        find_from(s, p, i + 1)
    }
}

pub open spec fn has_sub(s: Seq<char>, p: Seq<char>) -> bool {
    find_from(s, p, 0) is Some
}

pub proof fn lemma_find_from(s: Seq<char>, p: Seq<char>, i: int)
    requires
        0 <= i,
    ensures
        find_from(s, p, i) matches Some(k) ==> i <= k && occurs_at(s, p, k) && forall|j: int|
            i <= j < k ==> !occurs_at(s, p, j),
        find_from(s, p, i) is None ==> forall|j: int| i <= j ==> !occurs_at(s, p, j),
    decreases s.len() + 1 - i,
{
    if i + p.len() <= s.len() && !occurs_at(s, p, i) {
        lemma_find_from(s, p, i + 1);
    }
}

fn occurs_here(s: &Vec<char>, p: &Vec<char>, i: usize) -> (b: bool)
    requires
        i + p@.len() <= s@.len(),
    ensures
        b == occurs_at(s@, p@, i as int),
{
    let m = p.len();
    let n = s.len();
    let mut j: usize = 0;
    while j < m
        invariant
            i + m <= n == s@.len(),
            m == p@.len(),
            j <= m,
            forall|k: int| 0 <= k < j ==> s@[i + k] == p@[k],
        decreases m - j,
    {
        if s[i + j] != p[j] {
            assert(s@.subrange(i as int, i + m)[j as int] != p@[j as int]);
            return false;
        }
        j = j + 1;
    }
    assert(s@.subrange(i as int, i + m) =~= p@);
    true
}

/// First occurrence of `p` in `s` at or after `from`.
pub fn find(s: &Vec<char>, p: &Vec<char>, from: usize) -> (r: Option<usize>)
    ensures
        r == (match find_from(s@, p@, from as int) {
            Some(k) => Some(k as usize),
            None => None::<usize>,
        }),
{
    let n = s.len();
    let m = p.len();
    let mut i: usize = from;
    if i > n || m > n - i {
        return None;
    }
    if m == 0 {
        assert(s@.subrange(i as int, i as int) =~= p@);
        return Some(i);
    }
    while i <= n - m
        invariant
            m == p@.len(),
            n == s@.len(),
            1 <= m <= n,
            from <= i <= n - m + 1,
            find_from(s@, p@, from as int) == find_from(s@, p@, i as int),
        decreases n - m + 1 - i,
    {
        if occurs_here(s, p, i) {
            return Some(i);
        }
        i = i + 1;
    }
    None
}

pub fn contains(s: &Vec<char>, p: &Vec<char>) -> (b: bool)
    ensures
        b == has_sub(s@, p@),
{
    find(s, p, 0).is_some()
}

} // verus!

verus! {

/// The ASCII digit for `d` in base 16 (lowercase letters above 9).
pub open spec fn digit_char(d: nat) -> char {
    if d < 10 {
        ((48 + d) as u8) as char
    } else {
        ((87 + d) as u8) as char
    }
}

/// The digits of `n` in base `b`, most significant first, without leading zeros.
pub open spec fn digits(n: nat, b: nat) -> Seq<char>
    decreases n,
{
    if b < 2 || n < b {
        seq![digit_char(n)]
    } else {
        proof {
            assert(n / b < n) by (nonlinear_arith)
                requires
                    b >= 2,
                    n >= b,
            ;
        }
        digits(n / b, b).push(digit_char(n % b))
    }
}

/// `{}` of an unsigned integer.
pub open spec fn decimal(n: nat) -> Seq<char> {
    digits(n, 10)
}

/// `k` zero characters.
pub open spec fn zeros(k: int) -> Seq<char> {
    Seq::new(if k < 0 { 0nat } else { k as nat }, |i: int| '0')
}

/// `s` left-padded with zeros to at least `w` characters, as the `0w` format flag does.
pub open spec fn zero_pad(s: Seq<char>, w: nat) -> Seq<char> {
    zeros(w - s.len()) + s
}

fn digit_of(d: u64) -> (c: char)
    requires
        d < 16,
    ensures
        c == digit_char(d as nat),
{
    if d < 10 {
        ((48 + d) as u8) as char
    } else {
        ((87 + d) as u8) as char
    }
}

/// The digits of `n` in base `base` (10 or 16), zero-padded to `width`.
pub fn format_unsigned(n: u64, base: u64, width: usize) -> (r: Vec<char>)
    requires
        base == 10 || base == 16,
    ensures
        r@ == zero_pad(digits(n as nat, base as nat), width as nat),
{
    let mut acc: Vec<char> = Vec::new();
    let mut q: u64 = n;
    while q >= base
        invariant
            base == 10 || base == 16,
            digits(n as nat, base as nat) == digits(q as nat, base as nat) + acc@,
        decreases q,
    {
        let c = digit_of(q % base);
        acc.insert(0, c);
        assert(digits(q as nat, base as nat) == digits((q / base) as nat, base as nat).push(c));
        q = q / base;
        assert(digits(n as nat, base as nat) == digits(q as nat, base as nat) + acc@);
    }
    acc.insert(0, digit_of(q));
    assert(acc@ =~= digits(n as nat, base as nat));
    let mut out: Vec<char> = Vec::new();
    let len = acc.len();
    let mut k: usize = 0;
    while k + len < width
        invariant
            out@ =~= zeros(k as int),
            k + len <= width || k == 0,
        decreases width - k,
    {
        out.push('0');
        k = k + 1;
    }
    assert(out@ =~= zeros(width - len));
    out.append(&mut acc);
    out
}

/// `{}` of `n` as a `String`.
pub fn decimal_string(n: u64) -> (s: String)
    ensures
        s@ == decimal(n as nat),
{
    let v = format_unsigned(n, 10, 0);
    assert(zeros(0 - digits(n as nat, 10).len()) =~= Seq::<char>::empty());
    assert(v@ =~= decimal(n as nat));
    string_of(v.as_slice())
}

/// `a` followed by `b`.
pub fn concat(a: &str, b: &str) -> (s: String)
    ensures
        s@ == a@ + b@,
{
    let mut v = chars_of(a);
    let mut w = chars_of(b);
    v.append(&mut w);
    string_of(v.as_slice())
}

} // verus!

verus! {

pub open spec fn is_digit(c: char) -> bool {
    48 <= c as u32 <= 57
}

/// The number written by a string of ASCII digits.
pub open spec fn digits_value(s: Seq<char>) -> nat
    decreases s.len(),
{
    if s.len() == 0 {
        0
    } else {
        digits_value(s.drop_last()) * 10 + (s.last() as u32 - 48) as nat
    }
}

pub open spec fn all_digits(s: Seq<char>) -> bool {
    forall|i: int| 0 <= i < s.len() ==> is_digit(#[trigger] s[i])
}

/// What `str::parse::<u64>` accepts: an optional `+`, then one or more ASCII
/// digits whose value fits in a `u64`.
pub open spec fn parse_u64_spec(s: Seq<char>) -> Option<u64> {
    let d = if s.len() > 0 && s[0] == '+' {
        s.skip(1)
    } else {
        s
    };
    if d.len() > 0 && all_digits(d) && digits_value(d) <= u64::MAX {
        Some(digits_value(d) as u64)
    } else {
        None
    }
}

pub proof fn lemma_digits_value_mono(s: Seq<char>, k: int)
    requires
        0 <= k <= s.len(),
        all_digits(s),
    ensures
        digits_value(s.take(k)) <= digits_value(s),
    decreases s.len() - k,
{
    if k < s.len() {
        lemma_digits_value_mono(s, k + 1);
        assert(s.take(k + 1).drop_last() =~= s.take(k));
        assert(is_digit(s[k]));
    } else {
        assert(s.take(k) =~= s);
    }
}

/// Parses a decimal `u64` the way `str::parse::<u64>` does.
pub fn parse_u64(v: &Vec<char>) -> (r: Option<u64>)
    ensures
        r == parse_u64_spec(v@),
{
    let n = v.len();
    let start: usize = if n > 0 && v[0] == '+' {
        1
    } else {
        0
    };
    let ghost d = if v@.len() > 0 && v@[0] == '+' {
        v@.skip(1)
    } else {
        v@
    };
    assert(d =~= v@.subrange(start as int, n as int));
    if start >= n {
        return None;
    }
    let mut acc: u64 = 0;
    let mut i: usize = start;
    while i < n
        invariant
            start <= i <= n == v@.len(),
            start < n,
            d =~= v@.subrange(start as int, n as int),
            d == (if v@.len() > 0 && v@[0] == '+' {
                v@.skip(1)
            } else {
                v@
            }),
            all_digits(d.take(i - start)),
            acc as nat == digits_value(d.take(i - start)),
        decreases n - i,
    {
        let c = v[i];
        let u = c as u32;
        if u < 48 || u > 57 {
            assert(d[i - start] == c);
            assert(!is_digit(d[i - start]));
            return None;
        }
        let dig = (u - 48) as u64;
        assert(d.take(i - start + 1).drop_last() =~= d.take(i - start));
        if acc > (u64::MAX - dig) / 10 {
            proof {
                assert(acc * 10 + dig > u64::MAX) by (nonlinear_arith)
                    requires
                        acc > (u64::MAX - dig) / 10,
                        dig <= 9,
                ;
                if all_digits(d) {
                    lemma_digits_value_mono(d, i - start + 1);
                }
            }
            return None;
        }
        acc = acc * 10 + dig;
        i = i + 1;
    }
    assert(d.take(n - start) =~= d);
    Some(acc)
}

} // verus!

verus! {

/// What `str::to_lowercase` gives back (full Unicode lowercase mapping).
pub uninterp spec fn lowercase_of(s: Seq<char>) -> Seq<char>;

/// The lowercase form of `s`.
///
/// Calls `str::to_lowercase`; the contract names its result `lowercase_of` and
/// claims only that it depends on the characters of `s` alone.
#[verifier::external_body]
pub(crate) fn to_lowercase(s: &str) -> (r: String)
    ensures
        r@ == lowercase_of(s@),
{
    s.to_lowercase()
}

/// The lowercase form of the characters `v`.
pub fn lower_chars(v: &Vec<char>) -> (r: Vec<char>)
    ensures
        r@ == lowercase_of(v@),
{
    let s = string_of(v.as_slice());
    let l = to_lowercase(s.as_str());
    chars_of(l.as_str())
}

/// `v` equals the characters of `lit`.
pub fn eq_str(v: &Vec<char>, lit: &str) -> (b: bool)
    ensures
        b == (v@ == lit@),
{
    let w = chars_of(lit);
    if v.len() != w.len() {
        return false;
    }
    let n = v.len();
    let mut i: usize = 0;
    while i < n
        invariant
            i <= n == v@.len() == w@.len(),
            w@ == lit@,
            forall|k: int| 0 <= k < i ==> v@[k] == w@[k],
        decreases n - i,
    {
        if v[i] != w[i] {
            assert(v@[i as int] != w@[i as int]);
            assert(v@ != w@);
            return false;
        }
        i = i + 1;
    }
    assert(v@ =~= w@);
    true
}

/// `lit` occurs in `v`.
pub fn contains_str(v: &Vec<char>, lit: &str) -> (b: bool)
    ensures
        b == has_sub(v@, lit@),
{
    contains(v, &chars_of(lit))
}

/// Index of the first `c` in `v`, as `str::find` / `str::split_once` report it.
pub fn find_char(v: &Vec<char>, c: char) -> (r: Option<usize>)
    ensures
        r == (match find_from(v@, seq![c], 0) {
            Some(k) => Some(k as usize),
            None => None::<usize>,
        }),
{
    let mut p: Vec<char> = Vec::new();
    p.push(c);
    assert(p@ =~= seq![c]);
    find(v, &p, 0)
}

} // verus!

verus! {

/// `first_from` finds `k` when nothing in `i..k` satisfies `keep` and `s[k]` does (or `k` is the end).
pub proof fn lemma_first_from_at(s: Seq<char>, i: int, k: int, keep: spec_fn(char) -> bool)
    requires
        0 <= i <= k <= s.len(),
        forall|j: int| i <= j < k ==> !keep(#[trigger] s[j]),
        k == s.len() || keep(s[k]),
    ensures
        first_from(s, i, keep) == k,
    decreases k - i,
{
    if i < k {
        lemma_first_from_at(s, i + 1, k, keep);
    }
}

/// The characters of each vector.
pub open spec fn views(v: Seq<Vec<char>>) -> Seq<Seq<char>> {
    v.map_values(|x: Vec<char>| x@)
}

pub open spec fn string_views(v: Seq<String>) -> Seq<Seq<char>> {
    v.map_values(|x: String| x@)
}

/// `Some(x)` as a one-element list, `None` as the empty list.
pub open spec fn opt_seq(o: Option<Seq<char>>) -> Seq<Seq<char>> {
    match o {
        Some(x) => seq![x],
        None => seq![],
    }
}

/// Strings for each character vector.
pub fn strings_of(v: &Vec<Vec<char>>) -> (r: Vec<String>)
    ensures
        string_views(r@) == views(v@),
{
    let mut r: Vec<String> = Vec::new();
    let n = v.len();
    let mut i: usize = 0;
    while i < n
        invariant
            i <= n == v@.len(),
            string_views(r@) =~= views(v@.take(i as int)),
        decreases n - i,
    {
        let ghost before = r@;
        r.push(string_of(v[i].as_slice()));
        assert(string_views(r@) =~= string_views(before).push(v@[i as int]@));
        assert(v@.take(i + 1) =~= v@.take(i as int).push(v@[i as int]));
        i = i + 1;
    }
    assert(v@.take(n as int) =~= v@);
    r
}

} // verus!

verus! {

pub proof fn lemma_encode_utf8_concat(a: Seq<char>, b: Seq<char>)
    ensures
        vstd::utf8::encode_utf8(a + b) == vstd::utf8::encode_utf8(a) + vstd::utf8::encode_utf8(b),
    decreases a.len(),
{
    if a.len() == 0 {
        assert(a + b =~= b);
        assert(vstd::utf8::encode_utf8(a) =~= Seq::<u8>::empty());
        assert(vstd::utf8::encode_utf8(a + b) =~= vstd::utf8::encode_utf8(a) + vstd::utf8::encode_utf8(b));
    } else {
        assert((a + b).drop_first() =~= a.drop_first() + b);
        lemma_encode_utf8_concat(a.drop_first(), b);
        assert(vstd::utf8::encode_utf8(a + b) =~= vstd::utf8::encode_utf8(a) + vstd::utf8::encode_utf8(b));
    }
}

/// The number of bytes that the UTF-8 encoding of `c` takes.
fn utf8_width(c: char) -> (w: u64)
    ensures
        w == vstd::utf8::encode_utf8(seq![c]).len(),
        w <= 4,
{
    let u = c as u32;
    proof {
        vstd::utf8::char_is_scalar(c);
        assert(seq![c].drop_first() =~= Seq::<char>::empty());
        assert(vstd::utf8::encode_utf8(Seq::<char>::empty()) =~= Seq::<u8>::empty());
        assert(vstd::utf8::encode_utf8(seq![c]) =~= vstd::utf8::encode_scalar(c as u32));
    }
    if u <= 0x7F {
        1
    } else if u <= 0x7FF {
        2
    } else if u <= 0xFFFF {
        3
    } else {
        4
    }
}

/// Whether the UTF-8 encoding of `v` (what `str::len` counts) is longer than `limit` bytes.
pub fn utf8_len_exceeds(v: &Vec<char>, limit: u64) -> (b: bool)
    requires
        limit < 0x1_0000,
    ensures
        b == (vstd::utf8::encode_utf8(v@).len() > limit),
{
    let n = v.len();
    let mut total: u64 = 0;
    let mut i: usize = 0;
    while i < n
        invariant
            i <= n == v@.len(),
            limit < 0x1_0000,
            total <= limit,
            total == vstd::utf8::encode_utf8(v@.take(i as int)).len(),
        decreases n - i,
    {
        let w = utf8_width(v[i]);
        proof {
            assert(v@.take(i + 1) =~= v@.take(i as int) + seq![v@[i as int]]);
            lemma_encode_utf8_concat(v@.take(i as int), seq![v@[i as int]]);
        }
        total = total + w;
        if total > limit {
            proof {
                assert(v@ =~= v@.take(i + 1) + v@.skip(i + 1));
                lemma_encode_utf8_concat(v@.take(i + 1), v@.skip(i + 1));
            }
            return true;
        }
        i = i + 1;
    }
    assert(v@.take(n as int) =~= v@);
    false
}

} // verus!

verus! {

/// `a` sorts no later than `b`: the order of `String`'s `cmp`, character by
/// character (code point order, which is also UTF-8 byte order).
pub open spec fn lex_le(a: Seq<char>, b: Seq<char>) -> bool
    decreases a.len(),
{
    if a.len() == 0 {
        true
    } else if b.len() == 0 {
        false
    } else if a[0] != b[0] {
        (a[0] as u32) < (b[0] as u32)
    } else {
        lex_le(a.drop_first(), b.drop_first())
    }
}

pub proof fn lemma_lex_refl(a: Seq<char>)
    ensures
        lex_le(a, a),
    decreases a.len(),
{
    if a.len() > 0 {
        lemma_lex_refl(a.drop_first());
    }
}

pub proof fn lemma_lex_total(a: Seq<char>, b: Seq<char>)
    ensures
        lex_le(a, b) || lex_le(b, a),
    decreases a.len(),
{
    if a.len() > 0 && b.len() > 0 && a[0] == b[0] {
        lemma_lex_total(a.drop_first(), b.drop_first());
    } else if a.len() > 0 && b.len() > 0 {
        vstd::utf8::char_u32_cast(a[0], a[0] as u32);
        vstd::utf8::char_u32_cast(b[0], b[0] as u32);
    }
}

pub proof fn lemma_lex_trans(a: Seq<char>, b: Seq<char>, c: Seq<char>)
    requires
        lex_le(a, b),
        lex_le(b, c),
    ensures
        lex_le(a, c),
    decreases a.len(),
{
    if a.len() > 0 && b.len() > 0 && c.len() > 0 && a[0] == b[0] && b[0] == c[0] {
        lemma_lex_trans(a.drop_first(), b.drop_first(), c.drop_first());
    } else if a.len() > 0 && b.len() > 0 && c.len() > 0 {
        vstd::utf8::char_u32_cast(a[0], a[0] as u32);
        vstd::utf8::char_u32_cast(b[0], b[0] as u32);
        vstd::utf8::char_u32_cast(c[0], c[0] as u32);
    }
}

pub fn lex_less_eq(a: &Vec<char>, b: &Vec<char>) -> (r: bool)
    ensures
        r == lex_le(a@, b@),
{
    let mut i: usize = 0;
    assert(a@.skip(0) =~= a@ && b@.skip(0) =~= b@);
    while i < a.len() && i < b.len() && a[i] == b[i]
        invariant
            i <= a@.len() && i <= b@.len(),
            lex_le(a@, b@) == lex_le(a@.skip(i as int), b@.skip(i as int)),
        decreases a@.len() - i,
    {
        assert(a@.skip(i as int).drop_first() =~= a@.skip(i + 1));
        assert(b@.skip(i as int).drop_first() =~= b@.skip(i + 1));
        i = i + 1;
    }
    if i == a.len() {
        true
    } else if i == b.len() {
        false
    } else {
        (a[i] as u32) < (b[i] as u32)
    }
}

/// Every element sorts no later than the ones after it.
pub open spec fn lex_sorted(s: Seq<Seq<char>>) -> bool {
    forall|i: int, j: int| 0 <= i < j < s.len() ==> lex_le(#[trigger] s[i], #[trigger] s[j])
}

/// The strings of `v` in sorted order (selection sort; equal strings keep no particular order,
/// which cannot be observed).
pub fn sort_strings(v: Vec<String>) -> (r: Vec<String>)
    ensures
        lex_sorted(string_views(r@)),
        string_views(r@).to_multiset() == string_views(v@).to_multiset(),
{
    broadcast use vstd::seq_lib::group_to_multiset_ensures;

    let mut rem = v;
    let mut out: Vec<String> = Vec::new();
    let ghost orig = string_views(rem@);
    while rem.len() > 0
        invariant
            string_views(out@).to_multiset().add(string_views(rem@).to_multiset()) == orig.to_multiset(),
            lex_sorted(string_views(out@)),
            forall|i: int, j: int|
                0 <= i < out@.len() && 0 <= j < rem@.len() ==> lex_le(
                    #[trigger] string_views(out@)[i],
                    #[trigger] string_views(rem@)[j],
                ),
        decreases rem@.len(),
    {
        let n = rem.len();
        let mut best: usize = 0;
        let mut best_chars = chars_of(rem[0].as_str());
        proof {
            lemma_lex_refl(best_chars@);
        }
        let mut j: usize = 1;
        while j < n
            invariant
                n == rem@.len(),
                1 <= j <= n,
                best < n,
                best_chars@ == rem@[best as int]@,
                forall|k: int| 0 <= k < j ==> lex_le(best_chars@, #[trigger] rem@[k]@),
            decreases n - j,
        {
            let cj = chars_of(rem[j].as_str());
            if !lex_less_eq(&best_chars, &cj) {
                proof {
                    lemma_lex_refl(cj@);
                    lemma_lex_total(best_chars@, cj@);
                    assert forall|k: int| 0 <= k < j implies lex_le(cj@, #[trigger] rem@[k]@) by {
                        lemma_lex_trans(cj@, best_chars@, rem@[k]@);
                    }
                }
                best = j;
                best_chars = cj;
            }
            j = j + 1;
        }
        let ghost rem_before = rem@;
        let ghost out_before = out@;
        let x = rem.remove(best);
        proof {
            assert(string_views(rem@) =~= string_views(rem_before).remove(best as int));
            assert(string_views(rem_before)[best as int] == x@);
        }
        out.push(x);
        proof {
            assert(string_views(out@) =~= string_views(out_before).push(x@));
            string_views(out_before).to_multiset_ensures();
            string_views(rem_before).to_multiset_ensures();
            assert(string_views(out_before).push(x@).to_multiset() =~= string_views(out_before).to_multiset().insert(x@));
            assert(string_views(out@).to_multiset() =~= string_views(out_before).to_multiset().insert(x@));
            assert(string_views(rem@).to_multiset() =~= string_views(rem_before).to_multiset().remove(x@));
            assert(string_views(out@).to_multiset().add(string_views(rem@).to_multiset()) =~= orig.to_multiset());
            assert forall|i: int, k: int|
                0 <= i < out@.len() && 0 <= k < rem@.len() implies lex_le(
                    #[trigger] string_views(out@)[i],
                    #[trigger] string_views(rem@)[k],
                ) by {
                let kk = if k < best { k } else { k + 1 };
                assert(string_views(rem@)[k] == rem_before[kk]@);
                if i < out_before.len() {
                    assert(string_views(out@)[i] == string_views(out_before)[i]);
                    assert(lex_le(string_views(out_before)[i], string_views(rem_before)[kk]));
                } else {
                    assert(lex_le(best_chars@, rem_before[kk]@));
                }
            }
            assert forall|i: int, k: int| 0 <= i < k < out@.len() implies lex_le(
                #[trigger] string_views(out@)[i],
                #[trigger] string_views(out@)[k],
            ) by {
                if k < out_before.len() {
                    assert(lex_le(string_views(out_before)[i], string_views(out_before)[k]));
                } else {
                    assert(lex_le(string_views(out_before)[i], string_views(rem_before)[best as int]));
                }
            }
        }
    }
    assert(string_views(rem@).to_multiset() =~= Multiset::empty());
    assert(string_views(out@).to_multiset() =~= string_views(out@).to_multiset().add(Multiset::empty()));
    out
}

} // verus!

verus! {

proof fn lemma_digit_char_value(d: nat)
    requires
        d < 10,
    ensures
        is_digit(digit_char(d)),
        (digit_char(d) as u32 - 48) as nat == d,
{
    let x = (48 + d) as u8;
    assert(x == 48 + d);
    assert(digit_char(d) == x as char);
    assert((x as char) as u32 == x as u32);
}

/// Reading back the decimal digits of `n` gives `n`.
pub proof fn lemma_decimal_value(n: nat)
    ensures
        all_digits(decimal(n)),
        digits_value(decimal(n)) == n,
    decreases n,
{
    let d = decimal(n);
    if n < 10 {
        lemma_digit_char_value(n);
        assert(d == seq![digit_char(n)]);
        assert(d.drop_last() =~= Seq::<char>::empty());
        assert(digits_value(d) == digits_value(d.drop_last()) * 10 + (d.last() as u32 - 48) as nat);
    } else {
        lemma_decimal_value(n / 10);
        lemma_digit_char_value(n % 10);
        let s = digits(n / 10, 10);
        assert(d == s.push(digit_char(n % 10)));
        assert(d.drop_last() =~= s);
        assert(d.last() == digit_char(n % 10));
        assert(digits_value(d) == digits_value(s) * 10 + (d.last() as u32 - 48) as nat);
        assert(digits_value(s) == n / 10);
        assert((n / 10) * 10 + n % 10 == n) by (nonlinear_arith);
        assert forall|i: int| 0 <= i < d.len() implies is_digit(#[trigger] d[i]) by {
            if i < s.len() {
                assert(d[i] == s[i]);
            }
        }
    }
}

/// Leading zeros do not change the value of a digit string.
pub proof fn lemma_zero_pad_value(s: Seq<char>, w: nat)
    requires
        all_digits(s),
    ensures
        all_digits(zero_pad(s, w)),
        digits_value(zero_pad(s, w)) == digits_value(s),
    decreases s.len(),
{
    let z = zeros(w - s.len());
    let p = zero_pad(s, w);
    assert(p == z + s);
    assert forall|i: int| 0 <= i < p.len() implies is_digit(#[trigger] p[i]) by {
        if i < z.len() {
            assert(p[i] == '0');
        } else {
            assert(p[i] == s[i - z.len()]);
        }
    }
    if s.len() == 0 {
        lemma_zeros_value(z.len());
        assert(p =~= z);
    } else {
        let w1: nat = if w > 0 {
            (w - 1) as nat
        } else {
            0
        };
        lemma_zero_pad_value(s.drop_last(), w1);
        let q = zero_pad(s.drop_last(), w1);
        assert(zeros(w1 - s.drop_last().len()) =~= z);
        assert(p.drop_last() =~= q);
        assert(p.last() == s.last());
    }
}

proof fn lemma_zeros_value(k: nat)
    ensures
        digits_value(zeros(k as int)) == 0,
    decreases k,
{
    if k > 0 {
        lemma_zeros_value((k - 1) as nat);
        assert(zeros(k as int).drop_last() =~= zeros(k - 1));
        assert(zeros(k as int).last() == '0');
    }
}

/// Zero-padded decimal numbers name their numbers apart.
pub proof fn lemma_padded_decimal_injective(a: nat, b: nat, w: nat)
    requires
        zero_pad(decimal(a), w) == zero_pad(decimal(b), w),
    ensures
        a == b,
{
    lemma_decimal_value(a);
    lemma_decimal_value(b);
    lemma_zero_pad_value(decimal(a), w);
    lemma_zero_pad_value(decimal(b), w);
}

} // verus!
