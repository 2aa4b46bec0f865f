//! Text helpers: decimal rendering, UTF-8 checks and character collection.

use vstd::prelude::*;
use vstd::string::StringSliceAdditionalSpecFns;
use vstd::utf8::*;

verus! {

/// The ASCII digit for `d` (`d < 10`).
pub open spec fn digit_char(d: nat) -> char {
    ((d + 48) as u32) as char
}

/// Decimal rendering of a natural number, most significant digit first, with
/// no leading zeros (zero renders as `"0"`).
pub open spec fn decimal(n: nat) -> Seq<char>
    decreases n,
{
    if n < 10 {
        seq![digit_char(n)]
    } else {
        decimal(n / 10).push(digit_char(n % 10))
    }
}

/// Decimal rendering of an integer with a leading `-` for negative values.
pub open spec fn signed_decimal(n: int) -> Seq<char> {
    if n < 0 {
        seq!['-'] + decimal((-n) as nat)
    } else {
        decimal(n as nat)
    }
}

pub proof fn lemma_decimal_ascii(n: nat)
    ensures
        is_ascii_chars(decimal(n)),
        decimal(n).len() >= 1,
    decreases n,
{
    if n >= 10 {
        lemma_decimal_ascii(n / 10);
    }
}

/// A number below `10^k` has at most `k` digits.
pub proof fn lemma_decimal_len(n: nat, k: nat, bound: nat)
    requires
        bound == vstd::arithmetic::power::pow(10, k),
        n < bound,
        k >= 1,
    ensures
        decimal(n).len() <= k,
    decreases k,
{
    vstd::arithmetic::power::lemma_pow_positive(10, k);
    if n >= 10 {
        let b2 = vstd::arithmetic::power::pow(10, (k - 1) as nat) as nat;
        vstd::arithmetic::power::lemma_pow_positive(10, (k - 1) as nat);
        assert(bound == 10 * b2) by {
            vstd::arithmetic::power::lemma_pow_adds(10, 1, (k - 1) as nat);
            vstd::arithmetic::power::lemma_pow1(10);
        }
        if k == 1 {
            assert(b2 == 1) by { vstd::arithmetic::power::lemma_pow0(10); }
            assert(false);
        }
        assert(n / 10 < b2) by (nonlinear_arith)
            requires n < bound, bound == 10 * b2, b2 > 0;
        lemma_decimal_len(n / 10, (k - 1) as nat, b2);
    }
}

/// Every `u32` renders in at most ten digits.
pub proof fn lemma_decimal_u32_len(n: u32)
    ensures
        decimal(n as nat).len() <= 10,
{
    vstd::arithmetic::power::lemma_pow_positive(10, 10);
    assert(vstd::arithmetic::power::pow(10, 10) == 10000000000) by {
        vstd::arithmetic::power::lemma_pow_adds(10, 5, 5);
        reveal_with_fuel(vstd::arithmetic::power::pow, 6);
    }
    lemma_decimal_len(n as nat, 10, vstd::arithmetic::power::pow(10, 10) as nat);
}

/// The UTF-8 encoding of a concatenation is the concatenation of encodings.
pub proof fn lemma_encode_utf8_concat(a: Seq<char>, b: Seq<char>)
    ensures
        encode_utf8(a + b) == encode_utf8(a) + encode_utf8(b),
    decreases a.len(),
{
    if a.len() == 0 {
        assert(a + b =~= b);
    } else {
        assert((a + b).drop_first() =~= a.drop_first() + b);
        lemma_encode_utf8_concat(a.drop_first(), b);
        assert(encode_utf8(a + b) =~= encode_utf8(a) + encode_utf8(b));
    }
}

/// Unicode `White_Space`, the set that `char::is_whitespace` tests.
pub open spec fn is_unicode_whitespace(c: char) -> bool {
    let u = c as u32;
    (9 <= u && u <= 13) || u == 32 || u == 0x85 || u == 0xa0 || u == 0x1680 || (0x2000 <= u
        && u <= 0x200a) || u == 0x2028 || u == 0x2029 || u == 0x202f || u == 0x205f || u == 0x3000
}

/// `s` without its leading whitespace (`str::trim_start`).
pub open spec fn trim_start_ws(s: Seq<char>) -> Seq<char>
    decreases s.len(),
{
    if s.len() > 0 && is_unicode_whitespace(s[0]) {
        trim_start_ws(s.drop_first())
    } else {
        s
    }
}

/// `s` without its trailing whitespace (`str::trim_end`).
pub open spec fn trim_end_ws(s: Seq<char>) -> Seq<char>
    decreases s.len(),
{
    if s.len() > 0 && is_unicode_whitespace(s.last()) {
        trim_end_ws(s.drop_last())
    } else {
        s
    }
}

/// `s` without leading and trailing whitespace (`str::trim`).
pub open spec fn trim_ws(s: Seq<char>) -> Seq<char> {
    trim_end_ws(trim_start_ws(s))
}

/// The first index at or after `i` whose character is not whitespace, or
/// the length of `s`.
pub open spec fn ws_skip(s: Seq<char>, i: nat) -> nat
    decreases s.len() - i,
{
    if i < s.len() && is_unicode_whitespace(s[i as int]) {
        ws_skip(s, i + 1)
    } else {
        i
    }
}

/// Whether `c` is Unicode whitespace.
pub fn is_whitespace_char(c: char) -> (r: bool)
    ensures
        r == is_unicode_whitespace(c),
{
    let u = c as u32;
    (9 <= u && u <= 13) || u == 32 || u == 0x85 || u == 0xa0 || u == 0x1680 || (0x2000 <= u && u
        <= 0x200a) || u == 0x2028 || u == 0x2029 || u == 0x202f || u == 0x205f || u == 0x3000
}

/// The first index at or after `from` that holds no whitespace, or the end.
pub fn skip_whitespace(v: &Vec<char>, from: usize) -> (k: usize)
    requires
        from <= v@.len(),
    ensures
        from <= k <= v@.len(),
        trim_start_ws(v@.skip(from as int)) == v@.skip(k as int),
        k == ws_skip(v@, from as nat),
{
    let mut k = from;
    while k < v.len() && is_whitespace_char(v[k])
        invariant
            from <= k <= v@.len(),
            trim_start_ws(v@.skip(from as int)) == trim_start_ws(v@.skip(k as int)),
            ws_skip(v@, from as nat) == ws_skip(v@, k as nat),
        decreases v@.len() - k,
    {
        assert(v@.skip(k as int).drop_first() =~= v@.skip(k + 1));
        k = k + 1;
    }
    k
}

/// The bounds of `v` with whitespace trimmed from both ends.
pub fn trim_bounds(v: &Vec<char>) -> (r: (usize, usize))
    ensures
        r.0 <= r.1 <= v@.len(),
        trim_ws(v@) == v@.subrange(r.0 as int, r.1 as int),
{
    let lo = skip_whitespace(v, 0);
    assert(v@.skip(0) =~= v@);
    let mut hi = v.len();
    assert(v@.skip(lo as int) =~= v@.subrange(lo as int, hi as int));
    while hi > lo && is_whitespace_char(v[hi - 1])
        invariant
            lo <= hi <= v@.len(),
            trim_ws(v@) == trim_end_ws(v@.subrange(lo as int, hi as int)),
        decreases hi,
    {
        assert(v@.subrange(lo as int, hi as int).drop_last() =~= v@.subrange(lo as int, hi - 1));
        hi = hi - 1;
    }
    (lo, hi)
}

/// Appends `c` to `s` (`String::push`).
#[verifier::external_body]
pub(crate) fn string_push(s: &mut String, c: char)
    ensures
        final(s)@ == old(s)@.push(c),
{
    s.push(c)
}

/// Checks that `bytes` is UTF-8 and views it as a string slice
/// (`core::str::from_utf8`). The contract states what the standard library
/// documents: success exactly on valid UTF-8, and the slice keeps the bytes.
#[verifier::external_body]
pub(crate) fn str_from_utf8(bytes: &[u8]) -> (r: Option<&str>)
    ensures
        r is Some <==> valid_utf8(bytes@),
        r matches Some(s) ==> s.spec_bytes() == bytes@,
{
    core::str::from_utf8(bytes).ok()
}

fn digit(d: u64) -> (c: char)
    requires
        d < 10,
    ensures
        c == digit_char(d as nat),
{
    let b: u8 = 48u8 + d as u8;
    b as char
}

/// Appends the decimal rendering of `n` to `s`.
pub fn push_decimal(s: &mut String, n: u64)
    ensures
        final(s)@ == old(s)@ + decimal(n as nat),
    decreases n,
{
    if n >= 10 {
        push_decimal(s, n / 10);
    }
    let c = digit(n % 10);
    string_push(s, c);
    proof {
        if n >= 10 {
            assert(final(s)@ =~= old(s)@ + decimal(n as nat));
        } else {
            assert(final(s)@ =~= old(s)@ + decimal(n as nat));
        }
    }
}

/// The decimal rendering of `n` as a new string.
pub fn u64_to_decimal(n: u64) -> (s: String)
    ensures
        s@ == decimal(n as nat),
{
    let mut s = String::new();
    push_decimal(&mut s, n);
    assert(s@ =~= decimal(n as nat));
    s
}

/// The decimal rendering of a signed `n`, with `-` for negative values.
pub fn i64_to_decimal(n: i64) -> (s: String)
    ensures
        s@ == signed_decimal(n as int),
{
    let mut s = String::new();
    if n < 0 {
        string_push(&mut s, '-');
        let m: i128 = 0i128 - n as i128;
        push_decimal(&mut s, m as u64);
        assert(s@ =~= signed_decimal(n as int));
    } else {
        push_decimal(&mut s, n as u64);
        assert(s@ =~= signed_decimal(n as int));
    }
    s
}

/// A new string holding `v[lo..hi]`.
pub fn chars_to_string(v: &Vec<char>, lo: usize, hi: usize) -> (r: String)
    requires
        lo <= hi <= v@.len(),
    ensures
        r@ == v@.subrange(lo as int, hi as int),
{
    let mut out = String::new();
    let mut i = lo;
    while i < hi
        invariant
            lo <= i <= hi <= v@.len(),
            out@ == v@.subrange(lo as int, i as int),
        decreases hi - i,
    {
        string_push(&mut out, v[i]);
        i = i + 1;
        assert(out@ =~= v@.subrange(lo as int, i as int));
    }
    out
}

/// Collects the characters of `s` in order.
pub fn str_chars(s: &str) -> (v: Vec<char>)
    ensures
        v@ == s@,
{
    let mut v: Vec<char> = Vec::new();
    for c in it: s.chars()
        invariant
            it.seq() == s@,
            v@ == it.seq().take(it.index()),
    {
        v.push(c);
    }
    v
}

} // verus!
