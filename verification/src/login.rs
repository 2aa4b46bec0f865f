//! Helpers for logging in to the Shelly Cloud from the command line:
//! percent-encoding the OAuth redirect, reading the callback's query string,
//! and reading the regional server out of the access token.

use vstd::prelude::*;
use vstd::string::{StringExecFns, StringSliceAdditionalSpecFns};
use vstd::utf8::*;
use crate::cloud_config::{normalize_server_uri, trim_end_slashes};
use crate::json_text::{json_extract_string, json_key_value};
use crate::text::{
    chars_to_string, decimal, is_unicode_whitespace, is_whitespace_char, push_decimal, str_chars,
    str_from_utf8, string_push, trim_bounds, trim_ws, ws_skip, skip_whitespace,
};
use crate::util::{hex_upper, is_unreserved, lemma_url_encoded_concat, url_encode_byte, url_encoded};

verus! {

// ── Percent-encoding ───────────────────────────────────────────────────

fn hex_char(n: u8) -> (c: char)
    requires
        n < 16,
    ensures
        c == hex_upper(n as nat) as char,
{
    if n < 10 {
        (n + 48) as char
    } else {
        (n + 55) as char
    }
}

/// Percent-encodes a query parameter value per RFC 3986: the unreserved
/// bytes `A-Z a-z 0-9 - . _ ~` are kept, every other byte becomes `%XX`
/// with upper-case hex digits.
pub fn percent_encode(s: &str) -> (r: String)
    ensures
        r@ == url_encoded(s.spec_bytes()).map_values(|b: u8| b as char),
{
    let bytes = s.as_bytes();
    let mut out = String::new();
    let mut i: usize = 0;
    assert(bytes@.take(0) =~= Seq::<u8>::empty());
    assert(out@ =~= url_encoded(bytes@.take(0)).map_values(|b: u8| b as char));
    while i < bytes.len()
        invariant
            i <= bytes@.len(),
            bytes@ == s.spec_bytes(),
            out@ == url_encoded(bytes@.take(i as int)).map_values(|b: u8| b as char),
        decreases bytes@.len() - i,
    {
        let b = bytes[i];
        let ghost before = out@;
        let unreserved = (0x41 <= b && b <= 0x5a) || (0x61 <= b && b <= 0x7a) || (0x30 <= b && b
            <= 0x39) || b == 0x2d || b == 0x2e || b == 0x5f || b == 0x7e;
        if unreserved {
            string_push(&mut out, b as char);
        } else {
            string_push(&mut out, '%');
            string_push(&mut out, hex_char(b / 16));
            string_push(&mut out, hex_char(b % 16));
        }
        proof {
            assert(bytes@.take(i + 1).drop_last() =~= bytes@.take(i as int));
            let prev = url_encoded(bytes@.take(i as int));
            assert(url_encoded(bytes@.take(i + 1)) == prev + url_encode_byte(b));
            assert((prev + url_encode_byte(b)).map_values(|c: u8| c as char) =~= prev.map_values(
                |c: u8| c as char,
            ) + url_encode_byte(b).map_values(|c: u8| c as char));
            assert(out@ =~= before + url_encode_byte(b).map_values(|c: u8| c as char));
        }
        i = i + 1;
    }
    assert(bytes@.take(i as int) =~= bytes@);
    out
}

// ── Percent-decoding ───────────────────────────────────────────────────

/// The value of a hexadecimal digit byte.
pub open spec fn hex_nibble(b: u8) -> Option<nat> {
    if 48 <= b && b <= 57 {
        Some((b - 48) as nat)
    } else if 97 <= b && b <= 102 {
        Some((b - 87) as nat)
    } else if 65 <= b && b <= 70 {
        Some((b - 55) as nat)
    } else {
        None
    }
}

/// The byte that the two hex digits `b1 b2` denote; `None` unless both
/// are hex digits.
pub open spec fn hex_pair_byte(b1: u8, b2: u8) -> Option<u8> {
    match (hex_nibble(b1), hex_nibble(b2)) {
        (Some(h), Some(l)) => Some((h * 16 + l) as u8),
        _ => None,
    }
}

/// Percent-decoding of a byte string: `%` and two hex digits become the
/// byte they denote, `+` becomes a space, everything else is kept. A `%`
/// not followed by two hex digits fails.
pub open spec fn url_decoded(s: Seq<u8>) -> Option<Seq<u8>>
    decreases s.len(),
{
    if s.len() == 0 {
        Some(Seq::empty())
    } else if s[0] == 37 {
        if s.len() < 3 {
            None
        } else {
            match hex_pair_byte(s[1], s[2]) {
                None => None,
                Some(b) => match url_decoded(s.skip(3)) {
                    None => None,
                    Some(rest) => Some(seq![b] + rest),
                },
            }
        }
    } else {
        match url_decoded(s.drop_first()) {
            None => None,
            Some(rest) => Some(seq![if s[0] == 43 { 32u8 } else { s[0] }] + rest),
        }
    }
}

/// The text that percent-decoding `s` gives: `None` where decoding fails or
/// the decoded bytes are not UTF-8.
pub open spec fn url_decoded_text(s: Seq<u8>) -> Option<Seq<char>> {
    match url_decoded(s) {
        Some(d) => if valid_utf8(d) {
            Some(decode_utf8(d))
        } else {
            None
        },
        None => None,
    }
}

/// Percent-decoding undoes percent-encoding.
pub proof fn lemma_url_decode_encode(b: Seq<u8>)
    ensures
        url_decoded(url_encoded(b)) == Some(b),
    decreases b.len(),
{
    if b.len() > 0 {
        let b0 = b[0];
        let rest = b.drop_first();
        assert(b =~= seq![b0] + rest);
        lemma_url_encoded_concat(seq![b0], rest);
        assert(seq![b0].drop_last() =~= Seq::<u8>::empty());
        assert(url_encoded(Seq::<u8>::empty()) =~= Seq::<u8>::empty());
        assert(url_encoded(seq![b0]) =~= url_encode_byte(b0));
        let e = url_encode_byte(b0) + url_encoded(rest);
        assert(url_encoded(b) == e);
        lemma_url_decode_encode(rest);
        if is_unreserved(b0) {
            assert(e.drop_first() =~= url_encoded(rest));
        } else {
            let hi = b0 as nat / 16;
            let lo = b0 as nat % 16;
            assert(hex_nibble(hex_upper(hi)) == Some(hi));
            assert(hex_nibble(hex_upper(lo)) == Some(lo));
            assert(hi * 16 + lo == b0);
            assert(e.skip(3) =~= url_encoded(rest));
        }
        assert(url_decoded(e) =~= Some(b));
    }
}

fn hex_nibble_of(b: u8) -> (r: Option<u8>)
    ensures
        match hex_nibble(b) {
            Some(n) => r == Some(n as u8) && n < 16,
            None => r is None,
        },
{
    if 48 <= b && b <= 57 {
        Some(b - 48)
    } else if 97 <= b && b <= 102 {
        Some(b - 87)
    } else if 65 <= b && b <= 70 {
        Some(b - 55)
    } else {
        None
    }
}

fn decode_pair(b1: u8, b2: u8) -> (r: Option<u8>)
    ensures
        r == hex_pair_byte(b1, b2),
{
    match (hex_nibble_of(b1), hex_nibble_of(b2)) {
        (Some(h), Some(l)) => Some(h * 16 + l),
        _ => None,
    }
}

/// `Some(a + x)` for `Some(x)`, `None` for `None`.
pub open spec fn prepend_decoded(a: Seq<u8>, o: Option<Seq<u8>>) -> Option<Seq<u8>> {
    match o {
        Some(x) => Some(a + x),
        None => None,
    }
}

fn url_decode_bytes(s: &[u8]) -> (r: Option<String>)
    ensures
        match url_decoded_text(s@) {
            Some(t) => r matches Some(x) && x@ == t,
            None => r is None,
        },
{
    let mut out: Vec<u8> = Vec::new();
    let mut i: usize = 0;
    assert(s@.skip(0) =~= s@);
    assert(prepend_decoded(Seq::<u8>::empty(), url_decoded(s@)) =~= url_decoded(s@));
    while i < s.len()
        invariant
            i <= s@.len(),
            url_decoded(s@) == prepend_decoded(out@, url_decoded(s@.skip(i as int))),
        decreases s@.len() - i,
    {
        let ghost t = s@.skip(i as int);
        let ghost before = out@;
        if s[i] == 37 {
            if s.len() - i < 3 {
                return None;
            }
            match decode_pair(s[i + 1], s[i + 2]) {
                None => {
                    return None;
                },
                Some(b) => {
                    out.push(b);
                    assert(t.skip(3) =~= s@.skip(i + 3));
                    i = i + 3;
                },
            }
        } else {
            if s[i] == 43 {
                out.push(32);
            } else {
                out.push(s[i]);
            }
            assert(t.drop_first() =~= s@.skip(i + 1));
            i = i + 1;
        }
        proof {
            match url_decoded(s@.skip(i as int)) {
                Some(x) => {
                    assert(before + (seq![out@.last()] + x) =~= out@ + x);
                },
                None => {},
            }
        }
    }
    assert(s@.skip(i as int) =~= Seq::<u8>::empty());
    assert(out@ + Seq::<u8>::empty() =~= out@);
    match str_from_utf8(out.as_slice()) {
        None => None,
        Some(text) => {
            proof {
                encode_utf8_decode_utf8(text@);
            }
            Some(String::from_str(text))
        },
    }
}

/// Percent-decodes a URL-encoded string. Returns `None` on a malformed `%XX`
/// escape or if the decoded bytes are not valid UTF-8.
pub fn url_decode(s: &str) -> (r: Option<String>)
    ensures
        match url_decoded_text(s.spec_bytes()) {
            Some(t) => r matches Some(x) && x@ == t,
            None => r is None,
        },
{
    url_decode_bytes(s.as_bytes())
}

// ── Query strings ──────────────────────────────────────────────────────

/// The first index in `[lo, hi)` holding `b`, or `hi`.
pub open spec fn find_byte(s: Seq<u8>, b: u8, lo: int, hi: int) -> int
    decreases hi - lo,
{
    if lo >= hi {
        hi
    } else if s[lo] == b {
        lo
    } else {
        find_byte(s, b, lo + 1, hi)
    }
}

pub proof fn lemma_find_byte_range(s: Seq<u8>, b: u8, lo: int, hi: int)
    ensures
        lo <= hi ==> lo <= find_byte(s, b, lo, hi) <= hi,
        lo > hi ==> find_byte(s, b, lo, hi) == hi,
    decreases hi - lo,
{
    if lo < hi && s[lo] != b {
        lemma_find_byte_range(s, b, lo + 1, hi);
    }
}

fn find_byte_in(s: &[u8], b: u8, lo: usize, hi: usize) -> (r: usize)
    requires
        lo <= hi <= s@.len(),
    ensures
        r == find_byte(s@, b, lo as int, hi as int),
        lo <= r <= hi,
{
    let mut k = lo;
    while k < hi && s[k] != b
        invariant
            lo <= k <= hi <= s@.len(),
            find_byte(s@, b, lo as int, hi as int) == find_byte(s@, b, k as int, hi as int),
        decreases hi - k,
    {
        k = k + 1;
    }
    k
}

/// The bounds of a URL's query: the text after its first `?`, up to the next
/// `?` or `#`; `None` without a `?`.
pub open spec fn query_bounds(u: Seq<u8>) -> Option<(int, int)> {
    let q = find_byte(u, 63, 0, u.len() as int);
    if q == u.len() {
        None
    } else {
        let stop = find_byte(u, 63, q + 1, u.len() as int);
        Some((q + 1, find_byte(u, 35, q + 1, stop)))
    }
}

/// The raw value of `key` among the `&`-separated `key=value` pairs of
/// `u[p..end]`: the first pair whose key matches gives the text after its
/// first `=` (empty without one).
pub open spec fn param_value(u: Seq<u8>, key: Seq<u8>, p: int, end: int) -> Option<Seq<u8>>
    decreases end - p,
{
    let amp = find_byte(u, 38, p, end);
    let eq = find_byte(u, 61, p, amp);
    if u.subrange(p, eq) == key {
        Some(
            if eq < amp {
                u.subrange(eq + 1, amp)
            } else {
                Seq::empty()
            },
        )
    } else if amp < end {
        proof {
            lemma_find_byte_range(u, 38, p, end);
        }
        param_value(u, key, amp + 1, end)
    } else {
        None
    }
}

/// The raw value of the query parameter `key` in the URL `u`.
pub open spec fn query_param(u: Seq<u8>, key: Seq<u8>) -> Option<Seq<u8>> {
    match query_bounds(u) {
        None => None,
        Some((lo, hi)) => param_value(u, key, lo, hi),
    }
}

fn bytes_equal(a: &[u8], lo: usize, hi: usize, b: &[u8]) -> (r: bool)
    requires
        lo <= hi <= a@.len(),
    ensures
        r == (a@.subrange(lo as int, hi as int) == b@),
{
    if hi - lo != b.len() {
        assert(a@.subrange(lo as int, hi as int).len() != b@.len());
        return false;
    }
    let mut k: usize = 0;
    while k < b.len()
        invariant
            lo <= hi <= a@.len(),
            hi - lo == b@.len(),
            k <= b@.len(),
            forall|j: int| 0 <= j < k ==> a@[lo + j] == b@[j],
        decreases b@.len() - k,
    {
        if a[lo + k] != b[k] {
            assert(a@.subrange(lo as int, hi as int)[k as int] != b@[k as int]);
            return false;
        }
        k = k + 1;
    }
    assert(a@.subrange(lo as int, hi as int) =~= b@);
    true
}

/// The value of the query parameter `key` in `url`, percent-decoded. `None`
/// when the URL has no query, no pair has that key, or the value does not
/// decode.
pub fn extract_query_param(url: &str, key: &str) -> (r: Option<String>)
    ensures
        match query_param(url.spec_bytes(), key.spec_bytes()) {
            None => r is None,
            Some(v) => match url_decoded_text(v) {
                Some(t) => r matches Some(x) && x@ == t,
                None => r is None,
            },
        },
{
    let u = url.as_bytes();
    let k = key.as_bytes();
    let len = u.len();
    let q = find_byte_in(u, 63, 0, len);
    if q == len {
        return None;
    }
    let stop = find_byte_in(u, 63, q + 1, len);
    let end = find_byte_in(u, 35, q + 1, stop);
    let mut p = q + 1;
    while p <= end
        invariant
            q + 1 <= p <= end,
            end <= u@.len(),
            u@ == url.spec_bytes(),
            k@ == key.spec_bytes(),
            query_bounds(u@) == Some(((q + 1) as int, end as int)),
            query_param(u@, k@) == param_value(u@, k@, p as int, end as int),
        decreases end - p,
    {
        let amp = find_byte_in(u, 38, p, end);
        let eq = find_byte_in(u, 61, p, amp);
        if bytes_equal(u, p, eq, k) {
            if eq < amp {
                let value = vstd::slice::slice_subrange(u, eq + 1, amp);
                return url_decode_bytes(value);
            } else {
                let empty: &[u8] = vstd::slice::slice_subrange(u, amp, amp);
                assert(empty@ =~= Seq::<u8>::empty());
                return url_decode_bytes(empty);
            }
        }
        if amp == end {
            return None;
        }
        p = amp + 1;
    }
    None
}

// ── Logging in with the app's auth key ─────────────────────────────────

/// Whether `s` starts with `p`.
pub open spec fn starts_with_chars(s: Seq<char>, p: Seq<char>) -> bool {
    s.len() >= p.len() && s.take(p.len() as int) == p
}

/// The server URI as typed, over HTTPS: kept when it names `https://`,
/// `http://` replaced by `https://`, otherwise `https://` put in front.
pub open spec fn https_server_text(server: Seq<char>) -> Seq<char> {
    if starts_with_chars(server, "https://"@) {
        server
    } else if starts_with_chars(server, "http://"@) {
        "https://"@ + server.skip(7)
    } else {
        "https://"@ + server
    }
}

fn chars_start_with(v: &Vec<char>, p: &str) -> (r: bool)
    ensures
        r == starts_with_chars(v@, p@),
{
    let pv = str_chars(p);
    if v.len() < pv.len() {
        return false;
    }
    let mut k: usize = 0;
    while k < pv.len()
        invariant
            pv@ == p@,
            pv@.len() <= v@.len(),
            k <= pv@.len(),
            forall|j: int| 0 <= j < k ==> v@[j] == pv@[j],
        decreases pv@.len() - k,
    {
        if v[k] != pv[k] {
            assert(v@.take(pv@.len() as int)[k as int] != pv@[k as int]);
            return false;
        }
        k = k + 1;
    }
    assert(v@.take(pv@.len() as int) =~= pv@);
    true
}

/// Reads the two answers of the login prompt: the server URI and the auth
/// key, each with surrounding whitespace removed. Both are required (`None`
/// when either is blank); the server URI is moved to HTTPS and loses its
/// trailing slashes.
pub fn login_credentials(server_line: &str, key_line: &str) -> (r: Option<(String, String)>)
    ensures
        trim_ws(server_line@).len() == 0 || trim_ws(key_line@).len() == 0 ==> r is None,
        trim_ws(server_line@).len() > 0 && trim_ws(key_line@).len() > 0 ==> (r matches Some((s, k))
            && s@ == trim_end_slashes(https_server_text(trim_ws(server_line@))) && k@ == trim_ws(
            key_line@,
        )),
{
    let sv = str_chars(server_line);
    let (slo, shi) = trim_bounds(&sv);
    let kv = str_chars(key_line);
    let (klo, khi) = trim_bounds(&kv);
    if slo == shi || klo == khi {
        return None;
    }
    let server = chars_to_string(&sv, slo, shi);
    let key = chars_to_string(&kv, klo, khi);
    let tv = str_chars(server.as_str());
    let https = if chars_start_with(&tv, "https://") {
        server
    } else if chars_start_with(&tv, "http://") {
        proof {
            reveal_strlit("http://");
        }
        let mut u = String::from_str("https://");
        let rest = chars_to_string(&tv, 7, tv.len());
        u.append(rest.as_str());
        assert(u@ =~= "https://"@ + tv@.skip(7));
        u
    } else {
        let mut u = String::from_str("https://");
        u.append(server.as_str());
        u
    };
    let normalized = normalize_server_uri(https.as_str());
    Some((normalized, key))
}

// ── Logging in through OAuth ───────────────────────────────────────────

/// The Shelly Cloud OAuth login page.
pub const OAUTH_URL: &'static str = "https://my.shelly.cloud/oauth_login.html";

/// The OAuth client of DIY integrations; its `code` is the access token.
pub const CLIENT_ID: &'static str = "shelly-diy";

/// The local callback address for a listener on `port`.
pub open spec fn redirect_uri_text(port: u16) -> Seq<char> {
    "http://127.0.0.1:"@ + decimal(port as nat)
}

/// The local callback address for a listener on `port`.
pub fn redirect_uri(port: u16) -> (r: String)
    ensures
        r@ == redirect_uri_text(port),
{
    let mut s = String::from_str("http://127.0.0.1:");
    push_decimal(&mut s, port as u64);
    s
}

/// The login page address that sends the browser back to `redirect`.
pub open spec fn authorize_url_text(redirect: Seq<u8>) -> Seq<char> {
    OAUTH_URL@ + "?client_id="@ + CLIENT_ID@ + "&redirect_uri="@ + url_encoded(redirect).map_values(
        |b: u8| b as char,
    )
}

/// The login page address that sends the browser back to `redirect_uri`,
/// which is percent-encoded.
pub fn authorize_url(redirect_uri: &str) -> (r: String)
    ensures
        r@ == authorize_url_text(redirect_uri.spec_bytes()),
{
    let mut s = String::from_str(OAUTH_URL);
    s.append("?client_id=");
    s.append(CLIENT_ID);
    s.append("&redirect_uri=");
    let enc = percent_encode(redirect_uri);
    s.append(enc.as_str());
    s
}

/// The first line of a request as `str::lines` gives it: up to the first
/// newline, without a carriage return before that newline; the empty line
/// for an empty request.
pub open spec fn first_line(req: Seq<char>) -> Seq<char> {
    let k = find_char(req, '\n', 0);
    if k < req.len() && k > 0 && req[k - 1] == '\r' {
        req.take(k - 1)
    } else {
        req.take(k)
    }
}

/// The first index at or after `i` holding `c`, or the length.
pub open spec fn find_char(s: Seq<char>, c: char, i: int) -> int
    decreases s.len() - i,
{
    if i >= s.len() {
        s.len() as int
    } else if s[i] == c {
        i
    } else {
        find_char(s, c, i + 1)
    }
}

/// The first index at or after `i` that holds whitespace, or the length.
pub open spec fn token_end(s: Seq<char>, i: nat) -> nat
    decreases s.len() - i,
{
    if i < s.len() && !is_unicode_whitespace(s[i as int]) {
        token_end(s, i + 1)
    } else {
        i
    }
}

/// The second whitespace-separated word of `line` (`split_whitespace`), or
/// the empty text when there is none.
pub open spec fn second_word(line: Seq<char>) -> Seq<char> {
    let a = ws_skip(line, 0);
    let b = token_end(line, a);
    let c = ws_skip(line, b);
    line.subrange(c as int, token_end(line, c) as int)
}

/// What a request to the local callback listener is.
#[derive(Debug)]
pub enum CallbackRequest {
    /// Not a `GET /...` request (a browser probe); answer 404 and keep
    /// listening.
    NotOAuth,
    /// A `GET` without a usable `code` parameter; answer 400 and keep
    /// listening.
    MissingCode,
    /// The OAuth callback, with its `code` parameter decoded.
    Code(String),
}

fn skip_word(v: &Vec<char>, from: usize) -> (k: usize)
    requires
        from <= v@.len(),
    ensures
        from <= k <= v@.len(),
        k == token_end(v@, from as nat),
{
    let mut k = from;
    while k < v.len() && !is_whitespace_char(v[k])
        invariant
            from <= k <= v@.len(),
            token_end(v@, from as nat) == token_end(v@, k as nat),
        decreases v@.len() - k,
    {
        k = k + 1;
    }
    k
}

/// Sorts a request read by the local callback listener: anything that is
/// not `GET /...` on its first line is a probe; otherwise the request
/// target (the line's second word) must carry a `code` query parameter.
pub fn classify_callback(request: &str) -> (r: CallbackRequest)
    ensures
        !starts_with_chars(first_line(request@), "GET /"@) ==> r is NotOAuth,
        starts_with_chars(first_line(request@), "GET /"@) ==> match url_query_code(
            second_word(first_line(request@)),
        ) {
            Some(t) => r matches CallbackRequest::Code(c) && c@ == t,
            None => r is MissingCode,
        },
{
    let v = str_chars(request);
    let mut k: usize = 0;
    while k < v.len() && v[k] != '\n'
        invariant
            k <= v@.len(),
            find_char(v@, '\n', 0) == find_char(v@, '\n', k as int),
        decreases v@.len() - k,
    {
        k = k + 1;
    }
    let end = if k < v.len() && k > 0 && v[k - 1] == '\r' {
        k - 1
    } else {
        k
    };
    let line = chars_to_string(&v, 0, end);
    assert(line@ =~= first_line(request@));
    let lv = str_chars(line.as_str());
    if !chars_start_with(&lv, "GET /") {
        return CallbackRequest::NotOAuth;
    }
    let a = skip_whitespace(&lv, 0);
    let b = skip_word(&lv, a);
    let c = skip_whitespace(&lv, b);
    let d = skip_word(&lv, c);
    let target = chars_to_string(&lv, c, d);
    match extract_query_param(target.as_str(), "code") {
        Some(code) => CallbackRequest::Code(code),
        None => CallbackRequest::MissingCode,
    }
}

/// The decoded `code` parameter of a request target.
pub open spec fn url_query_code(target: Seq<char>) -> Option<Seq<char>> {
    match query_param(encode_utf8(target), "code".spec_bytes()) {
        None => None,
        Some(v) => url_decoded_text(v),
    }
}

// ── Access tokens ──────────────────────────────────────────────────────

/// What URL-safe base64 decoding (padding required) gives for `text`, as
/// `base64::engine::general_purpose::URL_SAFE` decodes it.
pub uninterp spec fn url_safe_base64_decoded(text: Seq<u8>) -> Option<Seq<u8>>;

/// Decodes URL-safe base64 with `base64::engine::general_purpose::URL_SAFE`
/// (`Engine::decode`); a decoding error gives `None`.
#[verifier::external_body]
fn url_safe_base64_decode(text: &[u8]) -> (r: Option<Vec<u8>>)
    ensures
        match url_safe_base64_decoded(text@) {
            Some(d) => r matches Some(v) && v@ == d,
            None => r is None,
        },
{
    base64::Engine::decode(&base64::engine::general_purpose::URL_SAFE, text).ok()
}

/// The payload segment of a token `header.payload.signature`: the text
/// between the first `.` and the next one (or the end).
pub open spec fn token_payload(token: Seq<u8>) -> Option<Seq<u8>> {
    let d1 = find_byte(token, 46, 0, token.len() as int);
    if d1 == token.len() {
        None
    } else {
        Some(token.subrange(d1 + 1, find_byte(token, 46, d1 + 1, token.len() as int)))
    }
}

/// `s` padded with `=` to a multiple of four bytes.
pub open spec fn base64_padded(s: Seq<u8>) -> Seq<u8> {
    s + Seq::new(((4 - s.len() % 4) % 4) as nat, |i: int| 61u8)
}

/// The string field `field` of a decoded token payload: `None` unless the
/// payload is UTF-8 JSON text holding that key with a string value.
pub open spec fn payload_field(decoded: Seq<u8>, field: Seq<char>) -> Option<Seq<char>> {
    if valid_utf8(decoded) {
        json_key_value(decode_utf8(decoded), field)
    } else {
        None
    }
}

/// The string field `field` of the JWT `token`.
pub open spec fn token_field(token: Seq<u8>, field: Seq<char>) -> Option<Seq<char>> {
    match token_payload(token) {
        None => None,
        Some(p) => match url_safe_base64_decoded(base64_padded(p)) {
            None => None,
            Some(d) => payload_field(d, field),
        },
    }
}

/// Reads the string field `field` out of a decoded token payload.
pub fn jwt_payload_field(decoded: &[u8], field: &str) -> (r: Option<String>)
    ensures
        match payload_field(decoded@, field@) {
            Some(t) => r matches Some(x) && x@ == t,
            None => r is None,
        },
{
    match str_from_utf8(decoded) {
        None => None,
        Some(json) => {
            proof {
                encode_utf8_decode_utf8(json@);
            }
            json_extract_string(json, field)
        },
    }
}

/// Reads the string field `field` out of the payload of the JWT `token`
/// (`header.payload.signature`, payload in URL-safe base64 with its padding
/// restored).
pub fn jwt_extract_field(token: &str, field: &str) -> (r: Option<String>)
    ensures
        match token_field(token.spec_bytes(), field@) {
            Some(t) => r matches Some(x) && x@ == t,
            None => r is None,
        },
{
    let t = token.as_bytes();
    let len = t.len();
    let d1 = find_byte_in(t, 46, 0, len);
    if d1 == len {
        return None;
    }
    let d2 = find_byte_in(t, 46, d1 + 1, len);
    let mut padded: Vec<u8> = Vec::new();
    let mut i = d1 + 1;
    while i < d2
        invariant
            d1 + 1 <= i <= d2 <= t@.len(),
            padded@ == t@.subrange(d1 + 1, i as int),
        decreases d2 - i,
    {
        padded.push(t[i]);
        i = i + 1;
        assert(padded@ =~= t@.subrange(d1 + 1, i as int));
    }
    let ghost payload = padded@;
    let pad = (4 - (padded.len() % 4)) % 4;
    let mut n: usize = 0;
    while n < pad
        invariant
            n <= pad,
            pad == (4 - payload.len() % 4) % 4,
            padded@ == payload + Seq::new(n as nat, |j: int| 61u8),
        decreases pad - n,
    {
        padded.push(61);
        n = n + 1;
        assert(padded@ =~= payload + Seq::new(n as nat, |j: int| 61u8));
    }
    assert(padded@ =~= base64_padded(payload));
    match url_safe_base64_decode(padded.as_slice()) {
        None => None,
        Some(decoded) => jwt_payload_field(decoded.as_slice(), field),
    }
}

/// The payload handed to the base64 decoder is the payload followed by
/// fewer than four `=` bytes, and its length is a multiple of four.
pub proof fn lemma_base64_padded_shape(s: Seq<u8>)
    ensures
        base64_padded(s).len() % 4 == 0,
        s.len() <= base64_padded(s).len() < s.len() + 4,
        base64_padded(s).take(s.len() as int) == s,
        forall|i: int| s.len() <= i < base64_padded(s).len() ==> base64_padded(s)[i] == 61u8,
{
    let p = base64_padded(s);
    assert(p.take(s.len() as int) =~= s);
}

/// The lower-case hexadecimal digit byte for `n < 16`: `0`-`9`, `a`-`f`.
pub open spec fn hex_lower_byte(n: nat) -> u8 {
    if n < 10 {
        (n + 48) as u8
    } else {
        (n + 87) as u8
    }
}

/// Percent-decoding ignores the case of the hex digits: `%` and the two
/// hex digits of a byte, in lower or in upper case, decode to that byte,
/// followed by the decoding of the rest.
pub proof fn lemma_url_decode_hex_case(x: u8, rest: Seq<u8>)
    ensures
        url_decoded(seq![37u8, hex_lower_byte(x as nat / 16), hex_lower_byte(x as nat % 16)] + rest)
            == prepend_decoded(seq![x], url_decoded(rest)),
        url_decoded(seq![37u8, hex_upper(x as nat / 16), hex_upper(x as nat % 16)] + rest)
            == prepend_decoded(seq![x], url_decoded(rest)),
{
    let hi = x as nat / 16;
    let lo = x as nat % 16;
    assert(hi < 16 && lo < 16);
    assert(hi * 16 + lo == x);
    let a = seq![37u8, hex_lower_byte(hi), hex_lower_byte(lo)] + rest;
    let b = seq![37u8, hex_upper(hi), hex_upper(lo)] + rest;
    assert(hex_nibble(hex_lower_byte(hi)) == Some(hi));
    assert(hex_nibble(hex_lower_byte(lo)) == Some(lo));
    assert(hex_nibble(hex_upper(hi)) == Some(hi));
    assert(hex_nibble(hex_upper(lo)) == Some(lo));
    assert(a.skip(3) =~= rest);
    assert(b.skip(3) =~= rest);
}

} // verus!
