//! Typed request paths and reply shapes for the Shelly Gen2+ RPC surface.
//!
//! The library speaks `GET /rpc/<Method>?<params>` for read and action
//! methods. Methods with no parameters use fixed [`Path`]s; parameterized
//! methods build a query string into a [`Path`] without touching the heap.

use vstd::prelude::*;
use vstd::string::StringSliceAdditionalSpecFns;
use vstd::utf8::*;
use crate::error::Error;

pub mod common;
pub mod cover;
pub mod input;
pub mod light;
pub mod script;
pub mod sensors;
pub mod shelly;
pub mod switch;
pub mod sys;
pub mod wifi;

verus! {

/// Maximum path length for a single RPC call. 96 bytes is enough for every
/// documented Gen2+ method plus a handful of query parameters.
pub const MAX_PATH_LEN: usize = 96;

/// The fixed-capacity string type of `heapless`, declared so that it can
/// stand in signatures; the bytes of a request path are [`path_bytes`].
#[verifier::external_type_specification]
#[verifier::external_body]
pub struct ExFixedString<const N: usize>(heapless::String<N>);

/// A stack-allocated request path buffer.
pub type Path = heapless::String<MAX_PATH_LEN>;

/// The bytes held by a path buffer.
pub uninterp spec fn path_bytes(p: heapless::String<96>) -> Seq<u8>;

/// An empty path buffer (`heapless::String::new`).
#[verifier::external_body]
fn path_new() -> (p: Path)
    ensures
        path_bytes(p) == Seq::<u8>::empty(),
{
    heapless::String::new()
}

/// Appends `s` to `p` (`heapless::String::push_str`): the bytes of `s` are
/// appended when they fit in the capacity, otherwise `p` is left unchanged
/// and `Err(())` is returned.
#[verifier::external_body]
fn path_push_str(p: &mut Path, s: &str) -> (r: Result<(), ()>)
    ensures
        path_bytes(*old(p)).len() + s.spec_bytes().len() <= MAX_PATH_LEN ==> r is Ok
            && path_bytes(*final(p)) == path_bytes(*old(p)) + s.spec_bytes(),
        path_bytes(*old(p)).len() + s.spec_bytes().len() > MAX_PATH_LEN ==> r is Err
            && path_bytes(*final(p)) == path_bytes(*old(p)),
{
    p.push_str(s)
}

/// Build a [`Path`] from a fixed prefix and a tail. Returns
/// [`Error::BufferTooSmall`] if the combined string overflows
/// [`MAX_PATH_LEN`] bytes.
pub fn path(prefix: &str, tail: &str) -> (r: Result<Path, Error>)
    ensures
        prefix.spec_bytes().len() + tail.spec_bytes().len() <= MAX_PATH_LEN ==> (r matches Ok(p)
            && path_bytes(p) == prefix.spec_bytes() + tail.spec_bytes()),
        prefix.spec_bytes().len() + tail.spec_bytes().len() > MAX_PATH_LEN ==> r == Err::<Path, Error>(
            Error::BufferTooSmall,
        ),
{
    let mut p = path_new();
    assert(path_bytes(p) + prefix.spec_bytes() =~= prefix.spec_bytes());
    if path_push_str(&mut p, prefix).is_err() {
        return Err(Error::BufferTooSmall);
    }
    if path_push_str(&mut p, tail).is_err() {
        return Err(Error::BufferTooSmall);
    }
    Ok(p)
}

/// A fixed path holding `literal`.
pub(crate) fn static_path(literal: &str) -> (p: Path)
    requires
        literal.spec_bytes().len() <= MAX_PATH_LEN,
    ensures
        path_bytes(p) == literal.spec_bytes(),
{
    let empty = "";
    proof {
        reveal_strlit("");
        assert(empty@ =~= Seq::<char>::empty());
        assert(empty.spec_bytes() =~= Seq::<u8>::empty());
    }
    match path(literal, empty) {
        Ok(p) => {
            assert(path_bytes(p) =~= encode_utf8(literal@));
            p
        },
        Err(_) => {
            proof { assert(false); }
            path_new()
        },
    }
}

/// A path made of an ASCII `prefix` and an ASCII `tail` that fit together.
pub(crate) fn query_path(prefix: &str, tail: &String) -> (r: Result<Path, Error>)
    requires
        is_ascii_chars(prefix@),
        is_ascii_chars(tail@),
        prefix@.len() + tail@.len() <= MAX_PATH_LEN,
    ensures
        r matches Ok(p) && path_bytes(p) == encode_utf8(prefix@ + tail@),
{
    let t = tail.as_str();
    proof {
        is_ascii_chars_encode_utf8(prefix@);
        is_ascii_chars_encode_utf8(t@);
        crate::text::lemma_encode_utf8_concat(prefix@, t@);
    }
    path(prefix, t)
}

pub proof fn lemma_ascii_concat(a: Seq<char>, b: Seq<char>)
    requires
        is_ascii_chars(a),
        is_ascii_chars(b),
    ensures
        is_ascii_chars(a + b),
{
    assert forall|i: int| 0 <= i < (a + b).len() implies '\0' <= #[trigger] (a + b)[i] <= '\u{7f}' by {
        if i < a.len() {
            assert((a + b)[i] == a[i]);
        } else {
            assert((a + b)[i] == b[i - a.len()]);
        }
    }
}

/// `"true"` or `"false"`, as the device expects boolean query values.
pub open spec fn bool_text(b: bool) -> Seq<char> {
    if b {
        "true"@
    } else {
        "false"@
    }
}

// ── Reply envelopes ────────────────────────────────────────────────────

/// Shelly Gen2+ error response body: `{"code": i32, "message": "..."}`.
///
/// Returned (with HTTP 200) for malformed or unauthorized RPC calls on the
/// device HTTP surface.
#[derive(Debug, Clone, Copy)]
pub struct RpcErrorBody<'a> {
    /// Shelly RPC error code (e.g. `-103` for "resource not available").
    pub code: i32,
    /// Human-readable error message. Required so plain result objects that
    /// happen to contain a `code` integer don't match the error envelope.
    pub message: &'a str,
}

/// A boolean ACK response body as returned by most setter/action methods
/// (`Switch.Set`, `Cover.Open`, `Shelly.Reboot`, ...).
#[derive(Debug, Default, Clone, Copy)]
pub struct Ack {
    /// Some setters return the previous state (`Switch.Set` → `was_on`).
    pub was_on: Option<bool>,
}

/// Whether JSON text is accepted as one complete value, followed only by
/// whitespace, by `serde_json_core::from_slice` into `serde::de::IgnoredAny`.
pub uninterp spec fn json_value_accepted(body: Seq<u8>) -> bool;

/// Parses `body` as any JSON value and discards it
/// (`serde_json_core::from_slice::<serde::de::IgnoredAny>`). Its source ends a
/// successful parse by requiring that only whitespace follows and then
/// reports the whole input as consumed, which the second clause states.
#[verifier::external_body]
fn json_value_len(body: &[u8]) -> (r: Option<usize>)
    ensures
        r is Some <==> json_value_accepted(body@),
        r matches Some(n) ==> n == body@.len(),
{
    match serde_json_core::from_slice::<serde::de::IgnoredAny>(body) {
        Ok((_, n)) => Some(n),
        Err(_) => None,
    }
}

/// ASCII whitespace as `u8::is_ascii_whitespace` defines it.
pub open spec fn is_ascii_ws(b: u8) -> bool {
    b == 0x20 || b == 0x09 || b == 0x0a || b == 0x0c || b == 0x0d
}

/// `s` without leading and trailing ASCII whitespace (`<[u8]>::trim_ascii`).
pub open spec fn trim_ascii(s: Seq<u8>) -> Seq<u8>
    decreases s.len(),
{
    if s.len() > 0 && is_ascii_ws(s[0]) {
        trim_ascii(s.drop_first())
    } else if s.len() > 0 && is_ascii_ws(s.last()) {
        trim_ascii(s.drop_last())
    } else {
        s
    }
}

/// The three bare JSON scalars that the value check does not accept.
pub open spec fn is_bare_literal(s: Seq<u8>) -> bool {
    s == "null"@.map_values(|c: char| c as u8) || s == "true"@.map_values(|c: char| c as u8)
        || s == "false"@.map_values(|c: char| c as u8)
}

/// What a Gen2+ reply body means, given the error code when the body parsed
/// as the `{"code", "message"}` error envelope.
pub open spec fn rpc_reply_result(body: Seq<u8>, envelope_code: Option<i32>) -> Result<(), Error> {
    match envelope_code {
        Some(code) => Err(Error::Rpc(code)),
        None => if is_bare_literal(trim_ascii(body)) || json_value_accepted(body) {
            Ok(())
        } else {
            Err(Error::Parse)
        },
    }
}

fn trim_ascii_bounds(s: &[u8]) -> (r: (usize, usize))
    ensures
        r.0 <= r.1 <= s@.len(),
        trim_ascii(s@) == s@.subrange(r.0 as int, r.1 as int),
{
    let mut lo: usize = 0;
    let mut hi: usize = s.len();
    assert(s@.subrange(0, s@.len() as int) =~= s@);
    while lo < hi && (s[lo] == 0x20 || s[lo] == 0x09 || s[lo] == 0x0a || s[lo] == 0x0c || s[lo] == 0x0d)
        invariant
            lo <= hi == s@.len(),
            trim_ascii(s@) == trim_ascii(s@.subrange(lo as int, hi as int)),
        decreases hi - lo,
    {
        assert(s@.subrange(lo as int, hi as int).drop_first() =~= s@.subrange(lo + 1, hi as int));
        lo = lo + 1;
    }
    while lo < hi && (s[hi - 1] == 0x20 || s[hi - 1] == 0x09 || s[hi - 1] == 0x0a || s[hi - 1] == 0x0c
        || s[hi - 1] == 0x0d)
        invariant
            lo <= hi <= s@.len(),
            lo < hi ==> !is_ascii_ws(s@[lo as int]),
            trim_ascii(s@) == trim_ascii(s@.subrange(lo as int, hi as int)),
        decreases hi - lo,
    {
        assert(s@.subrange(lo as int, hi as int).drop_last() =~= s@.subrange(lo as int, hi - 1));
        hi = hi - 1;
    }
    (lo, hi)
}

fn bytes_eq_str(a: &[u8], lo: usize, hi: usize, lit: &str) -> (r: bool)
    requires
        lo <= hi <= a@.len(),
        is_ascii_chars(lit@),
    ensures
        r == (a@.subrange(lo as int, hi as int) == lit@.map_values(|c: char| c as u8)),
{
    let b = lit.as_bytes();
    proof {
        is_ascii_chars_encode_utf8(lit@);
        assert(b@ =~= lit@.map_values(|c: char| c as u8));
    }
    if hi - lo != b.len() {
        assert(a@.subrange(lo as int, hi as int).len() != b@.len());
        return false;
    }
    let mut i: usize = 0;
    while i < b.len()
        invariant
            lo <= hi <= a@.len(),
            hi - lo == b@.len(),
            b@ == lit@.map_values(|c: char| c as u8),
            i <= b@.len(),
            forall|k: int| 0 <= k < i ==> a@[lo + k] == b@[k],
        decreases b@.len() - i,
    {
        if a[lo + i] != b[i] {
            assert(a@.subrange(lo as int, hi as int)[i as int] == a@[lo + i]);
            assert(a@.subrange(lo as int, hi as int)[i as int] != b@[i as int]);
            return false;
        }
        i = i + 1;
    }
    assert(a@.subrange(lo as int, hi as int) =~= b@);
    true
}

/// Decides a Gen2+ RPC reply body. `envelope_code` is the `code` of the body
/// when it parsed as the `{"code": i32, "message": "..."}` error envelope.
/// Returns `Err(Error::Rpc(code))` for an error envelope, `Ok(())` on any
/// other valid JSON value, and `Err(Error::Parse)` on a non-JSON body (HTML
/// error page, empty response, binary garbage).
pub fn check_rpc_reply(body: &[u8], envelope_code: Option<i32>) -> (r: Result<(), Error>)
    ensures
        r == rpc_reply_result(body@, envelope_code),
{
    if let Some(code) = envelope_code {
        return Err(Error::Rpc(code));
    }
    let (lo, hi) = trim_ascii_bounds(body);
    proof {
        reveal_strlit("null");
        reveal_strlit("true");
        reveal_strlit("false");
        assert("null"@ =~= seq!['n', 'u', 'l', 'l']);
        assert("true"@ =~= seq!['t', 'r', 'u', 'e']);
        assert("false"@ =~= seq!['f', 'a', 'l', 's', 'e']);
    }
    if bytes_eq_str(body, lo, hi, "null") || bytes_eq_str(body, lo, hi, "true") || bytes_eq_str(
        body,
        lo,
        hi,
        "false",
    ) {
        return Ok(());
    }
    match json_value_len(body) {
        None => Err(Error::Parse),
        Some(consumed) => {
            let mut i = consumed;
            while i < body.len()
                invariant
                    consumed <= i <= body@.len(),
                    consumed == body@.len(),
                    forall|k: int| consumed <= k < i ==> is_ascii_ws(body@[k]),
                decreases body@.len() - i,
            {
                let b = body[i];
                if !(b == 0x20 || b == 0x09 || b == 0x0a || b == 0x0c || b == 0x0d) {
                    return Err(Error::Parse);
                }
                i = i + 1;
            }
            Ok(())
        },
    }
}

} // verus!
