//! A device's address and request URLs, the checks on its replies, and the
//! request bodies for the device methods that take structured input
//! (`Script.Create`, `Script.PutCode`), sent as `POST /rpc/<Method>` with a
//! JSON body.

use vstd::prelude::*;
use vstd::string::{StringExecFns, StringSliceAdditionalSpecFns};
use vstd::utf8::*;
use crate::error::Error;
use crate::text::{decimal, u64_to_decimal};
use crate::util::{append_copy, append_json_escaped, json_escaped, written_at, wrote_proper_prefix};

verus! {

/// Whether `s` starts with `p`.
pub open spec fn has_prefix(s: Seq<u8>, p: Seq<u8>) -> bool {
    s.len() >= p.len() && s.take(p.len() as int) == p
}

fn starts_with_bytes(s: &[u8], p: &[u8]) -> (r: bool)
    ensures
        r == has_prefix(s@, p@),
{
    if s.len() < p.len() {
        return false;
    }
    let mut k: usize = 0;
    while k < p.len()
        invariant
            p@.len() <= s@.len(),
            k <= p@.len(),
            forall|j: int| 0 <= j < k ==> s@[j] == p@[j],
        decreases p@.len() - k,
    {
        if s[k] != p[k] {
            assert(s@.take(p@.len() as int)[k as int] != p@[k as int]);
            return false;
        }
        k = k + 1;
    }
    assert(s@.take(p@.len() as int) =~= p@);
    true
}

/// The base URL of a device: `host` itself when it already names the
/// `http://` or `https://` scheme, else `host` after `http://`.
pub fn base_url(host: &str) -> (r: String)
    ensures
        r@ == if has_prefix(host.spec_bytes(), "http://".spec_bytes()) || has_prefix(
            host.spec_bytes(),
            "https://".spec_bytes(),
        ) {
            host@
        } else {
            "http://"@ + host@
        },
{
    let h = host.as_bytes();
    if starts_with_bytes(h, "http://".as_bytes()) || starts_with_bytes(h, "https://".as_bytes()) {
        String::from_str(host)
    } else {
        let mut url = String::from_str("http://");
        url.append(host);
        url
    }
}

/// Maximum length of a device's base URL (`http://192.168.1.50:8080`).
pub const MAX_BASE_LEN: usize = 64;

/// Maximum length of a full request URL (base URL and RPC path).
pub const MAX_URL_LEN: usize = 160;

/// A device's base URL, held on the stack.
pub type BaseUrl = heapless::String<MAX_BASE_LEN>;

/// A full request URL, held on the stack.
pub type DeviceUrl = heapless::String<MAX_URL_LEN>;

/// The bytes held by a base-URL buffer.
pub uninterp spec fn base_url_bytes(b: heapless::String<64>) -> Seq<u8>;

/// The bytes held by a request-URL buffer.
pub uninterp spec fn device_url_bytes(u: heapless::String<160>) -> Seq<u8>;

/// An empty base-URL buffer (`heapless::String::new`).
#[verifier::external_body]
fn base_url_new() -> (b: BaseUrl)
    ensures
        base_url_bytes(b) == Seq::<u8>::empty(),
{
    heapless::String::new()
}

/// Appends `s` to `b` (`heapless::String::push_str`): the bytes of `s` are
/// appended when they fit in the capacity, otherwise `b` is left unchanged
/// and `Err(())` is returned.
#[verifier::external_body]
fn base_url_push_str(b: &mut BaseUrl, s: &str) -> (r: Result<(), ()>)
    ensures
        base_url_bytes(*old(b)).len() + s.spec_bytes().len() <= MAX_BASE_LEN ==> r is Ok
            && base_url_bytes(*final(b)) == base_url_bytes(*old(b)) + s.spec_bytes(),
        base_url_bytes(*old(b)).len() + s.spec_bytes().len() > MAX_BASE_LEN ==> r is Err
            && base_url_bytes(*final(b)) == base_url_bytes(*old(b)),
{
    b.push_str(s)
}

/// An empty request-URL buffer (`heapless::String::new`).
#[verifier::external_body]
fn device_url_new() -> (u: DeviceUrl)
    ensures
        device_url_bytes(u) == Seq::<u8>::empty(),
{
    heapless::String::new()
}

/// Appends `s` to `u` (`heapless::String::push_str`): the bytes of `s` are
/// appended when they fit in the capacity, otherwise `u` is left unchanged
/// and `Err(())` is returned.
#[verifier::external_body]
fn device_url_push_str(u: &mut DeviceUrl, s: &str) -> (r: Result<(), ()>)
    ensures
        device_url_bytes(*old(u)).len() + s.spec_bytes().len() <= MAX_URL_LEN ==> r is Ok
            && device_url_bytes(*final(u)) == device_url_bytes(*old(u)) + s.spec_bytes(),
        device_url_bytes(*old(u)).len() + s.spec_bytes().len() > MAX_URL_LEN ==> r is Err
            && device_url_bytes(*final(u)) == device_url_bytes(*old(u)),
{
    u.push_str(s)
}

/// A device's base URL (scheme, host and optional port, no trailing
/// slash) in a stack buffer; [`Error::BufferTooSmall`] when it is longer
/// than [`MAX_BASE_LEN`] bytes.
pub fn device_base(base: &str) -> (r: Result<BaseUrl, Error>)
    ensures
        base.spec_bytes().len() <= MAX_BASE_LEN ==> (r matches Ok(b) && base_url_bytes(b)
            == base.spec_bytes()),
        base.spec_bytes().len() > MAX_BASE_LEN ==> r == Err::<BaseUrl, Error>(
            Error::BufferTooSmall,
        ),
{
    let mut b = base_url_new();
    assert(base_url_bytes(b) + base.spec_bytes() =~= base.spec_bytes());
    if base_url_push_str(&mut b, base).is_err() {
        return Err(Error::BufferTooSmall);
    }
    Ok(b)
}

/// The URL of the request `path` on the device at `base`: the two joined;
/// [`Error::BufferTooSmall`] when they are longer than [`MAX_URL_LEN`]
/// bytes together.
pub fn device_url(base: &str, path: &str) -> (r: Result<DeviceUrl, Error>)
    ensures
        base.spec_bytes().len() + path.spec_bytes().len() <= MAX_URL_LEN ==> (r matches Ok(u)
            && device_url_bytes(u) == base.spec_bytes() + path.spec_bytes()),
        base.spec_bytes().len() + path.spec_bytes().len() > MAX_URL_LEN ==> r == Err::<
            DeviceUrl,
            Error,
        >(Error::BufferTooSmall),
{
    let mut u = device_url_new();
    assert(device_url_bytes(u) + base.spec_bytes() =~= base.spec_bytes());
    if device_url_push_str(&mut u, base).is_err() {
        return Err(Error::BufferTooSmall);
    }
    if device_url_push_str(&mut u, path).is_err() {
        return Err(Error::BufferTooSmall);
    }
    Ok(u)
}

/// Whether an HTTP status counts as success: the 2xx range.
pub open spec fn status_successful(status: u16) -> bool {
    200 <= status <= 299
}

/// The outcome of a reply's HTTP status: `Ok` for a 2xx status, otherwise
/// [`Error::Http`] carrying the status.
pub fn check_http_status(status: u16) -> (r: Result<(), Error>)
    ensures
        status_successful(status) ==> r is Ok,
        !status_successful(status) ==> r == Err::<(), Error>(Error::Http(status)),
{
    if 200 <= status && status <= 299 {
        Ok(())
    } else {
        Err(Error::Http(status))
    }
}

/// The reply body `null`, which fire-and-forget methods send in place of an
/// object.
pub open spec fn null_reply() -> Seq<u8> {
    seq![110u8, 117u8, 108u8, 108u8]
}

/// Whether a reply body is exactly `null`.
pub fn is_null_reply(body: &[u8]) -> (r: bool)
    ensures
        r == (body@ == null_reply()),
{
    if body.len() != 4 {
        return false;
    }
    let r = body[0] == 110u8 && body[1] == 117u8 && body[2] == 108u8 && body[3] == 108u8;
    proof {
        if r {
            assert(body@ =~= null_reply());
        } else {
            assert(body@ != null_reply()) by {
                if body@ == null_reply() {
                    assert(body@[0] == 110u8 && body@[1] == 117u8);
                    assert(body@[2] == 108u8 && body@[3] == 108u8);
                }
            }
        }
    }
    r
}

/// Size of the stack buffer that holds a `Script.Create` body.
pub const SCRIPT_CREATE_BODY_LEN: usize = 128;

/// The body of `Script.Create` for a script `name`: `{"name":"<name>"}`.
pub open spec fn script_create_body_bytes(name: Seq<u8>) -> Seq<u8> {
    r#"{"name":""#.spec_bytes() + json_escaped(name) + r#""}"#.spec_bytes()
}

/// The body of `Script.PutCode`:
/// `{"id":<id>,"code":"<code>"}`, with `,"append":true` before the closing
/// brace when appending to the slot.
pub open spec fn put_code_body_bytes(id: u32, code: Seq<u8>, append: bool) -> Seq<u8> {
    r#"{"id":"#.spec_bytes() + encode_utf8(decimal(id as nat)) + r#","code":""#.spec_bytes()
        + json_escaped(code) + if append {
        r#"","append":true}"#.spec_bytes()
    } else {
        r#""}"#.spec_bytes()
    }
}

/// Writes the `Script.Create` body for `name` into `dst`, JSON-escaping the
/// name. Returns the number of bytes written.
pub fn script_create_body(name: &str, dst: &mut [u8]) -> (r: Result<usize, Error>)
    ensures
        final(dst)@.len() == old(dst)@.len(),
        script_create_body_bytes(name.spec_bytes()).len() <= old(dst)@.len() ==> (r matches Ok(n)
            && n == script_create_body_bytes(name.spec_bytes()).len()) && written_at(
            old(dst)@,
            final(dst)@,
            0,
            script_create_body_bytes(name.spec_bytes()),
        ),
        script_create_body_bytes(name.spec_bytes()).len() > old(dst)@.len() ==> r == Err::<
            usize,
            Error,
        >(Error::BufferTooSmall) && wrote_proper_prefix(
            old(dst)@,
            final(dst)@,
            0,
            script_create_body_bytes(name.spec_bytes()),
        ),
{
    let ghost orig = dst@;
    let open = r#"{"name":""#.as_bytes();
    let close = r#""}"#.as_bytes();
    let nb = name.as_bytes();
    let ghost full = script_create_body_bytes(nb@);
    let ghost p1 = open@;
    let ghost p2 = p1 + json_escaped(nb@);
    proof {
        assert(full == p2 + close@);
        assert(dst@ =~= orig.take(0) + full.take(0) + orig.skip(0));
        assert(full.subrange(0, p1.len() as int) =~= open@);
        assert(full.subrange(p1.len() as int, p2.len() as int) =~= json_escaped(nb@));
        assert(full.subrange(p2.len() as int, full.len() as int) =~= close@);
    }
    let mut len: usize = 0;
    len = append_copy(dst, len, open, Ghost(orig), Ghost(full))?;
    len = append_json_escaped(dst, len, nb, Ghost(orig), Ghost(full))?;
    len = append_copy(dst, len, close, Ghost(orig), Ghost(full))?;
    assert(full.take(len as int) =~= full);
    Ok(len)
}

/// Writes the `Script.PutCode` body into `dst`: the slot `id`, the
/// JSON-escaped `code`, and `"append":true` when `append` is set (later
/// chunks of a script larger than the device's HTTP buffer). Returns the
/// number of bytes written.
pub fn script_put_code_body(id: u32, code: &str, append: bool, dst: &mut [u8]) -> (r: Result<
    usize,
    Error,
>)
    ensures
        final(dst)@.len() == old(dst)@.len(),
        put_code_body_bytes(id, code.spec_bytes(), append).len() <= old(dst)@.len() ==> (r matches Ok(
            n,
        ) && n == put_code_body_bytes(id, code.spec_bytes(), append).len()) && written_at(
            old(dst)@,
            final(dst)@,
            0,
            put_code_body_bytes(id, code.spec_bytes(), append),
        ),
        put_code_body_bytes(id, code.spec_bytes(), append).len() > old(dst)@.len() ==> r == Err::<
            usize,
            Error,
        >(Error::BufferTooSmall) && wrote_proper_prefix(
            old(dst)@,
            final(dst)@,
            0,
            put_code_body_bytes(id, code.spec_bytes(), append),
        ),
{
    let ghost orig = dst@;
    let open = r#"{"id":"#.as_bytes();
    let id_text = u64_to_decimal(id as u64);
    let digits = id_text.as_str().as_bytes();
    let code_key = r#","code":""#.as_bytes();
    let cb = code.as_bytes();
    let suffix = if append {
        r#"","append":true}"#.as_bytes()
    } else {
        r#""}"#.as_bytes()
    };
    let ghost full = put_code_body_bytes(id, cb@, append);
    let ghost p1 = open@;
    let ghost p2 = p1 + digits@;
    let ghost p3 = p2 + code_key@;
    let ghost p4 = p3 + json_escaped(cb@);
    proof {
        assert(digits@ == encode_utf8(decimal(id as nat)));
        assert(full == p4 + suffix@);
        assert(dst@ =~= orig.take(0) + full.take(0) + orig.skip(0));
        assert(full.subrange(0, p1.len() as int) =~= open@);
        assert(full.subrange(p1.len() as int, p2.len() as int) =~= digits@);
        assert(full.subrange(p2.len() as int, p3.len() as int) =~= code_key@);
        assert(full.subrange(p3.len() as int, p4.len() as int) =~= json_escaped(cb@));
        assert(full.subrange(p4.len() as int, full.len() as int) =~= suffix@);
    }
    let mut len: usize = 0;
    len = append_copy(dst, len, open, Ghost(orig), Ghost(full))?;
    len = append_copy(dst, len, digits, Ghost(orig), Ghost(full))?;
    len = append_copy(dst, len, code_key, Ghost(orig), Ghost(full))?;
    len = append_json_escaped(dst, len, cb, Ghost(orig), Ghost(full))?;
    len = append_copy(dst, len, suffix, Ghost(orig), Ghost(full))?;
    assert(full.take(len as int) =~= full);
    Ok(len)
}

} // verus!
