//! Shelly Cloud API request building.
//!
//! All endpoints are `POST https://<server_uri>/<path>` with an
//! `application/x-www-form-urlencoded` body containing `auth_key` plus
//! endpoint-specific parameters. The cloud requires HTTPS, so the transport
//! is supplied by the caller; this module builds the URLs and form bodies
//! and decides the reply envelopes.
//!
//! # Scene format (`scene_script`)
//!
//! Mandatory fields: `_enabled`, `_run_on_ingest`, `if`, and `do[].notify`.
//! Omitting any of them creates a scene that the API accepts without error,
//! but `manual_run` won't fire the notification and the scene persists as a
//! ghost entry. Use [`notification_scene_script`] to build it correctly.
//!
//! # Rate limiting
//!
//! The Cloud API is rate-limited to ~1 request/second; exceeding it returns
//! `{"isok": false, "errors": {"max_req": "Request limit reached!"}}`.

use vstd::prelude::*;
use vstd::string::StringSliceAdditionalSpecFns;
use vstd::utf8::*;
use crate::error::Error;
use crate::text::str_from_utf8;
use crate::json_text::{json_string_value, lemma_json_escaped_utf8, lemma_json_string_value_escaped};
use crate::login::{lemma_url_decode_encode, url_decoded};
use crate::util::{
    append_copy, append_json_escaped, append_url_encoded, hex_upper, is_unreserved, json_escaped,
    url_encode_byte, url_encoded, written_at, wrote_proper_prefix,
};

verus! {

// ── Endpoint paths ───────────────────────────────────────────────────

/// `POST /scene/list` — list all scenes.
pub const SCENE_LIST: &'static str = "/scene/list";

/// `POST /scene/add` — create a new scene.
pub const SCENE_ADD: &'static str = "/scene/add";

/// `POST /scene/delete` — delete a scene by ID.
pub const SCENE_DELETE: &'static str = "/scene/delete";

/// `POST /scene/manual_run` — trigger a scene.
pub const SCENE_MANUAL_RUN: &'static str = "/scene/manual_run";

/// `POST /device/all_status` — all devices and their status.
pub const DEVICE_ALL_STATUS: &'static str = "/device/all_status";

/// Maximum length of a cloud API URL (server + path).
pub const MAX_URL_LEN: usize = 128;

/// Stack-allocated form body size for methods with small payloads
/// (`auth_key` + at most one short parameter).
pub const MAX_FORM_LEN: usize = 512;

/// Size of the scratch buffer that holds a scene script.
pub const MAX_SCENE_SCRIPT_LEN: usize = 512;

/// Content-Type header value for form-encoded POST bodies.
pub const FORM_CONTENT_TYPE: &'static str = "application/x-www-form-urlencoded";

// ── Form bodies ──────────────────────────────────────────────────────

/// `key=value` with both sides percent-encoded.
pub open spec fn form_field(key: Seq<u8>, value: Seq<u8>) -> Seq<u8> {
    url_encoded(key) + seq![0x3du8] + url_encoded(value)
}

/// The `&` that goes before every field but the first.
pub open spec fn form_sep(i: int) -> Seq<u8> {
    if i > 0 {
        seq![0x26u8]
    } else {
        Seq::empty()
    }
}

/// `key=value` pairs, percent-encoded and separated by `&`.
pub open spec fn form_encoded(ps: Seq<(Seq<u8>, Seq<u8>)>) -> Seq<u8>
    decreases ps.len(),
{
    if ps.len() == 0 {
        Seq::empty()
    } else {
        form_encoded(ps.drop_last()) + form_sep(ps.len() - 1) + form_field(ps.last().0, ps.last().1)
    }
}

/// The bytes of string pairs.
pub open spec fn param_bytes(ps: Seq<(&str, &str)>) -> Seq<(Seq<u8>, Seq<u8>)> {
    ps.map_values(|p: (&str, &str)| (p.0.spec_bytes(), p.1.spec_bytes()))
}

// ── Reading a form body back ─────────────────────────────────────────

/// The pieces of `s` between the bytes equal to `sep`, in order; a text
/// without `sep` is one piece.
pub open spec fn split_bytes(s: Seq<u8>, sep: u8) -> Seq<Seq<u8>>
    decreases s.len(),
{
    if s.len() == 0 {
        seq![Seq::<u8>::empty()]
    } else if s.last() == sep {
        split_bytes(s.drop_last(), sep).push(Seq::<u8>::empty())
    } else {
        let p = split_bytes(s.drop_last(), sep);
        p.update(p.len() - 1, p.last().push(s.last()))
    }
}

/// `s` cut at its first `sep`: the part before it and, when there is one,
/// the part after it.
pub open spec fn split_at_first(s: Seq<u8>, sep: u8) -> (Seq<u8>, Option<Seq<u8>>)
    decreases s.len(),
{
    if s.len() == 0 {
        (Seq::empty(), None)
    } else if s[0] == sep {
        (Seq::empty(), Some(s.drop_first()))
    } else {
        let r = split_at_first(s.drop_first(), sep);
        (seq![s[0]] + r.0, r.1)
    }
}

/// One `key=value` field read back: cut at the first `=` (a field without
/// one has an empty value) and both sides percent-decoded.
pub open spec fn decoded_field(piece: Seq<u8>) -> Option<(Seq<u8>, Seq<u8>)> {
    let (k, v) = split_at_first(piece, 0x3d);
    let v = match v {
        Some(x) => x,
        None => Seq::empty(),
    };
    match (url_decoded(k), url_decoded(v)) {
        (Some(a), Some(b)) => Some((a, b)),
        _ => None,
    }
}

/// The fields read back from their pieces; `None` when one fails.
pub open spec fn decoded_fields(pieces: Seq<Seq<u8>>) -> Option<Seq<(Seq<u8>, Seq<u8>)>>
    decreases pieces.len(),
{
    if pieces.len() == 0 {
        Some(Seq::empty())
    } else {
        match (decoded_fields(pieces.drop_last()), decoded_field(pieces.last())) {
            (Some(a), Some(f)) => Some(a.push(f)),
            _ => None,
        }
    }
}

/// A form body read back: split on `&`, each field read by
/// [`decoded_field`].
pub open spec fn form_decoded(body: Seq<u8>) -> Option<Seq<(Seq<u8>, Seq<u8>)>> {
    decoded_fields(split_bytes(body, 0x26))
}

spec fn lacks_byte(s: Seq<u8>, x: u8) -> bool {
    forall|i: int| 0 <= i < s.len() ==> s[i] != x
}

/// Percent-encoded bytes hold neither `&` nor `=`.
proof fn lemma_url_encoded_plain(b: Seq<u8>)
    ensures
        lacks_byte(url_encoded(b), 0x26),
        lacks_byte(url_encoded(b), 0x3d),
    decreases b.len(),
{
    if b.len() > 0 {
        lemma_url_encoded_plain(b.drop_last());
        let x = b.last();
        let e = url_encode_byte(x);
        if !is_unreserved(x) {
            let hi = x as nat / 16;
            let lo = x as nat % 16;
            assert(hex_upper(hi) != 0x26 && hex_upper(hi) != 0x3d);
            assert(hex_upper(lo) != 0x26 && hex_upper(lo) != 0x3d);
        }
        let u = url_encoded(b);
        assert(u == url_encoded(b.drop_last()) + e);
        assert forall|i: int| 0 <= i < u.len() implies u[i] != 0x26 && u[i] != 0x3d by {
            if i >= url_encoded(b.drop_last()).len() {
                assert(u[i] == e[i - url_encoded(b.drop_last()).len()]);
            }
        }
    }
}

proof fn lemma_split_single(s: Seq<u8>, sep: u8)
    requires
        lacks_byte(s, sep),
    ensures
        split_bytes(s, sep) == seq![s],
    decreases s.len(),
{
    if s.len() > 0 {
        assert(lacks_byte(s.drop_last(), sep)) by {
            assert forall|i: int| 0 <= i < s.drop_last().len() implies s.drop_last()[i] != sep by {
                assert(s.drop_last()[i] == s[i]);
            }
        }
        assert(s[s.len() - 1] != sep);
        lemma_split_single(s.drop_last(), sep);
        assert(s.drop_last().push(s.last()) =~= s);
        assert(seq![s.drop_last()].update(0, s.drop_last().push(s.last())) =~= seq![s]);
    } else {
        assert(s =~= Seq::<u8>::empty());
    }
}

proof fn lemma_split_append(a: Seq<u8>, b: Seq<u8>, sep: u8)
    requires
        lacks_byte(b, sep),
    ensures
        split_bytes(a + seq![sep] + b, sep) == split_bytes(a, sep).push(b),
    decreases b.len(),
{
    let s = a + seq![sep] + b;
    if b.len() == 0 {
        assert(b =~= Seq::<u8>::empty());
        assert(s.drop_last() =~= a);
        assert(s.last() == sep);
    } else {
        assert(s.drop_last() =~= a + seq![sep] + b.drop_last());
        assert(s.last() == b[b.len() - 1]);
        assert(lacks_byte(b.drop_last(), sep)) by {
            assert forall|i: int| 0 <= i < b.drop_last().len() implies b.drop_last()[i] != sep by {
                assert(b.drop_last()[i] == b[i]);
            }
        }
        assert(b.drop_last().push(b.last()) =~= b);
        lemma_split_append(a, b.drop_last(), sep);
        let p = split_bytes(a, sep).push(b.drop_last());
        assert(p.update(p.len() - 1, p.last().push(b.last())) =~= split_bytes(a, sep).push(b));
    }
}

proof fn lemma_split_at_first(a: Seq<u8>, b: Seq<u8>, sep: u8)
    requires
        lacks_byte(a, sep),
    ensures
        split_at_first(a + seq![sep] + b, sep) == (a, Some(b)),
    decreases a.len(),
{
    let s = a + seq![sep] + b;
    if a.len() == 0 {
        assert(s.drop_first() =~= b);
    } else {
        assert(s.drop_first() =~= a.drop_first() + seq![sep] + b);
        lemma_split_at_first(a.drop_first(), b, sep);
        assert(seq![a[0]] + a.drop_first() =~= a);
    }
}

/// Reading a form body back gives the fields it was built from: split on
/// `&`, cut each field at its first `=`, and percent-decode both sides.
/// (A body of no fields is empty and reads back as one empty field.)
pub proof fn lemma_form_decode_encode(ps: Seq<(Seq<u8>, Seq<u8>)>)
    requires
        ps.len() > 0,
    ensures
        form_decoded(form_encoded(ps)) == Some(ps),
    decreases ps.len(),
{
    let (k, v) = ps.last();
    let f = form_field(k, v);
    lemma_url_encoded_plain(k);
    lemma_url_encoded_plain(v);
    assert(lacks_byte(f, 0x26)) by {
        assert forall|i: int| 0 <= i < f.len() implies f[i] != 0x26 by {
            if i > url_encoded(k).len() {
                assert(f[i] == url_encoded(v)[i - url_encoded(k).len() - 1]);
            } else if i < url_encoded(k).len() {
                assert(f[i] == url_encoded(k)[i]);
            }
        }
    }
    lemma_split_at_first(url_encoded(k), url_encoded(v), 0x3d);
    lemma_url_decode_encode(k);
    lemma_url_decode_encode(v);
    assert(decoded_field(f) == Some((k, v)));
    if ps.len() == 1 {
        assert(form_encoded(ps.drop_last()) =~= Seq::<u8>::empty());
        assert(form_encoded(ps) =~= f);
        lemma_split_single(f, 0x26);
        assert(seq![f].drop_last() =~= Seq::<Seq<u8>>::empty());
        assert(seq![f].last() == f);
        assert(decoded_fields(Seq::<Seq<u8>>::empty()) == Some(Seq::<(Seq<u8>, Seq<u8>)>::empty()));
        assert(decoded_fields(seq![f]) == Some(Seq::<(Seq<u8>, Seq<u8>)>::empty().push((k, v))));
        assert(ps =~= Seq::<(Seq<u8>, Seq<u8>)>::empty().push((k, v)));
    } else {
        let a = form_encoded(ps.drop_last());
        assert(form_encoded(ps) == a + seq![0x26u8] + f);
        lemma_split_append(a, f, 0x26);
        lemma_form_decode_encode(ps.drop_last());
        let pieces = split_bytes(a, 0x26).push(f);
        assert(pieces.drop_last() =~= split_bytes(a, 0x26));
        assert(pieces.last() == f);
        assert(decoded_fields(pieces.drop_last()) == Some(ps.drop_last()));
        assert(decoded_fields(pieces) == Some(ps.drop_last().push((k, v))));
        assert(ps.drop_last().push((k, v)) =~= ps);
    }
}

pub proof fn lemma_form_encoded_prefix(ps: Seq<(Seq<u8>, Seq<u8>)>, i: int)
    requires
        0 <= i <= ps.len(),
    ensures
        form_encoded(ps.take(i)).len() <= form_encoded(ps).len(),
        form_encoded(ps).take(form_encoded(ps.take(i)).len() as int) == form_encoded(ps.take(i)),
    decreases ps.len() - i,
{
    if i == ps.len() {
        assert(ps.take(i) =~= ps);
        assert(form_encoded(ps).take(form_encoded(ps).len() as int) =~= form_encoded(ps));
    } else {
        let d = ps.drop_last();
        assert(d.take(i) =~= ps.take(i));
        lemma_form_encoded_prefix(d, i);
        assert(form_encoded(ps).take(form_encoded(ps.take(i)).len() as int) =~= form_encoded(
            ps.take(i),
        ));
    }
}

/// URL-encode `key=value` pairs into `dst`, separated by `&`.
///
/// Returns the number of bytes written.
pub fn form_body(dst: &mut [u8], params: &[(&str, &str)]) -> (r: Result<usize, Error>)
    ensures
        final(dst)@.len() == old(dst)@.len(),
        form_encoded(param_bytes(params@)).len() <= old(dst)@.len() ==> (r matches Ok(n) && n
            == form_encoded(param_bytes(params@)).len()) && written_at(
            old(dst)@,
            final(dst)@,
            0,
            form_encoded(param_bytes(params@)),
        ),
        form_encoded(param_bytes(params@)).len() > old(dst)@.len() ==> r == Err::<usize, Error>(
            Error::BufferTooSmall,
        ) && wrote_proper_prefix(old(dst)@, final(dst)@, 0, form_encoded(param_bytes(params@))),
{
    let ghost orig = dst@;
    let ghost pb = param_bytes(params@);
    let ghost full = form_encoded(pb);
    let amp = [0x26u8];
    let eq = [0x3du8];
    let mut len: usize = 0;
    let mut i: usize = 0;
    proof {
        assert(pb.take(0) =~= Seq::<(Seq<u8>, Seq<u8>)>::empty());
        assert(dst@ =~= orig.take(0) + full.take(0) + orig.skip(0));
    }
    while i < params.len()
        invariant
            orig == old(dst)@,
            dst@.len() == orig.len(),
            i <= params@.len(),
            pb == param_bytes(params@),
            pb.len() == params@.len(),
            full == form_encoded(pb),
            len <= orig.len(),
            len == form_encoded(pb.take(i as int)).len(),
            written_at(orig, dst@, 0, full.take(len as int)),
            amp@ == seq![0x26u8],
            eq@ == seq![0x3du8],
        decreases params@.len() - i,
    {
        let (key, value) = params[i];
        let kb = key.as_bytes();
        let vb = value.as_bytes();
        let ghost before = form_encoded(pb.take(i as int));
        let ghost sep = form_sep(i as int);
        let ghost after = form_encoded(pb.take(i + 1));
        proof {
            assert(pb.take(i + 1).drop_last() =~= pb.take(i as int));
            assert(pb[i as int] == (kb@, vb@));
            assert(after == before + sep + url_encoded(kb@) + seq![0x3du8] + url_encoded(vb@));
            lemma_form_encoded_prefix(pb, i + 1);
            assert(full.take(after.len() as int) == after);
        }
        if i > 0 {
            proof {
                assert(full.subrange(len as int, len + 1) =~= after.subrange(len as int, len + 1));
                assert(after.subrange(len as int, len + 1) =~= amp@);
            }
            len = append_copy(dst, len, amp.as_slice(), Ghost(orig), Ghost(full))?;
        }
        assert(len == before.len() + sep.len());
        let ghost ku = url_encoded(kb@);
        proof {
            assert(full.subrange(len as int, len + ku.len()) =~= after.subrange(len as int, len + ku.len()));
            assert(after.subrange(len as int, len + ku.len()) =~= ku);
        }
        len = append_url_encoded(dst, len, kb, Ghost(orig), Ghost(full))?;
        proof {
            assert(full.subrange(len as int, len + 1) =~= after.subrange(len as int, len + 1));
            assert(after.subrange(len as int, len + 1) =~= eq@);
        }
        len = append_copy(dst, len, eq.as_slice(), Ghost(orig), Ghost(full))?;
        let ghost vu = url_encoded(vb@);
        proof {
            assert(full.subrange(len as int, len + vu.len()) =~= after.subrange(len as int, len + vu.len()));
            assert(after.subrange(len as int, len + vu.len()) =~= vu);
        }
        len = append_url_encoded(dst, len, vb, Ghost(orig), Ghost(full))?;
        i = i + 1;
    }
    proof {
        assert(pb.take(i as int) =~= pb);
        assert(full.take(len as int) =~= full);
    }
    Ok(len)
}

// ── Scene script ─────────────────────────────────────────────────────

/// The scene script up to the scene name.
pub const SCENE_SCRIPT_HEAD: &'static str = r#"{"_enabled":true,"_run_on_ingest":true,"_meta":{"name":""#;

/// The scene script between the scene name and the notification text.
pub const SCENE_SCRIPT_MIDDLE: &'static str = r#"","image":"images/room_def/bedroom_img_def_m.jpg","integrations":false,"room":0,"roomn":"Global","position":0,"backgroundColor":""},"if":{"or":[{"and":[]}]},"do":[{"notify":"push_notification","_gui_type":"notification","msg":""#;

/// The scene script after the notification text.
pub const SCENE_SCRIPT_TAIL: &'static str = r#"","_gui_function":"push","msg_type":"push"}]}"#;

/// The push-notification scene script for a scene `name` and message `msg`
/// (both JSON-escaped).
pub open spec fn scene_script(name: Seq<u8>, msg: Seq<u8>) -> Seq<u8> {
    SCENE_SCRIPT_HEAD.spec_bytes() + json_escaped(name) + SCENE_SCRIPT_MIDDLE.spec_bytes()
        + json_escaped(msg) + SCENE_SCRIPT_TAIL.spec_bytes()
}

/// Every scene script holds the mandatory fields whatever its name and
/// message: it starts with the enabled, run-on-ingest and meta head, holds
/// the meta tail, the `if` block and the push-notification `do` entry right
/// after the escaped name, and ends with the notification's closing fields.
pub proof fn lemma_scene_script_fields(name: Seq<u8>, msg: Seq<u8>)
    ensures
        ({
            let s = scene_script(name, msg);
            let h = SCENE_SCRIPT_HEAD.spec_bytes();
            let m = SCENE_SCRIPT_MIDDLE.spec_bytes();
            let t = SCENE_SCRIPT_TAIL.spec_bytes();
            let at = (h.len() + json_escaped(name).len()) as int;
            &&& s.take(h.len() as int) == h
            &&& s.subrange(at, at + m.len()) == m
            &&& s.len() >= t.len()
            &&& s.skip(s.len() - t.len()) == t
        }),
{
    let s = scene_script(name, msg);
    let h = SCENE_SCRIPT_HEAD.spec_bytes();
    let m = SCENE_SCRIPT_MIDDLE.spec_bytes();
    let t = SCENE_SCRIPT_TAIL.spec_bytes();
    let n = json_escaped(name);
    let g = json_escaped(msg);
    let at = (h.len() + n.len()) as int;
    assert(s.take(h.len() as int) =~= h);
    assert(s.subrange(at, at + m.len()) =~= m);
    assert(s.skip(s.len() - t.len()) =~= t);
}

/// The name and the message stand in the scene script as the bodies of the
/// JSON string literals that [`SCENE_SCRIPT_HEAD`] and
/// [`SCENE_SCRIPT_MIDDLE`] open and [`SCENE_SCRIPT_MIDDLE`] and
/// [`SCENE_SCRIPT_TAIL`] close, and those literals read back as exactly the
/// name and the message, whatever bytes they hold.
pub proof fn lemma_scene_script_strings(name: Seq<u8>, msg: Seq<u8>)
    ensures
        ({
            let s = scene_script(name, msg);
            let h = SCENE_SCRIPT_HEAD.spec_bytes();
            let m = SCENE_SCRIPT_MIDDLE.spec_bytes();
            let n_end = (h.len() + json_escaped(name).len()) as int;
            let m_start = n_end + m.len();
            &&& json_string_value(s.subrange(h.len() as int, n_end)) == Some(name)
            &&& json_string_value(s.subrange(m_start, m_start + json_escaped(msg).len())) == Some(msg)
        }),
{
    let s = scene_script(name, msg);
    let h = SCENE_SCRIPT_HEAD.spec_bytes();
    let m = SCENE_SCRIPT_MIDDLE.spec_bytes();
    let n_end = (h.len() + json_escaped(name).len()) as int;
    let m_start = n_end + m.len();
    assert(s.subrange(h.len() as int, n_end) =~= json_escaped(name));
    assert(s.subrange(m_start, m_start + json_escaped(msg).len()) =~= json_escaped(msg));
    lemma_json_string_value_escaped(name);
    lemma_json_string_value_escaped(msg);
}

/// A scene script built from text is UTF-8 text.
pub proof fn lemma_scene_script_utf8(name: Seq<char>, msg: Seq<char>)
    ensures
        valid_utf8(scene_script(encode_utf8(name), encode_utf8(msg))),
{
    let head = SCENE_SCRIPT_HEAD.spec_bytes();
    let middle = SCENE_SCRIPT_MIDDLE.spec_bytes();
    let tail = SCENE_SCRIPT_TAIL.spec_bytes();
    let n = json_escaped(encode_utf8(name));
    let m = json_escaped(encode_utf8(msg));
    encode_utf8_valid_utf8(SCENE_SCRIPT_HEAD@);
    encode_utf8_valid_utf8(SCENE_SCRIPT_MIDDLE@);
    encode_utf8_valid_utf8(SCENE_SCRIPT_TAIL@);
    lemma_json_escaped_utf8(name);
    lemma_json_escaped_utf8(msg);
    valid_utf8_concat(head, n);
    valid_utf8_concat(head + n, middle);
    valid_utf8_concat(head + n + middle, m);
    valid_utf8_concat(head + n + middle + m, tail);
}

/// Build the mandatory `scene_script` JSON for a push-notification scene.
///
/// Writes the complete JSON into `dst` and returns the number of bytes
/// written. Both `name` and `msg` are JSON-escaped automatically.
pub fn notification_scene_script(dst: &mut [u8], name: &str, msg: &str) -> (r: Result<usize, Error>)
    ensures
        final(dst)@.len() == old(dst)@.len(),
        scene_script(name.spec_bytes(), msg.spec_bytes()).len() <= old(dst)@.len() ==> (r matches Ok(
            n,
        ) && n == scene_script(name.spec_bytes(), msg.spec_bytes()).len()) && written_at(
            old(dst)@,
            final(dst)@,
            0,
            scene_script(name.spec_bytes(), msg.spec_bytes()),
        ),
        scene_script(name.spec_bytes(), msg.spec_bytes()).len() > old(dst)@.len() ==> r == Err::<
            usize,
            Error,
        >(Error::BufferTooSmall) && wrote_proper_prefix(
            old(dst)@,
            final(dst)@,
            0,
            scene_script(name.spec_bytes(), msg.spec_bytes()),
        ),
{
    let ghost orig = dst@;
    let head = SCENE_SCRIPT_HEAD.as_bytes();
    let middle = SCENE_SCRIPT_MIDDLE.as_bytes();
    let tail = SCENE_SCRIPT_TAIL.as_bytes();
    let nb = name.as_bytes();
    let mb = msg.as_bytes();
    let ghost full = scene_script(nb@, mb@);
    let ghost p1 = head@;
    let ghost p2 = p1 + json_escaped(nb@);
    let ghost p3 = p2 + middle@;
    let ghost p4 = p3 + json_escaped(mb@);
    proof {
        assert(full == p4 + tail@);
        assert(dst@ =~= orig.take(0) + full.take(0) + orig.skip(0));
        assert(full.subrange(0, p1.len() as int) =~= head@);
    }
    let mut len: usize = 0;
    len = append_copy(dst, len, head, Ghost(orig), Ghost(full))?;
    proof {
        assert(full.subrange(p1.len() as int, p2.len() as int) =~= json_escaped(nb@));
    }
    len = append_json_escaped(dst, len, nb, Ghost(orig), Ghost(full))?;
    proof {
        assert(full.subrange(p2.len() as int, p3.len() as int) =~= middle@);
    }
    len = append_copy(dst, len, middle, Ghost(orig), Ghost(full))?;
    proof {
        assert(full.subrange(p3.len() as int, p4.len() as int) =~= json_escaped(mb@));
    }
    len = append_json_escaped(dst, len, mb, Ghost(orig), Ghost(full))?;
    proof {
        assert(full.subrange(p4.len() as int, full.len() as int) =~= tail@);
    }
    len = append_copy(dst, len, tail, Ghost(orig), Ghost(full))?;
    assert(full.take(len as int) =~= full);
    Ok(len)
}

// ── Client ───────────────────────────────────────────────────────────

/// `s` without its trailing `/` bytes.
pub open spec fn trim_trailing_slashes(s: Seq<u8>) -> Seq<u8>
    decreases s.len(),
{
    if s.len() > 0 && s.last() == 0x2f {
        trim_trailing_slashes(s.drop_last())
    } else {
        s
    }
}

/// The index one past the last non-`/` byte of `s`, with its spec facts.
pub(crate) fn trailing_slash_cut(s: &str) -> (k: usize)
    ensures
        k <= s.spec_bytes().len(),
        trim_trailing_slashes(s.spec_bytes()) == s.spec_bytes().take(k as int),
        is_char_boundary(s.spec_bytes(), k as int),
{
    let b = s.as_bytes();
    let mut k: usize = b.len();
    assert(b@.take(k as int) =~= b@);
    while k > 0 && b[k - 1] == 0x2f
        invariant
            k <= b@.len(),
            b@ == s.spec_bytes(),
            trim_trailing_slashes(b@) == trim_trailing_slashes(b@.take(k as int)),
            k < b@.len() ==> b@[k as int] == 0x2f,
        decreases k,
    {
        assert(b@.take(k as int).drop_last() =~= b@.take(k - 1));
        k = k - 1;
    }
    proof {
        encode_utf8_valid_utf8(s@);
        is_char_boundary_start_end_of_seq(b@);
        if k < b@.len() {
            is_char_boundary_iff_not_is_continuation_byte(b@, k as int);
        }
    }
    k
}

/// Async client state for the Shelly Cloud API: the caller's transport, the
/// server URL and the auth key. Callers supply a response buffer per call;
/// the client builds URLs and form bodies in caller-provided buffers.
pub struct CloudClient<'a, T> {
    http: T,
    server: &'a str,
    auth_key: &'a str,
}

/// The request URL: the server and an endpoint path, concatenated.
pub open spec fn cloud_url(server: &str, path: &str) -> Seq<u8> {
    server.spec_bytes() + path.spec_bytes()
}

/// The form body of requests that carry only the auth key.
pub open spec fn auth_form_fields(key: &str) -> Seq<(Seq<u8>, Seq<u8>)> {
    seq![("auth_key".spec_bytes(), key.spec_bytes())]
}

/// The form body of requests about one scene.
pub open spec fn scene_id_form_fields(key: &str, id: &str) -> Seq<(Seq<u8>, Seq<u8>)> {
    seq![("auth_key".spec_bytes(), key.spec_bytes()), ("id".spec_bytes(), id.spec_bytes())]
}

/// The form body of `scene/add`.
pub open spec fn scene_add_form_fields(key: &str, name: &str, script: Seq<u8>) -> Seq<(Seq<u8>, Seq<u8>)> {
    seq![
        ("auth_key".spec_bytes(), key.spec_bytes()),
        ("name".spec_bytes(), name.spec_bytes()),
        ("scene_script".spec_bytes(), script),
    ]
}

impl<'a, T> CloudClient<'a, T> {
    /// The server URL the client talks to.
    pub closed spec fn server_text(&self) -> &'a str {
        self.server
    }

    /// The auth key sent with every request.
    pub closed spec fn auth_key_text(&self) -> &'a str {
        self.auth_key
    }

    /// The caller's transport.
    pub closed spec fn transport(&self) -> T {
        self.http
    }

    /// Create a new cloud client.
    ///
    /// `server` is the full server URL including scheme, e.g.
    /// `"https://shelly-96-eu.shelly.cloud"`; trailing slashes are dropped.
    pub fn new(http: T, server: &'a str, auth_key: &'a str) -> (c: Self)
        ensures
            c.server_text().spec_bytes() == trim_trailing_slashes(server.spec_bytes()),
            c.auth_key_text() == auth_key,
            c.transport() == http,
    {
        let k = trailing_slash_cut(server);
        let (head, _) = server.split_at(k);
        CloudClient { http, server: head, auth_key }
    }

    /// The server URL, without trailing slashes.
    pub fn server(&self) -> (s: &'a str)
        ensures
            s == self.server_text(),
    {
        self.server
    }

    /// The auth key.
    pub fn auth_key(&self) -> (s: &'a str)
        ensures
            s == self.auth_key_text(),
    {
        self.auth_key
    }

    /// The caller's transport, for sending a request.
    pub fn http_mut(&mut self) -> (h: &mut T)
        ensures
            *h == old(self).transport(),
            final(self).transport() == *final(h),
            final(self).server_text() == old(self).server_text(),
            final(self).auth_key_text() == old(self).auth_key_text(),
    {
        &mut self.http
    }

    /// Build `server + path` into `buf`, returning it as text.
    pub fn build_url<'u>(&self, path: &str, buf: &'u mut [u8]) -> (r: Result<&'u str, Error>)
        ensures
            final(buf)@.len() == old(buf)@.len(),
            cloud_url(self.server_text(), path).len() <= old(buf)@.len() ==> (r matches Ok(s)
                && s.spec_bytes() == cloud_url(self.server_text(), path)) && written_at(
                old(buf)@,
                final(buf)@,
                0,
                cloud_url(self.server_text(), path),
            ),
            cloud_url(self.server_text(), path).len() > old(buf)@.len() ==> r == Err::<&'u str, Error>(
                Error::BufferTooSmall,
            ) && wrote_proper_prefix(old(buf)@, final(buf)@, 0, cloud_url(self.server_text(), path)),
    {
        let ghost orig = buf@;
        let sb = self.server.as_bytes();
        let pb = path.as_bytes();
        let ghost full = sb@ + pb@;
        proof {
            assert(buf@ =~= orig.take(0) + full.take(0) + orig.skip(0));
            assert(full.subrange(0, sb@.len() as int) =~= sb@);
            assert(full.subrange(sb@.len() as int, full.len() as int) =~= pb@);
        }
        let mut len: usize = 0;
        len = append_copy(buf, len, sb, Ghost(orig), Ghost(full))?;
        len = append_copy(buf, len, pb, Ghost(orig), Ghost(full))?;
        let filled: &'u [u8] = buf;
        let written = vstd::slice::slice_subrange(filled, 0, len);
        proof {
            assert(full.take(len as int) =~= full);
            assert(written@ =~= full);
            encode_utf8_valid_utf8(self.server@);
            encode_utf8_valid_utf8(path@);
            valid_utf8_concat(sb@, pb@);
        }
        match str_from_utf8(written) {
            Some(url) => Ok(url),
            None => Err(Error::Parse),
        }
    }

    /// The form body `auth_key=<key>` for `scene/list` and `device/all_status`.
    pub fn auth_form(&self, dst: &mut [u8]) -> (r: Result<usize, Error>)
        ensures
            final(dst)@.len() == old(dst)@.len(),
            form_encoded(auth_form_fields(self.auth_key_text())).len() <= old(dst)@.len() ==> (r matches Ok(n) && n
                == form_encoded(auth_form_fields(self.auth_key_text())).len()) && written_at(
                old(dst)@,
                final(dst)@,
                0,
                form_encoded(auth_form_fields(self.auth_key_text())),
            ),
            form_encoded(auth_form_fields(self.auth_key_text())).len() > old(dst)@.len() ==> r == Err::<usize, Error>(
                Error::BufferTooSmall,
            ) && wrote_proper_prefix(old(dst)@, final(dst)@, 0, form_encoded(auth_form_fields(self.auth_key_text()))),
    {
        let params = [("auth_key", self.auth_key)];
        let ps = params.as_slice();
        proof {
            assert(param_bytes(ps@) =~= auth_form_fields(self.auth_key_text()));
        }
        form_body(dst, ps)
    }

    /// The form body `auth_key=<key>&id=<id>` for `scene/delete` and
    /// `scene/manual_run`.
    pub fn scene_id_form(&self, id: &str, dst: &mut [u8]) -> (r: Result<usize, Error>)
        ensures
            final(dst)@.len() == old(dst)@.len(),
            form_encoded(scene_id_form_fields(self.auth_key_text(), id)).len() <= old(dst)@.len() ==> (r matches Ok(n) && n
                == form_encoded(scene_id_form_fields(self.auth_key_text(), id)).len()) && written_at(
                old(dst)@,
                final(dst)@,
                0,
                form_encoded(scene_id_form_fields(self.auth_key_text(), id)),
            ),
            form_encoded(scene_id_form_fields(self.auth_key_text(), id)).len() > old(dst)@.len() ==> r == Err::<usize, Error>(
                Error::BufferTooSmall,
            ) && wrote_proper_prefix(old(dst)@, final(dst)@, 0, form_encoded(scene_id_form_fields(self.auth_key_text(), id))),
    {
        let params = [("auth_key", self.auth_key), ("id", id)];
        let ps = params.as_slice();
        proof {
            assert(param_bytes(ps@) =~= scene_id_form_fields(self.auth_key_text(), id));
        }
        form_body(dst, ps)
    }

    /// The form body of `scene/add`: the auth key, the scene name, and the
    /// push-notification scene script built by [`notification_scene_script`]
    /// in a [`MAX_SCENE_SCRIPT_LEN`]-byte scratch buffer.
    pub fn scene_add_form(&self, name: &str, msg: &str, dst: &mut [u8]) -> (r: Result<usize, Error>)
        ensures
            final(dst)@.len() == old(dst)@.len(),
            scene_script(name.spec_bytes(), msg.spec_bytes()).len() > MAX_SCENE_SCRIPT_LEN ==> r
                == Err::<usize, Error>(Error::BufferTooSmall) && final(dst)@ == old(dst)@,
            ({
                let script = scene_script(name.spec_bytes(), msg.spec_bytes());
                let full = form_encoded(scene_add_form_fields(self.auth_key_text(), name, script));
                script.len() <= MAX_SCENE_SCRIPT_LEN ==> {
                    &&& full.len() <= old(dst)@.len() ==> (r matches Ok(n) && n == full.len())
                        && written_at(old(dst)@, final(dst)@, 0, full)
                    &&& full.len() > old(dst)@.len() ==> r == Err::<usize, Error>(
                        Error::BufferTooSmall,
                    ) && wrote_proper_prefix(old(dst)@, final(dst)@, 0, full)
                }
            }),
    {
        let mut script_buf = [0u8; MAX_SCENE_SCRIPT_LEN];
        let script_len = notification_scene_script(&mut script_buf, name, msg)?;
        let written = vstd::slice::slice_subrange(script_buf.as_slice(), 0, script_len);
        assert(written@ =~= scene_script(name.spec_bytes(), msg.spec_bytes()));
        proof {
            lemma_scene_script_utf8(name@, msg@);
        }
        let script = match str_from_utf8(written) {
            Some(s) => s,
            None => return Err(Error::Parse),
        };
        let params = [("auth_key", self.auth_key), ("name", name), ("scene_script", script)];
        let ps = params.as_slice();
        proof {
            let full_script = scene_script(name.spec_bytes(), msg.spec_bytes());
            assert(written@ =~= full_script);
            assert(param_bytes(ps@) =~= scene_add_form_fields(
                self.auth_key_text(),
                name,
                full_script,
            ));
        }
        form_body(dst, ps)
    }
}

/// A single scene entry from `scene/list`.
#[derive(Debug, Clone, Copy)]
pub struct SceneInfo<'a> {
    /// Scene ID.
    pub id: u32,
    /// Scene name.
    pub name: Option<&'a str>,
}

/// Data returned by `scene/add`.
#[derive(Debug, Clone, Copy)]
pub struct SceneAddResult {
    /// ID of the newly created scene.
    pub scene_id: u32,
}

/// Data returned by `scene/delete`.
#[derive(Debug, Clone, Copy)]
pub struct SceneDeleteResult {}

/// What a cloud reply envelope `{"isok": bool, "data": ...}` means:
/// `isok: false` is [`Error::CloudApi`], a missing `data` is
/// [`Error::Parse`], otherwise the data.
pub fn cloud_envelope<T>(isok: bool, data: Option<T>) -> (r: Result<T, Error>)
    ensures
        !isok ==> r == Err::<T, Error>(Error::CloudApi),
        isok && data is None ==> r == Err::<T, Error>(Error::Parse),
        isok && data is Some ==> r == Ok::<T, Error>(data->0),
{
    if !isok {
        return Err(Error::CloudApi);
    }
    match data {
        Some(d) => Ok(d),
        None => Err(Error::Parse),
    }
}

} // verus!
