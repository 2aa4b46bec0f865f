//! The command-line client's Shelly Cloud credentials: where they are kept,
//! the text of the credentials file, reading it back, and the `cloud` KVS
//! entry provisioned on a device.

use vstd::prelude::*;
use vstd::string::StringExecFns;
use vstd::utf8::*;
use crate::cloud::trim_trailing_slashes;
use crate::json_text::{escape_char, extract_from, json_escaped_text, json_key_value, key_boundary_before, key_needle, lemma_escaped_quotes, lemma_unescape_escape, occurs_at, push_json_escaped, string_end, json_extract_string};
use crate::text::{chars_to_string, decimal, lemma_encode_utf8_concat, push_decimal, str_chars, string_push, ws_skip};

verus! {

// ── Server URIs ────────────────────────────────────────────────────────

/// `s` without its trailing `/` characters.
pub open spec fn trim_end_slashes(s: Seq<char>) -> Seq<char>
    decreases s.len(),
{
    if s.len() > 0 && s.last() == '/' {
        trim_end_slashes(s.drop_last())
    } else {
        s
    }
}

/// The server URI with every trailing `/` removed.
pub fn normalize_server_uri(server: &str) -> (r: String)
    ensures
        r@ == trim_end_slashes(server@),
{
    let v = str_chars(server);
    let mut k = v.len();
    assert(v@.subrange(0, k as int) =~= v@);
    while k > 0 && v[k - 1] == '/'
        invariant
            k <= v@.len(),
            v@ == server@,
            trim_end_slashes(server@) == trim_end_slashes(v@.subrange(0, k as int)),
        decreases k,
    {
        assert(v@.subrange(0, k as int).drop_last() =~= v@.subrange(0, k - 1));
        k = k - 1;
    }
    chars_to_string(&v, 0, k)
}

proof fn lemma_last_byte_slash(c: char)
    ensures
        encode_scalar(c as u32).len() > 0,
        (encode_scalar(c as u32).last() == 0x2f) == (c == '/'),
{
    let u = c as u32;
    char_is_scalar(c);
    char_u32_cast(c, u);
    if has_width_1_encoding(u) {
        assert((u & 0x7F) as u8 == u as u8) by (bit_vector)
            requires
                u <= 0x7f,
        ;
    } else {
        assert(0x80 | (u & 0x3F) as u8 != 0x2f) by (bit_vector);
    }
}

/// The cloud client and the credentials file agree on the server URL:
/// dropping the trailing `/` bytes of the UTF-8 text, as the client does,
/// gives the text with its trailing `/` characters dropped, as
/// [`normalize_server_uri`] does.
pub proof fn lemma_trailing_slashes_agree(s: Seq<char>)
    ensures
        trim_trailing_slashes(encode_utf8(s)) == encode_utf8(trim_end_slashes(s)),
    decreases s.len(),
{
    if s.len() > 0 {
        let p = s.drop_last();
        let c = s.last();
        assert(s =~= p + seq![c]);
        lemma_encode_utf8_concat(p, seq![c]);
        assert(seq![c].drop_first() =~= Seq::<char>::empty());
        assert(encode_utf8(Seq::<char>::empty()) =~= Seq::<u8>::empty());
        assert(seq![c][0] == c);
        assert(encode_utf8(seq![c]) =~= encode_scalar(c as u32));
        lemma_last_byte_slash(c);
        let e = encode_utf8(s);
        assert(e == encode_utf8(p) + encode_scalar(c as u32));
        if c == '/' {
            assert(encode_scalar(c as u32) =~= seq![0x2fu8]);
            assert(e.drop_last() =~= encode_utf8(p));
            lemma_trailing_slashes_agree(p);
        } else {
            assert(e.last() == encode_scalar(c as u32).last());
        }
    }
}

// ── Config location ────────────────────────────────────────────────────

/// `base` joined with the relative path `seg`, as `PathBuf::push` joins
/// them: a `/` is added unless `base` is empty or already ends with one.
pub open spec fn path_join(base: Seq<char>, seg: Seq<char>) -> Seq<char> {
    if base.len() == 0 || base.last() == '/' {
        base + seg
    } else {
        base + seq!['/'] + seg
    }
}

/// The directory of the credentials files under the home directory `home`:
/// `home/.config/shelly`.
pub open spec fn config_dir_text(home: Seq<char>) -> Seq<char> {
    path_join(path_join(home, ".config"@), "shelly"@)
}

/// The message given when no home directory is known.
pub open spec fn no_home_message() -> Seq<char> {
    "HOME environment variable is not set; cannot determine config directory"@
}

fn push_path_segment(path: &mut String, seg: &str)
    ensures
        final(path)@ == path_join(old(path)@, seg@),
{
    let v = str_chars(path.as_str());
    if v.len() > 0 && v[v.len() - 1] != '/' {
        string_push(path, '/');
    }
    path.append(seg);
    assert(final(path)@ =~= path_join(old(path)@, seg@));
}

/// The credentials directory for the home directory `home`; `None` and the
/// empty string both mean that there is none.
fn config_dir(home: Option<&str>) -> (r: Result<String, String>)
    ensures
        match home {
            Some(h) if h@.len() > 0 => r matches Ok(p) && p@ == config_dir_text(h@),
            _ => r matches Err(e) && e@ == no_home_message(),
        },
{
    match home {
        Some(h) if !h.is_empty() => {
            let mut p = String::from_str(h);
            push_path_segment(&mut p, ".config");
            push_path_segment(&mut p, "shelly");
            Ok(p)
        },
        _ => Err(
            String::from_str("HOME environment variable is not set; cannot determine config directory"),
        ),
    }
}

/// The path of the credentials file for the full auth key:
/// `home/.config/shelly/cloud.json`.
pub fn config_path(home: Option<&str>) -> (r: Result<String, String>)
    ensures
        match home {
            Some(h) if h@.len() > 0 => r matches Ok(p) && p@ == path_join(
                config_dir_text(h@),
                "cloud.json"@,
            ),
            _ => r matches Err(e) && e@ == no_home_message(),
        },
{
    let mut p = config_dir(home)?;
    push_path_segment(&mut p, "cloud.json");
    Ok(p)
}

/// The path of the credentials file for the DIY OAuth token:
/// `home/.config/shelly/cloud-diy.json`.
pub fn diy_config_path(home: Option<&str>) -> (r: Result<String, String>)
    ensures
        match home {
            Some(h) if h@.len() > 0 => r matches Ok(p) && p@ == path_join(
                config_dir_text(h@),
                "cloud-diy.json"@,
            ),
            _ => r matches Err(e) && e@ == no_home_message(),
        },
{
    let mut p = config_dir(home)?;
    push_path_segment(&mut p, "cloud-diy.json");
    Ok(p)
}

// ── The credentials file ───────────────────────────────────────────────

/// The key under which the file keeps the server URI.
pub open spec fn server_uri_key() -> Seq<char> {
    seq!['s', 'e', 'r', 'v', 'e', 'r', '_', 'u', 'r', 'i']
}

/// The key under which the file keeps the auth key.
pub open spec fn auth_key_key() -> Seq<char> {
    seq!['a', 'u', 't', 'h', '_', 'k', 'e', 'y']
}

pub open spec fn config_head() -> Seq<char> {
    seq!['{', '\n', ' ', ' ', '"'] + server_uri_key() + seq!['"', ':', ' ', '"']
}

pub open spec fn config_middle() -> Seq<char> {
    seq!['"', ',', '\n', ' ', ' ', '"'] + auth_key_key() + seq!['"', ':', ' ', '"']
}

pub open spec fn config_tail() -> Seq<char> {
    seq!['"', '\n', '}', '\n']
}

/// The text of the credentials file:
/// `{\n  "server_uri": "<server>",\n  "auth_key": "<key>"\n}\n`, both values
/// JSON-escaped.
pub open spec fn config_text(server: Seq<char>, key: Seq<char>) -> Seq<char> {
    config_head() + json_escaped_text(server) + config_middle() + json_escaped_text(key)
        + config_tail()
}

/// The text of the credentials file for `server_uri` and `auth_key`.
pub fn config_json(server_uri: &str, auth_key: &str) -> (r: String)
    ensures
        r@ == config_text(server_uri@, auth_key@),
{
    let head = "{\n  \"server_uri\": \"";
    let middle = "\",\n  \"auth_key\": \"";
    let tail = "\"\n}\n";
    proof {
        reveal_strlit("{\n  \"server_uri\": \"");
        reveal_strlit("\",\n  \"auth_key\": \"");
        reveal_strlit("\"\n}\n");
        assert(head@ =~= config_head());
        assert(middle@ =~= config_middle());
        assert(tail@ =~= config_tail());
    }
    let mut out = String::from_str(head);
    push_json_escaped(&mut out, server_uri);
    out.append(middle);
    push_json_escaped(&mut out, auth_key);
    out.append(tail);
    out
}

/// Credentials read back from the file.
pub struct CloudConfig {
    pub server: String,
    pub auth_key: String,
}

/// The message for a file without a server URI.
pub open spec fn missing_server_message() -> Seq<char> {
    "missing server_uri in config"@
}

/// The message for a file without an auth key.
pub open spec fn missing_key_message() -> Seq<char> {
    "missing auth_key in config"@
}

/// Reads the credentials out of the file's text: the `server_uri` string,
/// without trailing slashes, and the `auth_key` string.
pub fn parse_config(data: &str) -> (r: Result<CloudConfig, String>)
    ensures
        match (json_key_value(data@, server_uri_key()), json_key_value(data@, auth_key_key())) {
            (Some(s), Some(k)) => r matches Ok(c) && c.server@ == trim_end_slashes(s) && c.auth_key@
                == k,
            (None, _) => r matches Err(e) && e@ == missing_server_message(),
            (Some(_), None) => r matches Err(e) && e@ == missing_key_message(),
        },
{
    let server_name = "server_uri";
    let key_name = "auth_key";
    proof {
        reveal_strlit("server_uri");
        reveal_strlit("auth_key");
        assert(server_name@ =~= server_uri_key());
        assert(key_name@ =~= auth_key_key());
    }
    let server = match json_extract_string(data, server_name) {
        Some(s) => s,
        None => {
            return Err(String::from_str("missing server_uri in config"));
        },
    };
    let server = normalize_server_uri(server.as_str());
    let auth_key = match json_extract_string(data, key_name) {
        Some(k) => k,
        None => {
            return Err(String::from_str("missing auth_key in config"));
        },
    };
    Ok(CloudConfig { server, auth_key })
}

// ── Reading the file back ──────────────────────────────────────────────

proof fn lemma_not_occurs(s: Seq<char>, i: int, n: Seq<char>, j: int)
    requires
        0 <= j < n.len(),
        0 <= i,
        i + j < s.len(),
        s[i + j] != n[j],
    ensures
        !occurs_at(s, i, n),
{
    if occurs_at(s, i, n) {
        assert(s.subrange(i, i + n.len())[j] == s[i + j]);
    }
}

/// Occurrences of `n` in `[from, p)` that are all skipped leave the lookup
/// where it would be when started at `p`.
proof fn lemma_extract_skip(s: Seq<char>, n: Seq<char>, from: nat, p: nat)
    requires
        from <= p,
        n.len() > 0,
        p + n.len() <= s.len(),
        forall|i: int|
            from <= i < p && #[trigger] occurs_at(s, i, n) ==> i + n.len() <= p
                && !key_boundary_before(s, i),
    ensures
        extract_from(s, n, from) == extract_from(s, n, p),
    decreases p - from,
{
    if from < p {
        if !occurs_at(s, from as int, n) {
            lemma_extract_skip(s, n, from + 1, p);
        } else {
            lemma_extract_skip(s, n, from + n.len(), p);
        }
    }
}

/// A string body written as escaped text and closed by `"` ends at that
/// quote.
proof fn lemma_string_end_escaped(x: Seq<char>, s: Seq<char>, p: nat)
    requires
        p as int + json_escaped_text(x).len() < s.len(),
        s.subrange(p as int, p as int + json_escaped_text(x).len()) == json_escaped_text(x),
        s[p as int + json_escaped_text(x).len()] == '"',
    ensures
        string_end(s, p) == Some((p + json_escaped_text(x).len()) as nat),
    decreases x.len(),
{
    let ex = json_escaped_text(x);
    if x.len() > 0 {
        let e = escape_char(x[0]);
        let rest = json_escaped_text(x.drop_first());
        assert(ex == e + rest);
        assert(s[p as int] == ex[0]);
        if e.len() == 2 {
            assert(s.subrange(p as int + 2, p as int + 2 + rest.len()) =~= rest) by {
                assert forall|k: int| 0 <= k < rest.len() implies s.subrange(
                    p as int + 2,
                    p as int + 2 + rest.len(),
                )[k] == rest[k] by {
                    assert(s.subrange(p as int, p as int + ex.len())[k + 2] == ex[k + 2]);
                }
            }
            lemma_string_end_escaped(x.drop_first(), s, p + 2);
        } else {
            assert(s.subrange(p as int + 1, p as int + 1 + rest.len()) =~= rest) by {
                assert forall|k: int| 0 <= k < rest.len() implies s.subrange(
                    p as int + 1,
                    p as int + 1 + rest.len(),
                )[k] == rest[k] by {
                    assert(s.subrange(p as int, p as int + ex.len())[k + 1] == ex[k + 1]);
                }
            }
            lemma_string_end_escaped(x.drop_first(), s, p + 1);
        }
    }
}

/// Where the parts of the credentials file sit in its text.
proof fn lemma_config_layout(server: Seq<char>, key: Seq<char>)
    ensures
        ({
            let c = config_text(server, key);
            let l1 = json_escaped_text(server).len() as int;
            let l2 = json_escaped_text(key).len() as int;
            &&& config_head().len() == 19
            &&& config_middle().len() == 18
            &&& c.len() == 41 + l1 + l2
            &&& forall|i: int| 0 <= i < 19 ==> #[trigger] c[i] == config_head()[i]
            &&& forall|i: int| 0 <= i < l1 ==> #[trigger] c[19 + i] == json_escaped_text(server)[i]
            &&& forall|i: int| 0 <= i < 18 ==> #[trigger] c[19 + l1 + i] == config_middle()[i]
            &&& forall|i: int| 0 <= i < l2 ==> #[trigger] c[37 + l1 + i] == json_escaped_text(key)[i]
            &&& forall|i: int| 0 <= i < 4 ==> #[trigger] c[37 + l1 + l2 + i] == config_tail()[i]
        }),
{
    let e1 = json_escaped_text(server);
    let e2 = json_escaped_text(key);
    let c = config_text(server, key);
    let l1 = e1.len() as int;
    let l2 = e2.len() as int;
    assert(config_head().len() == 19);
    assert(config_middle().len() == 18);
    assert forall|i: int| 0 <= i < 19 implies #[trigger] c[i] == config_head()[i] by {}
    assert forall|i: int| 0 <= i < l1 implies #[trigger] c[19 + i] == e1[i] by {}
    assert forall|i: int| 0 <= i < 18 implies #[trigger] c[19 + l1 + i] == config_middle()[i] by {}
    assert forall|i: int| 0 <= i < l2 implies #[trigger] c[37 + l1 + i] == e2[i] by {}
    assert forall|i: int| 0 <= i < 4 implies #[trigger] c[37 + l1 + l2 + i] == config_tail()[i] by {}
}

/// The lookup of `server_uri` in the credentials file gives the server URI.
proof fn lemma_config_server(server: Seq<char>, key: Seq<char>)
    ensures
        json_key_value(config_text(server, key), server_uri_key()) == Some(server),
{
    lemma_config_layout(server, key);
    let e1 = json_escaped_text(server);
    let h = config_head();
    let c = config_text(server, key);
    let l1 = e1.len() as int;
    let n1 = key_needle(server_uri_key());
    assert(n1.len() == 12);
    assert(n1[0] == '"');
    assert(c[0] == h[0]);
    assert(c[1] == h[1]);
    assert(c[2] == h[2]);
    assert(c[3] == h[3]);
    lemma_not_occurs(c, 0, n1, 0);
    lemma_not_occurs(c, 1, n1, 0);
    lemma_not_occurs(c, 2, n1, 0);
    lemma_not_occurs(c, 3, n1, 0);
    assert(c.subrange(4, 16) =~= n1) by {
        assert forall|k: int| 0 <= k < 12 implies c.subrange(4, 16)[k] == n1[k] by {
            assert(c[4 + k] == h[4 + k]);
        }
    }
    assert(occurs_at(c, 4, n1));
    assert(key_boundary_before(c, 1));
    assert(key_boundary_before(c, 2));
    assert(key_boundary_before(c, 3));
    assert(key_boundary_before(c, 4));
    assert(c[16] == h[16]);
    assert(c[17] == h[17]);
    assert(c[18] == h[18]);
    assert(ws_skip(c, 16) == 16);
    assert(ws_skip(c, 18) == 18);
    assert(ws_skip(c, 17) == 18);
    assert(c.subrange(19, 19 + l1) =~= e1) by {
        assert forall|k: int| 0 <= k < l1 implies c.subrange(19, 19 + l1)[k] == e1[k] by {
            assert(c[19 + k] == e1[k]);
        }
    }
    assert(c[19 + l1 + 0] == config_middle()[0]);
    lemma_string_end_escaped(server, c, 19);
    lemma_unescape_escape(server);
    assert(extract_from(c, n1, 4) == Some(server));
    assert(extract_from(c, n1, 3) == Some(server));
    assert(extract_from(c, n1, 2) == Some(server));
    assert(extract_from(c, n1, 1) == Some(server));
    assert(extract_from(c, n1, 0) == Some(server));
}

/// Before the `auth_key` key, every occurrence of `"auth_key"` in the
/// credentials file is skipped by the lookup.
proof fn lemma_config_key_skips(server: Seq<char>, key: Seq<char>)
    ensures
        ({
            let c = config_text(server, key);
            let n2 = key_needle(auth_key_key());
            let p = 24 + json_escaped_text(server).len();
            forall|i: int|
                0 <= i < p && #[trigger] occurs_at(c, i, n2) ==> i + n2.len() <= p
                    && !key_boundary_before(c, i)
        }),
{
    lemma_config_layout(server, key);
    let e1 = json_escaped_text(server);
    let h = config_head();
    let m = config_middle();
    let c = config_text(server, key);
    let l1 = e1.len() as int;
    let n2 = key_needle(auth_key_key());
    let p = 24 + l1;
    assert(n2.len() == 10);
    assert forall|i: int| 0 <= i < p && #[trigger] occurs_at(c, i, n2) implies i + n2.len() <= p
        && !key_boundary_before(c, i) by {
        assert(c.subrange(i, i + 10)[0] == c[i]);
        assert(c.subrange(i, i + 10)[1] == c[i + 1]);
        assert(c[i] == '"');
        assert(c[i + 1] == 'a');
        if i < 18 {
            assert(c[i + 1] == h[i + 1]);
        } else if i == 18 {
            if l1 < 8 {
                assert(c.subrange(i, i + 10)[1 + l1] == c[19 + l1]);
                assert(c[19 + l1 + 0] == m[0]);
            }
            assert(c[17] == h[17]);
            assert(c[16] == h[16]);
            assert(key_boundary_before(c, 17) == (c[16] == '{' || c[16] == ','));
        } else if i < 19 + l1 {
            lemma_escaped_quotes(server, i - 19);
            assert(c[19 + (i - 19)] == e1[i - 19]);
            assert(c[19 + (i - 20)] == e1[i - 20]);
            if i + 10 > p {
                assert(c.subrange(i, i + 10)[20 + l1 - i] == c[20 + l1]);
                assert(c[19 + l1 + 1] == m[1]);
            }
        } else {
            assert(c[19 + l1 + (i - 19 - l1)] == m[i - 19 - l1]);
            assert(c[19 + l1 + (i + 1 - 19 - l1)] == m[i + 1 - 19 - l1]);
        }
    }
}

/// The lookup of `auth_key` in the credentials file gives the auth key.
proof fn lemma_config_key(server: Seq<char>, key: Seq<char>)
    ensures
        json_key_value(config_text(server, key), auth_key_key()) == Some(key),
{
    lemma_config_layout(server, key);
    lemma_config_key_skips(server, key);
    let e1 = json_escaped_text(server);
    let e2 = json_escaped_text(key);
    let m = config_middle();
    let t = config_tail();
    let c = config_text(server, key);
    let l1 = e1.len() as int;
    let l2 = e2.len() as int;
    let n2 = key_needle(auth_key_key());
    let p = (24 + l1) as nat;
    assert(n2.len() == 10);
    lemma_extract_skip(c, n2, 0, p);
    assert(c.subrange(p as int, p as int + 10) =~= n2) by {
        assert forall|k: int| 0 <= k < 10 implies c.subrange(p as int, p as int + 10)[k] == n2[k] by {
            assert(c[19 + l1 + (5 + k)] == m[5 + k]);
        }
    }
    assert(c[19 + l1 + 4] == m[4]);
    assert(c[19 + l1 + 3] == m[3]);
    assert(c[19 + l1 + 2] == m[2]);
    assert(c[19 + l1 + 1] == m[1]);
    assert(key_boundary_before(c, p - 3));
    assert(key_boundary_before(c, p - 2));
    assert(key_boundary_before(c, p - 1));
    assert(key_boundary_before(c, p as int));
    assert(c[19 + l1 + 15] == m[15]);
    assert(c[19 + l1 + 16] == m[16]);
    assert(c[19 + l1 + 17] == m[17]);
    assert(ws_skip(c, p + 10) == p + 10);
    assert(ws_skip(c, p + 12) == p + 12);
    assert(ws_skip(c, p + 11) == p + 12);
    assert(c.subrange(37 + l1, 37 + l1 + l2) =~= e2) by {
        assert forall|k: int| 0 <= k < l2 implies c.subrange(37 + l1, 37 + l1 + l2)[k] == e2[k] by {
            assert(c[37 + l1 + k] == e2[k]);
        }
    }
    assert(c[37 + l1 + l2 + 0] == t[0]);
    lemma_string_end_escaped(key, c, (37 + l1) as nat);
    lemma_unescape_escape(key);
    assert(extract_from(c, n2, p) == Some(key));
}

/// The credentials file reads back as what was written: the lookup of
/// `server_uri` gives the server URI and the lookup of `auth_key` gives the
/// auth key, whatever characters either holds.
pub proof fn lemma_config_round_trip(server: Seq<char>, key: Seq<char>)
    ensures
        json_key_value(config_text(server, key), server_uri_key()) == Some(server),
        json_key_value(config_text(server, key), auth_key_key()) == Some(key),
{
    lemma_config_server(server, key);
    lemma_config_key(server, key);
}

// ── The device's `cloud` KVS entry ─────────────────────────────────────

/// The JSON object that tells a device its cloud server, auth key and the
/// scene IDs for washer start and done, dryer start and done.
pub open spec fn kvs_inner_text(server: Seq<char>, key: Seq<char>, ids: Seq<u64>) -> Seq<char> {
    "{\"u\":\""@ + json_escaped_text(server) + "\",\"k\":\""@ + json_escaped_text(key)
        + "\",\"ws\":"@ + decimal(ids[0] as nat) + ",\"wd\":"@ + decimal(ids[1] as nat)
        + ",\"ds\":"@ + decimal(ids[2] as nat) + ",\"dd\":"@ + decimal(ids[3] as nat) + "}"@
}

/// The `KVS.Set` body: the inner object, as a string, under the key `cloud`.
pub open spec fn kvs_body_text(server: Seq<char>, key: Seq<char>, ids: Seq<u64>) -> Seq<char> {
    "{\"key\":\"cloud\",\"value\":\""@ + json_escaped_text(kvs_inner_text(server, key, ids))
        + "\"}"@
}

/// Builds the JSON body for `KVS.Set` that provisions the `cloud` key on a
/// device. The value is a JSON object serialized as a JSON string (double
/// encoding): the string fields are escaped once inside the inner object,
/// and the inner object is escaped again as the outer `value`.
pub fn build_kvs_body(server: &str, key: &str, ids: &[u64; 4]) -> (r: String)
    ensures
        r@ == kvs_body_text(server@, key@, ids@),
{
    let mut inner = String::from_str("{\"u\":\"");
    push_json_escaped(&mut inner, server);
    inner.append("\",\"k\":\"");
    push_json_escaped(&mut inner, key);
    inner.append("\",\"ws\":");
    push_decimal(&mut inner, ids[0]);
    inner.append(",\"wd\":");
    push_decimal(&mut inner, ids[1]);
    inner.append(",\"ds\":");
    push_decimal(&mut inner, ids[2]);
    inner.append(",\"dd\":");
    push_decimal(&mut inner, ids[3]);
    inner.append("}");
    let mut body = String::from_str("{\"key\":\"cloud\",\"value\":\"");
    push_json_escaped(&mut body, inner.as_str());
    body.append("\"}");
    assert(inner@ =~= kvs_inner_text(server@, key@, ids@));
    assert(body@ =~= kvs_body_text(server@, key@, ids@));
    body
}

/// The literal pieces of the `KVS.Set` body, character by character.
proof fn lemma_kvs_literals()
    ensures
        "{\"key\":\"cloud\",\"value\":\""@ == seq![
            '{', '"', 'k', 'e', 'y', '"', ':', '"', 'c', 'l', 'o', 'u', 'd', '"', ',', '"', 'v',
            'a', 'l', 'u', 'e', '"', ':', '"',
        ],
        "\"}"@ == seq!['"', '}'],
        "{\"u\":\""@ == seq!['{', '"', 'u', '"', ':', '"'],
        "\",\"k\":\""@ == seq!['"', ',', '"', 'k', '"', ':', '"'],
        "\",\"ws\":"@ == seq!['"', ',', '"', 'w', 's', '"', ':'],
{
    reveal_strlit("{\"key\":\"cloud\",\"value\":\"");
    reveal_strlit("\"}");
    reveal_strlit("{\"u\":\"");
    reveal_strlit("\",\"k\":\"");
    reveal_strlit("\",\"ws\":");
    assert("{\"key\":\"cloud\",\"value\":\""@ =~= seq![
        '{', '"', 'k', 'e', 'y', '"', ':', '"', 'c', 'l', 'o', 'u', 'd', '"', ',', '"', 'v', 'a',
        'l', 'u', 'e', '"', ':', '"',
    ]);
    assert("\"}"@ =~= seq!['"', '}']);
    assert("{\"u\":\""@ =~= seq!['{', '"', 'u', '"', ':', '"']);
    assert("\",\"k\":\""@ =~= seq!['"', ',', '"', 'k', '"', ':', '"']);
    assert("\",\"ws\":"@ =~= seq!['"', ',', '"', 'w', 's', '"', ':']);
}

/// The key `value` of the outer `KVS.Set` object.
pub open spec fn value_key() -> Seq<char> {
    seq!['v', 'a', 'l', 'u', 'e']
}

/// The lookup of `value` in the `KVS.Set` body gives the inner object.
proof fn lemma_kvs_outer(inner: Seq<char>)
    ensures
        json_key_value(
            "{\"key\":\"cloud\",\"value\":\""@ + json_escaped_text(inner) + "\"}"@,
            value_key(),
        ) == Some(inner),
{
    lemma_kvs_literals();
    let o1 = "{\"key\":\"cloud\",\"value\":\""@;
    let e = json_escaped_text(inner);
    let o2 = "\"}"@;
    let c = o1 + e + o2;
    let l = e.len() as int;
    let n = key_needle(value_key());
    assert(n.len() == 7);
    assert(n[1] == 'v');
    assert forall|i: int| 0 <= i < 24 implies #[trigger] c[i] == o1[i] by {}
    assert forall|i: int| 0 <= i < l implies #[trigger] c[24 + i] == e[i] by {}
    assert forall|i: int| 0 <= i < 2 implies #[trigger] c[24 + l + i] == o2[i] by {}
    assert forall|i: int| 0 <= i < 15 && #[trigger] occurs_at(c, i, n) implies i + n.len() <= 15
        && !key_boundary_before(c, i) by {
        assert(c[i + 1] == o1[i + 1]);
        lemma_not_occurs(c, i, n, 1);
    }
    lemma_extract_skip(c, n, 0, 15);
    assert(c.subrange(15, 22) =~= n) by {
        assert forall|k: int| 0 <= k < 7 implies c.subrange(15, 22)[k] == n[k] by {
            assert(c[15 + k] == o1[15 + k]);
        }
    }
    assert(c[14] == o1[14]);
    assert(key_boundary_before(c, 15));
    assert(c[22] == o1[22]);
    assert(c[23] == o1[23]);
    assert(ws_skip(c, 22) == 22);
    assert(ws_skip(c, 23) == 23);
    assert(c.subrange(24, 24 + l) =~= e) by {
        assert forall|k: int| 0 <= k < l implies c.subrange(24, 24 + l)[k] == e[k] by {
            assert(c[24 + k] == e[k]);
        }
    }
    assert(c[24 + l + 0] == o2[0]);
    lemma_string_end_escaped(inner, c, 24);
    lemma_unescape_escape(inner);
    assert(extract_from(c, n, 15) == Some(inner));
}

/// In text that starts `{"u":"<server>","k":"<key>","ws":`, the lookup of
/// `u` gives the server URI and the lookup of `k` the auth key.
proof fn lemma_kvs_inner(server: Seq<char>, key: Seq<char>, rest: Seq<char>)
    ensures
        ({
            let a = "{\"u\":\""@ + json_escaped_text(server) + "\",\"k\":\""@ + json_escaped_text(
                key,
            ) + "\",\"ws\":"@;
            &&& json_key_value(a + rest, seq!['u']) == Some(server)
            &&& json_key_value(a + rest, seq!['k']) == Some(key)
        }),
{
    lemma_kvs_literals();
    let p1 = "{\"u\":\""@;
    let e1 = json_escaped_text(server);
    let p2 = "\",\"k\":\""@;
    let e2 = json_escaped_text(key);
    let p3 = "\",\"ws\":"@;
    let a = p1 + e1 + p2 + e2 + p3;
    let c = a + rest;
    let l1 = e1.len() as int;
    let l2 = e2.len() as int;
    assert forall|i: int| 0 <= i < 6 implies #[trigger] c[i] == p1[i] by {}
    assert forall|i: int| 0 <= i < l1 implies #[trigger] c[6 + i] == e1[i] by {}
    assert forall|i: int| 0 <= i < 7 implies #[trigger] c[6 + l1 + i] == p2[i] by {}
    assert forall|i: int| 0 <= i < l2 implies #[trigger] c[13 + l1 + i] == e2[i] by {}
    assert forall|i: int| 0 <= i < 7 implies #[trigger] c[13 + l1 + l2 + i] == p3[i] by {}

    // `u`: the key right after the opening brace.
    let nu = key_needle(seq!['u']);
    assert(nu.len() == 3);
    lemma_not_occurs(c, 0, nu, 0);
    assert(c.subrange(1, 4) =~= nu) by {
        assert forall|k: int| 0 <= k < 3 implies c.subrange(1, 4)[k] == nu[k] by {
            assert(c[1 + k] == p1[1 + k]);
        }
    }
    assert(key_boundary_before(c, 1));
    assert(c[4] == p1[4]);
    assert(c[5] == p1[5]);
    assert(ws_skip(c, 4) == 4);
    assert(ws_skip(c, 5) == 5);
    assert(c.subrange(6, 6 + l1) =~= e1) by {
        assert forall|k: int| 0 <= k < l1 implies c.subrange(6, 6 + l1)[k] == e1[k] by {
            assert(c[6 + k] == e1[k]);
        }
    }
    assert(c[6 + l1 + 0] == p2[0]);
    lemma_string_end_escaped(server, c, 6);
    lemma_unescape_escape(server);
    assert(extract_from(c, nu, 1) == Some(server));
    assert(extract_from(c, nu, 0) == Some(server));

    // `k`: earlier occurrences of `"k"` sit inside or at the server's value.
    let nk = key_needle(seq!['k']);
    let p = (8 + l1) as nat;
    assert(nk.len() == 3);
    assert forall|i: int| 0 <= i < p && #[trigger] occurs_at(c, i, nk) implies i + nk.len() <= p
        && !key_boundary_before(c, i) by {
        assert(c.subrange(i, i + 3)[0] == c[i]);
        assert(c.subrange(i, i + 3)[1] == c[i + 1]);
        assert(c.subrange(i, i + 3)[2] == c[i + 2]);
        if i < 5 {
            assert(c[i + 1] == p1[i + 1]);
        } else if i == 5 {
            assert(c[4] == p1[4]);
            if l1 < 2 {
                if l1 == 0 {
                    assert(c[6 + l1 + 0] == p2[0]);
                } else {
                    assert(c[6 + l1 + 0] == p2[0]);
                    assert(c[6 + l1 + 1] == p2[1]);
                }
            }
        } else if i < 6 + l1 {
            lemma_escaped_quotes(server, i - 6);
            assert(c[6 + (i - 6)] == e1[i - 6]);
            assert(c[6 + (i - 7)] == e1[i - 7]);
            if i + 3 > p {
                assert(c[6 + l1 + 1] == p2[1]);
            }
        } else {
            assert(c[6 + l1 + (i - 6 - l1)] == p2[i - 6 - l1]);
            assert(c[6 + l1 + (i + 1 - 6 - l1)] == p2[i + 1 - 6 - l1]);
        }
    }
    lemma_extract_skip(c, nk, 0, p);
    assert(c.subrange(p as int, p as int + 3) =~= nk) by {
        assert forall|k: int| 0 <= k < 3 implies c.subrange(p as int, p as int + 3)[k] == nk[k] by {
            assert(c[6 + l1 + (2 + k)] == p2[2 + k]);
        }
    }
    assert(c[6 + l1 + 1] == p2[1]);
    assert(key_boundary_before(c, p as int));
    assert(c[6 + l1 + 5] == p2[5]);
    assert(c[6 + l1 + 6] == p2[6]);
    assert(ws_skip(c, p + 3) == p + 3);
    assert(ws_skip(c, p + 4) == p + 4);
    assert(c.subrange(13 + l1, 13 + l1 + l2) =~= e2) by {
        assert forall|k: int| 0 <= k < l2 implies c.subrange(13 + l1, 13 + l1 + l2)[k] == e2[k] by {
            assert(c[13 + l1 + k] == e2[k]);
        }
    }
    assert(c[13 + l1 + l2 + 0] == p3[0]);
    lemma_string_end_escaped(key, c, (13 + l1) as nat);
    lemma_unescape_escape(key);
    assert(extract_from(c, nk, p) == Some(key));
}

/// What a device reads out of the `cloud` KVS entry: the `value` of the
/// `KVS.Set` body is the inner object's text, and in it `u` is the server
/// URI and `k` the auth key, whatever characters they hold.
pub proof fn lemma_kvs_body_round_trip(server: Seq<char>, key: Seq<char>, ids: Seq<u64>)
    ensures
        json_key_value(kvs_body_text(server, key, ids), value_key()) == Some(
            kvs_inner_text(server, key, ids),
        ),
        json_key_value(kvs_inner_text(server, key, ids), seq!['u']) == Some(server),
        json_key_value(kvs_inner_text(server, key, ids), seq!['k']) == Some(key),
{
    lemma_kvs_outer(kvs_inner_text(server, key, ids));
    let a = "{\"u\":\""@ + json_escaped_text(server) + "\",\"k\":\""@ + json_escaped_text(key)
        + "\",\"ws\":"@;
    let rest = decimal(ids[0] as nat) + ",\"wd\":"@ + decimal(ids[1] as nat) + ",\"ds\":"@
        + decimal(ids[2] as nat) + ",\"dd\":"@ + decimal(ids[3] as nat) + "}"@;
    assert(kvs_inner_text(server, key, ids) =~= a + rest);
    lemma_kvs_inner(server, key, rest);
}

} // verus!
