//! JSON string escaping, and a small lookup of a string-valued key in JSON
//! text, for the cloud credentials file and for JWT payloads whose shape is
//! not pinned down by a full parser.

use vstd::prelude::*;
use vstd::string::StringSliceAdditionalSpecFns;
use vstd::utf8::*;
use crate::text::{lemma_encode_utf8_concat, skip_whitespace, str_chars, string_push, ws_skip};
use crate::login::hex_nibble;
use crate::util::{hex_upper, json_escape_byte, json_escaped, lemma_json_escaped_concat};

verus! {

// ── Escaping ───────────────────────────────────────────────────────────

/// The escape of one character in a JSON string literal: `\`, `"`, newline,
/// carriage return and tab get a backslash escape, every other character is
/// kept.
pub open spec fn escape_char(c: char) -> Seq<char> {
    if c == '\\' {
        seq!['\\', '\\']
    } else if c == '"' {
        seq!['\\', '"']
    } else if c == '\n' {
        seq!['\\', 'n']
    } else if c == '\r' {
        seq!['\\', 'r']
    } else if c == '\t' {
        seq!['\\', 't']
    } else {
        seq![c]
    }
}

/// JSON string escaping of a character sequence.
pub open spec fn json_escaped_text(s: Seq<char>) -> Seq<char>
    decreases s.len(),
{
    if s.len() == 0 {
        Seq::empty()
    } else {
        escape_char(s[0]) + json_escaped_text(s.drop_first())
    }
}

/// The character that a backslash escape `\c` stands for; an unknown escape
/// is kept as the backslash and `c`.
pub open spec fn unescape_pair(c: char) -> Seq<char> {
    if c == '\\' {
        seq!['\\']
    } else if c == '"' {
        seq!['"']
    } else if c == 'n' {
        seq!['\n']
    } else if c == 'r' {
        seq!['\r']
    } else if c == 't' {
        seq!['\t']
    } else if c == '/' {
        seq!['/']
    } else {
        seq!['\\', c]
    }
}

/// Undoing JSON string escapes, left to right; a lone trailing backslash is
/// kept.
pub open spec fn json_unescaped(s: Seq<char>) -> Seq<char>
    decreases s.len(),
{
    if s.len() == 0 {
        Seq::empty()
    } else if s[0] == '\\' {
        if s.len() == 1 {
            seq!['\\']
        } else {
            unescape_pair(s[1]) + json_unescaped(s.skip(2))
        }
    } else {
        seq![s[0]] + json_unescaped(s.drop_first())
    }
}

pub proof fn lemma_escaped_concat(a: Seq<char>, b: Seq<char>)
    ensures
        json_escaped_text(a + b) == json_escaped_text(a) + json_escaped_text(b),
    decreases a.len(),
{
    if a.len() == 0 {
        assert(a + b =~= b);
        assert(json_escaped_text(a) + json_escaped_text(b) =~= json_escaped_text(b));
    } else {
        assert((a + b).drop_first() =~= a.drop_first() + b);
        lemma_escaped_concat(a.drop_first(), b);
        assert(json_escaped_text(a + b) =~= json_escaped_text(a) + json_escaped_text(b));
    }
}

/// Every `"` in escaped text directly follows a backslash.
pub proof fn lemma_escaped_quotes(s: Seq<char>, j: int)
    requires
        0 <= j < json_escaped_text(s).len(),
        json_escaped_text(s)[j] == '"',
    ensures
        j >= 1,
        json_escaped_text(s)[j - 1] == '\\',
    decreases s.len(),
{
    let e = escape_char(s[0]);
    let rest = json_escaped_text(s.drop_first());
    assert(json_escaped_text(s) == e + rest);
    if j >= e.len() {
        lemma_escaped_quotes(s.drop_first(), j - e.len());
    }
}

/// Unescaping gives back what escaping was given.
pub proof fn lemma_unescape_escape(s: Seq<char>)
    ensures
        json_unescaped(json_escaped_text(s)) == s,
    decreases s.len(),
{
    if s.len() > 0 {
        let e = escape_char(s[0]);
        let rest = json_escaped_text(s.drop_first());
        let t = e + rest;
        assert(json_escaped_text(s) == t);
        lemma_unescape_escape(s.drop_first());
        if e.len() == 2 {
            assert(t.skip(2) =~= rest);
        } else {
            assert(t.drop_first() =~= rest);
        }
        assert(json_unescaped(t) =~= s);
    }
}

/// Bytes at or above `0x80` are kept by byte-level escaping.
proof fn lemma_json_escaped_high_bytes(b: Seq<u8>)
    requires
        forall|i: int| 0 <= i < b.len() ==> b[i] >= 0x80,
    ensures
        json_escaped(b) == b,
    decreases b.len(),
{
    if b.len() > 0 {
        lemma_json_escaped_high_bytes(b.drop_last());
        assert(json_escape_byte(b.last()) =~= seq![b.last()]);
        assert(b.drop_last() + seq![b.last()] =~= b);
    }
}

proof fn lemma_ascii_scalar(v: u32)
    requires
        v <= 0x7f,
    ensures
        encode_scalar(v) == seq![v as u8],
{
    assert((v & 0x7F) as u8 == v as u8) by (bit_vector)
        requires
            v <= 0x7f,
    ;
    assert(encode_scalar(v) =~= seq![v as u8]);
}

/// A control character that text escaping keeps as it is: one below
/// `0x20` other than tab, newline and carriage return.
pub open spec fn is_bare_control(c: char) -> bool {
    (c as u32) < 0x20 && c != '\t' && c != '\n' && c != '\r'
}

/// The upper-case hexadecimal digit character for `n < 16`.
spec fn hex_upper_char(n: nat) -> char {
    if n == 0 { '0' } else if n == 1 { '1' } else if n == 2 { '2' } else if n == 3 { '3' }
    else if n == 4 { '4' } else if n == 5 { '5' } else if n == 6 { '6' } else if n == 7 { '7' }
    else if n == 8 { '8' } else if n == 9 { '9' } else if n == 10 { 'A' } else if n == 11 { 'B' }
    else if n == 12 { 'C' } else if n == 13 { 'D' } else if n == 14 { 'E' } else { 'F' }
}

/// The characters whose encoding is the byte-level escape of `c`'s
/// encoding: the text escape, with a bare control character as `\u00XX`.
spec fn byte_escape_char(c: char) -> Seq<char> {
    if is_bare_control(c) {
        seq!['\\', 'u', '0', '0', hex_upper_char(c as nat / 16), hex_upper_char(c as nat % 16)]
    } else {
        escape_char(c)
    }
}

spec fn byte_escaped_text(s: Seq<char>) -> Seq<char>
    decreases s.len(),
{
    if s.len() == 0 {
        Seq::empty()
    } else {
        byte_escape_char(s[0]) + byte_escaped_text(s.drop_first())
    }
}

/// ASCII characters encode as themselves, one byte each.
proof fn lemma_ascii_encode(e: Seq<char>)
    requires
        forall|i: int| 0 <= i < e.len() ==> (e[i] as u32) <= 0x7f,
    ensures
        encode_utf8(e).len() == e.len(),
        forall|i: int| 0 <= i < e.len() ==> encode_utf8(e)[i] == e[i] as u32 as u8,
    decreases e.len(),
{
    if e.len() > 0 {
        lemma_ascii_scalar(e[0] as u32);
        lemma_ascii_encode(e.drop_first());
        assert forall|i: int| 0 <= i < e.len() implies encode_utf8(e)[i] == e[i] as u32 as u8 by {
            if i > 0 {
                assert(encode_utf8(e)[i] == encode_utf8(e.drop_first())[i - 1]);
            }
        }
    }
}

/// One character escaped as [`byte_escape_char`], then encoded, is its
/// encoding escaped byte by byte.
proof fn lemma_escape_char_bytes(c: char)
    ensures
        encode_utf8(byte_escape_char(c)) == json_escaped(encode_scalar(c as u32)),
{
    let u = c as u32;
    char_is_scalar(c);
    char_u32_cast(c, u);
    let e = byte_escape_char(c);
    assert(encode_utf8(Seq::<char>::empty()) =~= Seq::<u8>::empty());
    assert(json_escaped(Seq::<u8>::empty()) =~= Seq::<u8>::empty());
    if has_width_1_encoding(u) {
        assert((u & 0x7F) as u8 == u as u8) by (bit_vector)
            requires
                u <= 0x7f,
        ;
        let b = u as u8;
        assert(encode_scalar(u) =~= seq![b]);
        assert(seq![b].drop_last() =~= Seq::<u8>::empty());
        assert(json_escaped(seq![b]) =~= json_escape_byte(b));
        if is_bare_control(c) {
            let hi = hex_upper_char(c as nat / 16);
            let lo = hex_upper_char(c as nat % 16);
            assert(hi as u32 as u8 == crate::util::hex_upper(b as nat / 16));
            assert(lo as u32 as u8 == crate::util::hex_upper(b as nat % 16));
            lemma_ascii_encode(e);
            assert(encode_utf8(e) =~= json_escape_byte(b));
        } else if e.len() == 2 {
            lemma_ascii_scalar(e[0] as u32);
            lemma_ascii_scalar(e[1] as u32);
            assert(e.drop_first().drop_first() =~= Seq::<char>::empty());
            assert(encode_utf8(e.drop_first()) =~= encode_scalar(e[1] as u32));
            assert(encode_utf8(e) =~= encode_scalar(e[0] as u32) + encode_scalar(e[1] as u32));
            assert(encode_utf8(e) =~= json_escape_byte(b));
        } else {
            assert(e =~= seq![c]);
            assert(e.drop_first() =~= Seq::<char>::empty());
            assert(encode_utf8(e) =~= encode_scalar(u));
        }
    } else {
        assert(e =~= seq![c]);
        assert(e.drop_first() =~= Seq::<char>::empty());
        assert(encode_utf8(e) =~= encode_scalar(u));
        assert(last_continuation_byte(u) >= 0x80) by (bit_vector);
        assert(second_last_continuation_byte(u) >= 0x80) by (bit_vector);
        assert(third_last_continuation_byte(u) >= 0x80) by (bit_vector);
        assert(leading_byte_width_2(u) >= 0x80) by (bit_vector);
        assert(leading_byte_width_3(u) >= 0x80) by (bit_vector);
        assert(leading_byte_width_4(u) >= 0x80) by (bit_vector);
        lemma_json_escaped_high_bytes(encode_scalar(u));
    }
}

/// Byte-level escaping of an encoded text is the encoding of
/// [`byte_escaped_text`].
proof fn lemma_byte_escaped_text(s: Seq<char>)
    ensures
        encode_utf8(byte_escaped_text(s)) == json_escaped(encode_utf8(s)),
    decreases s.len(),
{
    if s.len() == 0 {
        assert(json_escaped(Seq::<u8>::empty()) =~= Seq::<u8>::empty());
    } else {
        let rest = s.drop_first();
        lemma_byte_escaped_text(rest);
        lemma_encode_utf8_concat(byte_escape_char(s[0]), byte_escaped_text(rest));
        lemma_escape_char_bytes(s[0]);
        lemma_json_escaped_concat(encode_scalar(s[0] as u32), encode_utf8(rest));
    }
}

/// Byte-level JSON escaping keeps UTF-8 text valid UTF-8.
pub proof fn lemma_json_escaped_utf8(s: Seq<char>)
    ensures
        valid_utf8(json_escaped(encode_utf8(s))),
{
    lemma_byte_escaped_text(s);
    encode_utf8_valid_utf8(byte_escaped_text(s));
}

/// The two escapers agree on text without bare control characters:
/// escaping the text and encoding it as UTF-8 gives the same bytes as
/// escaping its UTF-8 encoding byte by byte, as the buffer writers do.
pub proof fn lemma_escape_text_bytes(s: Seq<char>)
    requires
        forall|i: int| 0 <= i < s.len() ==> !is_bare_control(#[trigger] s[i]),
    ensures
        encode_utf8(json_escaped_text(s)) == json_escaped(encode_utf8(s)),
    decreases s.len(),
{
    if s.len() == 0 {
        assert(json_escaped(Seq::<u8>::empty()) =~= Seq::<u8>::empty());
    } else {
        let rest = s.drop_first();
        assert(forall|i: int| 0 <= i < rest.len() ==> rest[i] == s[i + 1]);
        lemma_escape_text_bytes(rest);
        lemma_encode_utf8_concat(escape_char(s[0]), json_escaped_text(rest));
        lemma_escape_char_bytes(s[0]);
        assert(byte_escape_char(s[0]) == escape_char(s[0]));
        lemma_json_escaped_concat(encode_scalar(s[0] as u32), encode_utf8(rest));
    }
}

fn push_escaped(out: &mut String, c: char)
    ensures
        final(out)@ == old(out)@ + escape_char(c),
{
    if c == '\\' {
        string_push(out, '\\');
        string_push(out, '\\');
    } else if c == '"' {
        string_push(out, '\\');
        string_push(out, '"');
    } else if c == '\n' {
        string_push(out, '\\');
        string_push(out, 'n');
    } else if c == '\r' {
        string_push(out, '\\');
        string_push(out, 'r');
    } else if c == '\t' {
        string_push(out, '\\');
        string_push(out, 't');
    } else {
        string_push(out, c);
    }
    assert(final(out)@ =~= old(out)@ + escape_char(c));
}

/// Appends the JSON escape of `s` to `out`.
pub fn push_json_escaped(out: &mut String, s: &str)
    ensures
        final(out)@ == old(out)@ + json_escaped_text(s@),
{
    let v = str_chars(s);
    let ghost start = out@;
    let mut i: usize = 0;
    assert(v@.take(0) =~= Seq::<char>::empty());
    assert(start + json_escaped_text(v@.take(0)) =~= start);
    while i < v.len()
        invariant
            i <= v@.len(),
            v@ == s@,
            out@ == start + json_escaped_text(v@.take(i as int)),
        decreases v@.len() - i,
    {
        let c = v[i];
        push_escaped(out, c);
        proof {
            assert(v@.take(i + 1) =~= v@.take(i as int) + seq![c]);
            lemma_escaped_concat(v@.take(i as int), seq![c]);
            assert(seq![c].drop_first() =~= Seq::<char>::empty());
            assert(json_escaped_text(Seq::<char>::empty()) =~= Seq::<char>::empty());
            assert(json_escaped_text(seq![c]) =~= escape_char(c));
        }
        i = i + 1;
    }
    assert(v@.take(i as int) =~= s@);
}

/// JSON-escapes `s` for embedding between double quotes.
pub fn json_escape(s: &str) -> (r: String)
    ensures
        r@ == json_escaped_text(s@),
{
    let mut out = String::new();
    push_json_escaped(&mut out, s);
    assert(out@ =~= json_escaped_text(s@));
    out
}

fn push_unescaped_pair(out: &mut String, c: char)
    ensures
        final(out)@ == old(out)@ + unescape_pair(c),
{
    if c == '\\' {
        string_push(out, '\\');
    } else if c == '"' {
        string_push(out, '"');
    } else if c == 'n' {
        string_push(out, '\n');
    } else if c == 'r' {
        string_push(out, '\r');
    } else if c == 't' {
        string_push(out, '\t');
    } else if c == '/' {
        string_push(out, '/');
    } else {
        string_push(out, '\\');
        string_push(out, c);
    }
    assert(final(out)@ =~= old(out)@ + unescape_pair(c));
}

fn unescape_range(v: &Vec<char>, lo: usize, hi: usize) -> (r: String)
    requires
        lo <= hi <= v@.len(),
    ensures
        r@ == json_unescaped(v@.subrange(lo as int, hi as int)),
{
    let mut out = String::new();
    let mut i = lo;
    assert(Seq::<char>::empty() + json_unescaped(v@.subrange(lo as int, hi as int))
        =~= json_unescaped(v@.subrange(lo as int, hi as int)));
    while i < hi
        invariant
            lo <= i <= hi <= v@.len(),
            json_unescaped(v@.subrange(lo as int, hi as int)) == out@ + json_unescaped(
                v@.subrange(i as int, hi as int),
            ),
        decreases hi - i,
    {
        let ghost t = v@.subrange(i as int, hi as int);
        let ghost before = out@;
        if v[i] == '\\' {
            if i + 1 == hi {
                string_push(&mut out, '\\');
                assert(v@.subrange(hi as int, hi as int) =~= Seq::<char>::empty());
                assert(out@ + json_unescaped(v@.subrange(hi as int, hi as int)) =~= before
                    + json_unescaped(t));
                i = hi;
            } else {
                let c = v[i + 1];
                push_unescaped_pair(&mut out, c);
                assert(t.skip(2) =~= v@.subrange(i + 2, hi as int));
                assert(out@ + json_unescaped(v@.subrange(i + 2, hi as int)) =~= before
                    + json_unescaped(t));
                i = i + 2;
            }
        } else {
            string_push(&mut out, v[i]);
            assert(t.drop_first() =~= v@.subrange(i + 1, hi as int));
            assert(out@ + json_unescaped(v@.subrange(i + 1, hi as int)) =~= before
                + json_unescaped(t));
            i = i + 1;
        }
    }
    assert(v@.subrange(hi as int, hi as int) =~= Seq::<char>::empty());
    assert(out@ + Seq::<char>::empty() =~= out@);
    out
}

/// Undoes the JSON string escapes `\\ \" \n \r \t \/`; any other escape is
/// kept as written.
pub fn json_unescape(s: &str) -> (r: String)
    ensures
        r@ == json_unescaped(s@),
{
    let v = str_chars(s);
    let r = unescape_range(&v, 0, v.len());
    assert(v@.subrange(0, v@.len() as int) =~= s@);
    r
}

// ── Key lookup ─────────────────────────────────────────────────────────

/// The quoted key `"key"` as it appears in JSON text.
pub open spec fn key_needle(key: Seq<char>) -> Seq<char> {
    seq!['"'] + key + seq!['"']
}

/// Whether `n` occurs in `s` starting at index `i`.
pub open spec fn occurs_at(s: Seq<char>, i: int, n: Seq<char>) -> bool {
    0 <= i && i + n.len() <= s.len() && s.subrange(i, i + n.len()) == n
}

/// The whitespace that separates JSON tokens.
pub open spec fn is_json_space(c: char) -> bool {
    c == ' ' || c == '\t' || c == '\n' || c == '\r'
}

/// Walking back from index `pos` over JSON whitespace, the first character
/// is `{` or `,`: the text at `pos` can start an object key.
pub open spec fn key_boundary_before(s: Seq<char>, pos: int) -> bool
    decreases pos,
{
    if pos <= 0 {
        false
    } else if is_json_space(s[pos - 1]) {
        key_boundary_before(s, pos - 1)
    } else {
        s[pos - 1] == '{' || s[pos - 1] == ','
    }
}

/// [`key_boundary_before`] over the UTF-8 bytes of the text.
pub open spec fn key_boundary_before_bytes(s: Seq<u8>, pos: int) -> bool
    decreases pos,
{
    if pos <= 0 {
        false
    } else if s[pos - 1] == 32 || s[pos - 1] == 9 || s[pos - 1] == 10 || s[pos - 1] == 13 {
        key_boundary_before_bytes(s, pos - 1)
    } else {
        s[pos - 1] == 0x7b || s[pos - 1] == 0x2c
    }
}

/// The index of the `"` that closes a JSON string whose body starts at `p`,
/// stepping over the character after each backslash.
pub open spec fn string_end(s: Seq<char>, p: nat) -> Option<nat>
    decreases s.len() - p,
{
    if p >= s.len() {
        None
    } else if s[p as int] == '\\' {
        if p + 1 >= s.len() {
            None
        } else {
            string_end(s, p + 2)
        }
    } else if s[p as int] == '"' {
        Some(p)
    } else {
        string_end(s, p + 1)
    }
}

/// Scanning `s` from index `from` for the quoted key `n`: the first
/// occurrence that starts an object key and is followed by `:` and a string
/// gives that string, unescaped; an unterminated string gives `None`; any
/// other occurrence is skipped.
pub open spec fn extract_from(s: Seq<char>, n: Seq<char>, from: nat) -> Option<Seq<char>>
    decreases s.len() - from,
{
    if n.len() == 0 || from + n.len() > s.len() {
        None
    } else if !occurs_at(s, from as int, n) {
        extract_from(s, n, from + 1)
    } else {
        let after = from + n.len();
        let a = ws_skip(s, after);
        if key_boundary_before(s, from as int) && a < s.len() && s[a as int] == ':' && ws_skip(
            s,
            a + 1,
        ) < s.len() && s[ws_skip(s, a + 1) as int] == '"' {
            let b = ws_skip(s, a + 1);
            match string_end(s, b + 1) {
                Some(e) => Some(json_unescaped(s.subrange(b + 1 as int, e as int))),
                None => None,
            }
        } else {
            extract_from(s, n, after)
        }
    }
}

/// The string value of `key` in `json`, as [`json_extract_string`] finds it.
pub open spec fn json_key_value(json: Seq<char>, key: Seq<char>) -> Option<Seq<char>> {
    extract_from(json, key_needle(key), 0)
}

/// Checks that the byte before `pos` (skipping ASCII whitespace) is a JSON
/// object-key boundary: either `{` (first key) or `,` (subsequent key). This
/// prevents false matches inside string values.
pub fn preceded_by_key_boundary(json: &str, pos: usize) -> (r: bool)
    requires
        pos <= json.spec_bytes().len(),
    ensures
        r == key_boundary_before_bytes(json.spec_bytes(), pos as int),
{
    let bytes = json.as_bytes();
    let mut i = pos;
    while i > 0
        invariant
            i <= pos <= bytes@.len(),
            bytes@ == json.spec_bytes(),
            key_boundary_before_bytes(bytes@, pos as int) == key_boundary_before_bytes(
                bytes@,
                i as int,
            ),
        decreases i,
    {
        i = i - 1;
        let b = bytes[i];
        if b == 32 || b == 9 || b == 10 || b == 13 {
        } else {
            return b == 0x7b || b == 0x2c;
        }
    }
    false
}

fn boundary_at(v: &Vec<char>, pos: usize) -> (r: bool)
    requires
        pos <= v@.len(),
    ensures
        r == key_boundary_before(v@, pos as int),
{
    let mut i = pos;
    while i > 0
        invariant
            i <= pos <= v@.len(),
            key_boundary_before(v@, pos as int) == key_boundary_before(v@, i as int),
        decreases i,
    {
        i = i - 1;
        let c = v[i];
        if c == ' ' || c == '\t' || c == '\n' || c == '\r' {
        } else {
            return c == '{' || c == ',';
        }
    }
    false
}

fn occurs(v: &Vec<char>, i: usize, n: &Vec<char>) -> (r: bool)
    requires
        i + n@.len() <= v@.len(),
    ensures
        r == occurs_at(v@, i as int, n@),
{
    let mut k: usize = 0;
    while k < n.len()
        invariant
            i + n@.len() <= v@.len(),
            v@.len() == v.len(),
            k <= n@.len(),
            forall|j: int| 0 <= j < k ==> v@[i + j] == n@[j],
        decreases n@.len() - k,
    {
        if v[i + k] != n[k] {
            assert(v@.subrange(i as int, i + n@.len())[k as int] != n@[k as int]);
            return false;
        }
        k = k + 1;
    }
    assert(v@.subrange(i as int, i + n@.len()) =~= n@);
    true
}

fn string_end_at(v: &Vec<char>, start: usize) -> (r: Option<usize>)
    requires
        start <= v@.len(),
    ensures
        match string_end(v@, start as nat) {
            None => r is None,
            Some(e) => r matches Some(x) && x == e,
        },
        r matches Some(e) ==> start <= e < v@.len(),
{
    let mut p = start;
    while p < v.len()
        invariant
            start <= p <= v@.len(),
            string_end(v@, start as nat) == string_end(v@, p as nat),
        decreases v@.len() - p,
    {
        if v[p] == '\\' {
            if p + 1 >= v.len() {
                return None;
            }
            p = p + 2;
        } else if v[p] == '"' {
            return Some(p);
        } else {
            p = p + 1;
        }
    }
    None
}

/// Finds `"key"` used as an object key in `json` and returns its string
/// value, unescaped. Each occurrence of `"key"` must be preceded (after
/// whitespace) by `{` or `,` and followed by `:` and a string, so a value
/// that merely contains the key's text does not match; such occurrences are
/// skipped. A matching key whose string is not terminated gives `None`.
pub fn json_extract_string(json: &str, key: &str) -> (r: Option<String>)
    ensures
        match r {
            Some(t) => json_key_value(json@, key@) == Some(t@),
            None => json_key_value(json@, key@) is None,
        },
{
    let v = str_chars(json);
    let kv = str_chars(key);
    let mut needle: Vec<char> = Vec::new();
    needle.push('"');
    let mut j: usize = 0;
    while j < kv.len()
        invariant
            j <= kv@.len(),
            needle@ == seq!['"'] + kv@.take(j as int),
        decreases kv@.len() - j,
    {
        needle.push(kv[j]);
        j = j + 1;
        assert(needle@ =~= seq!['"'] + kv@.take(j as int));
    }
    needle.push('"');
    assert(kv@.take(j as int) =~= key@);
    assert(needle@ =~= key_needle(key@));
    let n = needle.len();
    let mut i: usize = 0;
    while v.len() - i >= n
        invariant
            i <= v@.len(),
            v@ == json@,
            needle@ == key_needle(key@),
            n == needle@.len(),
            json_key_value(json@, key@) == extract_from(v@, needle@, i as nat),
        decreases v@.len() - i,
    {
        if !occurs(&v, i, &needle) {
            i = i + 1;
        } else if !boundary_at(&v, i) {
            i = i + n;
        } else {
            let a = skip_whitespace(&v, i + n);
            if a < v.len() && v[a] == ':' {
                let b = skip_whitespace(&v, a + 1);
                if b < v.len() && v[b] == '"' {
                    assert(extract_from(v@, needle@, i as nat) == match string_end(v@, (b + 1) as nat) {
                        Some(e) => Some(json_unescaped(v@.subrange(b + 1 as int, e as int))),
                        None => None,
                    });
                    match string_end_at(&v, b + 1) {
                        None => {
                            return None;
                        },
                        Some(e) => {
                            let t = unescape_range(&v, b + 1, e);
                            assert(string_end(v@, (b + 1) as nat) == Some(e as nat));
                            return Some(t);
                        },
                    }
                } else {
                    i = i + n;
                }
            } else {
                i = i + n;
            }
        }
    }
    None
}

/// A JSON string's body that is escaped text ends at the `"` after it.
proof fn lemma_string_end_escaped(s: Seq<char>, p: nat, v: Seq<char>)
    requires
        p + json_escaped_text(v).len() < s.len(),
        s.subrange(p as int, (p + json_escaped_text(v).len()) as int) == json_escaped_text(v),
        s[(p + json_escaped_text(v).len()) as int] == '"',
    ensures
        string_end(s, p) == Some((p + json_escaped_text(v).len()) as nat),
    decreases v.len(),
{
    let e = json_escaped_text(v);
    let pi = p as int;
    if v.len() > 0 {
        let c = escape_char(v[0]);
        let rest = json_escaped_text(v.drop_first());
        assert(e == c + rest);
        assert(s[pi] == s.subrange(pi, pi + e.len())[0]);
        let qi = pi + c.len();
        assert(s.subrange(qi, qi + rest.len()) =~= rest) by {
            assert forall|k: int| 0 <= k < rest.len() implies s.subrange(qi, qi + rest.len())[k]
                == rest[k] by {
                assert(s.subrange(pi, pi + e.len())[c.len() + k] == e[c.len() + k]);
            }
        }
        if c.len() == 2 {
            assert(s[pi] == '\\');
        } else {
            assert(s[pi] == v[0]);
        }
        lemma_string_end_escaped(s, qi as nat, v.drop_first());
    }
}

/// The JSON object text `{"<key>":"<value, escaped>"}`.
pub open spec fn string_member_object(key: Seq<char>, value: Seq<char>) -> Seq<char> {
    seq!['{', '"'] + key + seq!['"', ':', '"'] + json_escaped_text(value) + seq!['"', '}']
}

/// Looking up a key in the object that maps it to an escaped string gives
/// that string back: what [`json_escape`] writes, [`json_extract_string`]
/// reads.
pub proof fn lemma_extract_escaped_member(key: Seq<char>, value: Seq<char>)
    ensures
        json_key_value(string_member_object(key, value), key) == Some(value),
{
    let s = string_member_object(key, value);
    let n = key_needle(key);
    let e = json_escaped_text(value);
    let kl = key.len() as int;
    let el = e.len() as int;
    assert(s.len() == kl + el + 7);
    assert(s[0] == '{');
    if occurs_at(s, 0, n) {
        assert(s.subrange(0, n.len() as int)[0] == n[0]);
    }
    assert(extract_from(s, n, 0) == extract_from(s, n, 1));
    assert(s.subrange(1, 1 + n.len() as int) =~= n);
    let after = kl + 3;
    assert(s[after] == ':');
    assert(ws_skip(s, after as nat) == after);
    assert(s[after + 1] == '"');
    assert(ws_skip(s, (after + 1) as nat) == after + 1);
    assert(key_boundary_before(s, 1));
    let b = after + 1;
    assert(s.subrange(b + 1, b + 1 + el) =~= e);
    assert(s[b + 1 + el] == '"');
    lemma_string_end_escaped(s, (b + 1) as nat, value);
    lemma_unescape_escape(value);
    assert(extract_from(s, n, 1) == Some(json_unescaped(s.subrange(b + 1, b + 1 + el))));
}

// ── Reading a JSON string back ─────────────────────────────────────────

/// The number that four hex digits at `i` of `s` denote.
pub open spec fn hex4_at(s: Seq<u8>, i: int) -> Option<nat> {
    if i < 0 || i + 4 > s.len() {
        None
    } else {
        match (hex_nibble(s[i]), hex_nibble(s[i + 1]), hex_nibble(s[i + 2]), hex_nibble(s[i + 3])) {
            (Some(a), Some(b), Some(c), Some(d)) => Some(a * 4096 + b * 256 + c * 16 + d),
            _ => None,
        }
    }
}

/// `Some(p + x)` for `Some(x)`, `None` for `None`.
pub open spec fn prepend_bytes(p: Seq<u8>, o: Option<Seq<u8>>) -> Option<Seq<u8>> {
    match o {
        Some(x) => Some(p + x),
        None => None,
    }
}

/// The value, as UTF-8 bytes, of the body of a JSON string literal (the
/// bytes between its quotes) by RFC 8259: a bare `"` or control byte is
/// refused; `\"`, `\\`, `\/`, `\b`, `\f`, `\n`, `\r`, `\t` and `\uXXXX`
/// (with a surrogate pair for a character beyond the first plane) are
/// escapes; every other byte stands for itself. `None` when the body is
/// not well formed.
pub open spec fn json_string_value(s: Seq<u8>) -> Option<Seq<u8>>
    decreases s.len(),
{
    if s.len() == 0 {
        Some(Seq::empty())
    } else if s[0] == 0x22 || s[0] < 0x20 {
        None
    } else if s[0] != 0x5c {
        prepend_bytes(seq![s[0]], json_string_value(s.drop_first()))
    } else if s.len() < 2 {
        None
    } else {
        let c = s[1];
        let simple: Option<u8> = if c == 0x22 {
            Some(0x22u8)
        } else if c == 0x5c {
            Some(0x5cu8)
        } else if c == 0x2f {
            Some(0x2fu8)
        } else if c == 0x62 {
            Some(0x08u8)
        } else if c == 0x66 {
            Some(0x0cu8)
        } else if c == 0x6e {
            Some(0x0au8)
        } else if c == 0x72 {
            Some(0x0du8)
        } else if c == 0x74 {
            Some(0x09u8)
        } else {
            None
        };
        match simple {
            Some(b) => prepend_bytes(seq![b], json_string_value(s.skip(2))),
            None => if c != 0x75 {
                None
            } else {
                match hex4_at(s, 2) {
                    None => None,
                    Some(u) => if u < 0xd800 || 0xdfff < u {
                        prepend_bytes(encode_scalar(u as u32), json_string_value(s.skip(6)))
                    } else if u < 0xdc00 && s.len() >= 12 && s[6] == 0x5c && s[7] == 0x75 && (
                    hex4_at(s, 8) matches Some(l) && 0xdc00 <= l <= 0xdfff) {
                        let l = hex4_at(s, 8)->0;
                        prepend_bytes(
                            encode_scalar((0x10000 + (u - 0xd800) * 1024 + (l - 0xdc00)) as u32),
                            json_string_value(s.skip(12)),
                        )
                    } else {
                        None
                    },
                }
            },
        }
    }
}

/// Reading one escaped byte and what follows it.
proof fn lemma_value_escape_byte(x: u8, rest: Seq<u8>)
    ensures
        json_string_value(json_escape_byte(x) + rest) == prepend_bytes(seq![x], json_string_value(rest)),
{
    let e = json_escape_byte(x);
    let s = e + rest;
    if x == 0x5c || x == 0x22 || x == 0x0a || x == 0x0d || x == 0x09 {
        assert(s.skip(2) =~= rest);
    } else if x < 0x20 {
        let hi = x as nat / 16;
        let lo = x as nat % 16;
        assert(hex_nibble(hex_upper(hi)) == Some(hi));
        assert(hex_nibble(hex_upper(lo)) == Some(lo));
        assert(hex_nibble(0x30u8) == Some(0nat));
        assert(hex4_at(s, 2) == Some(x as nat));
        assert(s.skip(6) =~= rest);
        assert((x as u32 & 0x7F) as u8 == x) by (bit_vector)
            requires
                x < 0x20,
        ;
        assert(encode_scalar(x as u32) =~= seq![x]);
    } else {
        assert(s.drop_first() =~= rest);
    }
}

/// Escaped bytes are the body of a JSON string literal whose value is the
/// bytes themselves: no bare `"` or control byte is left, and every escape
/// reads back as the byte it stands for.
pub proof fn lemma_json_string_value_escaped(x: Seq<u8>)
    ensures
        json_string_value(json_escaped(x)) == Some(x),
    decreases x.len(),
{
    if x.len() == 0 {
        assert(json_escaped(x) =~= Seq::<u8>::empty());
    } else {
        let rest = x.drop_first();
        assert(x =~= seq![x[0]] + rest);
        lemma_json_escaped_concat(seq![x[0]], rest);
        assert(seq![x[0]].drop_last() =~= Seq::<u8>::empty());
        assert(json_escaped(Seq::<u8>::empty()) =~= Seq::<u8>::empty());
        assert(json_escaped(seq![x[0]]) =~= json_escape_byte(x[0]));
        lemma_json_string_value_escaped(rest);
        lemma_value_escape_byte(x[0], json_escaped(rest));
        assert(seq![x[0]] + rest =~= x);
    }
}

/// Any run of spaces, tabs, newlines and carriage returns between the `{`
/// or `,` before a key and the key's opening quote leaves the key readable:
/// looking up the key in `<open><w>"<key>":"<value, escaped>"}` gives the
/// value.
pub proof fn lemma_extract_after_whitespace(
    open: char,
    w: Seq<char>,
    key: Seq<char>,
    value: Seq<char>,
)
    requires
        open == '{' || open == ',',
        forall|i: int|
            0 <= i < w.len() ==> #[trigger] w[i] == ' ' || w[i] == '\t' || w[i] == '\n' || w[i]
                == '\r',
    ensures
        json_key_value(seq![open] + w + string_member_object(key, value).skip(1), key) == Some(
            value,
        ),
{
    let o = string_member_object(key, value);
    let s = seq![open] + w + o.skip(1);
    let n = key_needle(key);
    let e = json_escaped_text(value);
    let wl = w.len() as int;
    let kl = key.len() as int;
    let el = e.len() as int;
    let p = wl + 1;
    assert(s.len() == p + kl + el + 6);
    assert(s[0] == open);
    assert forall|i: int| 0 <= i < p implies s[i] != '"' by {
        if i > 0 {
            assert(s[i] == w[i - 1]);
        }
    }
    lemma_no_needle_before(s, n, 0, p as nat);
    assert(s.subrange(p, p + n.len() as int) =~= n);
    assert forall|k: int| 1 <= k <= p implies key_boundary_before(s, k) by {
        lemma_boundary_over_space(s, k);
    }
    let after = p + kl + 2;
    assert(s[after] == ':');
    assert(ws_skip(s, after as nat) == after);
    assert(s[after + 1] == '"');
    assert(ws_skip(s, (after + 1) as nat) == after + 1);
    let b = after + 1;
    assert(s.subrange(b + 1, b + 1 + el) =~= e);
    assert(s[b + 1 + el] == '"');
    lemma_string_end_escaped(s, (b + 1) as nat, value);
    lemma_unescape_escape(value);
    assert(extract_from(s, n, p as nat) == Some(json_unescaped(s.subrange(b + 1, b + 1 + el))));
}

/// Positions holding no `"` cannot start a quoted key.
proof fn lemma_no_needle_before(s: Seq<char>, n: Seq<char>, from: nat, p: nat)
    requires
        from <= p,
        n.len() > 0,
        n[0] == '"',
        p + n.len() <= s.len(),
        forall|i: int| from <= i < p ==> s[i] != '"',
    ensures
        extract_from(s, n, from) == extract_from(s, n, p),
    decreases p - from,
{
    if from < p {
        if occurs_at(s, from as int, n) {
            assert(s.subrange(from as int, (from + n.len()) as int)[0] == n[0]);
        }
        lemma_no_needle_before(s, n, from + 1, p);
    }
}

/// Walking back from `k` over the whitespace before it reaches the `{` or
/// `,` at index 0.
proof fn lemma_boundary_over_space(s: Seq<char>, k: int)
    requires
        1 <= k < s.len(),
        s[0] == '{' || s[0] == ',',
        forall|i: int| 1 <= i < k ==> s[i] == ' ' || s[i] == '\t' || s[i] == '\n' || s[i] == '\r',
    ensures
        key_boundary_before(s, k),
    decreases k,
{
    if k > 1 {
        assert(is_json_space(s[k - 1]));
        lemma_boundary_over_space(s, k - 1);
    }
}

} // verus!
