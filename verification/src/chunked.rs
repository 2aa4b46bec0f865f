//! Incremental decoding of HTTP chunked transfer encoding, as streamed by the
//! device's `/debug/log` endpoint.
//!
//! TCP read boundaries do not necessarily align with chunk boundaries, so the
//! decoder keeps the bytes it could not use yet across calls of
//! [`ChunkDecoder::feed`].

use vstd::prelude::*;
use vstd::utf8::*;
use crate::text::{
    is_unicode_whitespace, str_chars, str_from_utf8, trim_bounds, trim_end_ws, trim_start_ws, trim_ws,
};

verus! {

/// Outcome of feeding a byte slice into [`ChunkDecoder::feed`].
#[derive(Debug, PartialEq, Eq)]
pub enum ChunkOutcome {
    /// More data needed — keep reading from the socket.
    Continue,
    /// The writer (e.g. stdout) rejected a write; tear down silently.
    BrokenPipe,
    /// The encoding went off-rails; the wrapped reason is suitable for
    /// printing. Decoder state has been cleared.
    Malformed(&'static str),
    /// Received the `0\r\n\r\n` terminator chunk. End of stream.
    Terminated,
}

/// Whether `\r\n` starts at index `i` of `s`.
pub open spec fn crlf_at(s: Seq<u8>, i: int) -> bool {
    0 <= i && i + 1 < s.len() && s[i] == 13 && s[i + 1] == 10
}

/// The first index at or after `from` where `\r\n` starts.
pub open spec fn first_crlf(s: Seq<u8>, from: nat) -> Option<nat>
    decreases s.len() - from,
{
    if from + 1 >= s.len() {
        None
    } else if crlf_at(s, from as int) {
        Some(from)
    } else {
        first_crlf(s, from + 1)
    }
}

/// The value of a hexadecimal digit.
pub open spec fn hex_digit_value(c: char) -> Option<nat> {
    let u = c as u32;
    if 48 <= u && u <= 57 {
        Some((u - 48) as nat)
    } else if 97 <= u && u <= 102 {
        Some((u - 87) as nat)
    } else if 65 <= u && u <= 70 {
        Some((u - 55) as nat)
    } else {
        None
    }
}

pub open spec fn all_hex_digits(s: Seq<char>) -> bool {
    forall|i: int| 0 <= i < s.len() ==> (#[trigger] hex_digit_value(s[i])) is Some
}

/// The number that a string of hexadecimal digits denotes.
pub open spec fn hex_value(s: Seq<char>) -> nat
    decreases s.len(),
{
    if s.len() == 0 {
        0
    } else {
        hex_value(s.drop_last()) * 16 + match hex_digit_value(s.last()) {
            Some(d) => d,
            None => 0,
        }
    }
}

/// A chunk size as `usize::from_str_radix(s, 16)` reads it: an optional
/// leading `+` followed by at least one hexadecimal digit, whose value fits.
pub open spec fn parse_hex_usize(s: Seq<char>) -> Option<usize> {
    let digits = if s.len() > 1 && s[0] == '+' {
        s.drop_first()
    } else {
        s
    };
    if digits.len() > 0 && all_hex_digits(digits) && hex_value(digits) <= usize::MAX {
        Some(hex_value(digits) as usize)
    } else {
        None
    }
}

/// Decoding `buf` from its start: the outcome, the chunk data produced, and
/// the bytes kept for the next call.
pub open spec fn chunk_feed(buf: Seq<u8>) -> (ChunkOutcome, Seq<u8>, Seq<u8>)
    decreases buf.len(),
{
    match first_crlf(buf, 0) {
        None => (ChunkOutcome::Continue, Seq::empty(), buf),
        Some(crlf) => {
            let size_bytes = buf.take(crlf as int);
            if !valid_utf8(size_bytes) {
                (ChunkOutcome::Malformed("non-UTF8 chunk size"), Seq::empty(), Seq::empty())
            } else {
                match parse_hex_usize(trim_ws(decode_utf8(size_bytes))) {
                    None => (
                        ChunkOutcome::Malformed("invalid chunk size"),
                        Seq::empty(),
                        Seq::empty(),
                    ),
                    Some(size) => {
                        if size == 0 {
                            (ChunkOutcome::Terminated, Seq::empty(), Seq::empty())
                        } else {
                            let start = (crlf + 2) as int;
                            let end = start + size + 2;
                            if buf.len() < end {
                                (ChunkOutcome::Continue, Seq::empty(), buf)
                            } else {
                                let next = chunk_feed(buf.skip(end));
                                (next.0, buf.subrange(start, start + size) + next.1, next.2)
                            }
                        }
                    },
                }
            }
        },
    }
}

proof fn lemma_first_crlf_bound(s: Seq<u8>, from: nat)
    ensures
        first_crlf(s, from) matches Some(c) ==> from <= c && crlf_at(s, c as int),
    decreases s.len() - from,
{
    if from + 1 < s.len() && !crlf_at(s, from as int) {
        lemma_first_crlf_bound(s, from + 1);
    }
}

proof fn lemma_first_crlf_append(x: Seq<u8>, y: Seq<u8>, from: nat)
    requires
        first_crlf(x, from) is Some,
    ensures
        first_crlf(x + y, from) == first_crlf(x, from),
    decreases x.len() - from,
{
    if !crlf_at(x, from as int) {
        lemma_first_crlf_append(x, y, from + 1);
    }
}

/// Feeding bytes in two pieces decodes exactly what feeding them at once
/// does, whenever the first piece leaves the decoder waiting for more data:
/// the second call picks up from the bytes the first one kept.
pub proof fn lemma_feed_split(x: Seq<u8>, y: Seq<u8>)
    requires
        chunk_feed(x).0 == ChunkOutcome::Continue,
    ensures
        chunk_feed(x + y).0 == chunk_feed(chunk_feed(x).2 + y).0,
        chunk_feed(x + y).1 == chunk_feed(x).1 + chunk_feed(chunk_feed(x).2 + y).1,
        chunk_feed(x + y).2 == chunk_feed(chunk_feed(x).2 + y).2,
    decreases x.len(),
{
    match first_crlf(x, 0) {
        None => {
            assert(chunk_feed(x).1 + chunk_feed(x + y).1 =~= chunk_feed(x + y).1);
        },
        Some(crlf) => {
            lemma_first_crlf_bound(x, 0);
            lemma_first_crlf_append(x, y, 0);
            assert((x + y).take(crlf as int) =~= x.take(crlf as int));
            let size = parse_hex_usize(trim_ws(decode_utf8(x.take(crlf as int)))).unwrap();
            let start = (crlf + 2) as int;
            let end = start + size + 2;
            if x.len() < end {
                assert(chunk_feed(x).1 + chunk_feed(x + y).1 =~= chunk_feed(x + y).1);
            } else {
                assert((x + y).skip(end) =~= x.skip(end) + y);
                assert((x + y).subrange(start, start + size) =~= x.subrange(start, start + size));
                lemma_feed_split(x.skip(end), y);
                let a = x.subrange(start, start + size);
                let b = chunk_feed(x.skip(end)).1;
                let c = chunk_feed(chunk_feed(x).2 + y).1;
                assert(a + (b + c) =~= (a + b) + c);
            }
        },
    }
}

/// Incremental HTTP chunked-transfer-encoding decoder.
///
/// `buf` holds the received bytes not yet decoded.
pub struct ChunkDecoder {
    pub buf: Vec<u8>,
}

fn hex_digit(c: char) -> (r: Option<usize>)
    ensures
        r is None <==> hex_digit_value(c) is None,
        r matches Some(v) ==> hex_digit_value(c) == Some(v as nat) && v < 16,
{
    let u = c as u32;
    if 48 <= u && u <= 57 {
        Some((u - 48) as usize)
    } else if 97 <= u && u <= 102 {
        Some((u - 87) as usize)
    } else if 65 <= u && u <= 70 {
        Some((u - 55) as usize)
    } else {
        None
    }
}

proof fn lemma_hex_value_prefix(s: Seq<char>, k: int)
    requires
        0 <= k <= s.len(),
    ensures
        hex_value(s.take(k)) <= hex_value(s),
    decreases s.len(),
{
    if k < s.len() {
        assert(s.drop_last().take(k) =~= s.take(k));
        lemma_hex_value_prefix(s.drop_last(), k);
    } else {
        assert(s.take(k) =~= s);
    }
}

/// Parses a chunk-size line: whitespace-trimmed, then read as a hexadecimal
/// `usize` with an optional leading `+`.
pub fn parse_chunk_size(text: &str) -> (r: Option<usize>)
    ensures
        r == parse_hex_usize(trim_ws(text@)),
{
    let v = str_chars(text);
    let (lo, hi) = trim_bounds(&v);
    let ghost t = v@.subrange(lo as int, hi as int);
    let mut a = lo;
    if hi - lo > 1 && v[lo] == '+' {
        a = lo + 1;
    }
    let ghost digits = v@.subrange(a as int, hi as int);
    assert(digits =~= (if t.len() > 1 && t[0] == '+' { t.drop_first() } else { t }));
    if a == hi {
        return None;
    }
    let mut acc: usize = 0;
    let mut k = a;
    while k < hi
        invariant
            lo <= a <= k <= hi <= v@.len(),
            v@ == text@,
            trim_ws(text@) == t,
            t == v@.subrange(lo as int, hi as int),
            digits == (if t.len() > 1 && t[0] == '+' { t.drop_first() } else { t }),
            digits == v@.subrange(a as int, hi as int),
            all_hex_digits(v@.subrange(a as int, k as int)),
            acc as nat == hex_value(v@.subrange(a as int, k as int)),
        decreases hi - k,
    {
        let ghost pre = v@.subrange(a as int, k as int);
        let ghost next = v@.subrange(a as int, k + 1);
        assert(next.drop_last() =~= pre);
        assert(digits.take(k + 1 - a) =~= next);
        match hex_digit(v[k]) {
            None => {
                assert(hex_digit_value(digits[k - a]) is None);
                return None;
            },
            Some(d) => {
                assert(all_hex_digits(next));
                match acc.checked_mul(16) {
                    None => {
                        proof {
                            if all_hex_digits(digits) {
                                lemma_hex_value_prefix(digits, k + 1 - a);
                            }
                        }
                        return None;
                    },
                    Some(m) => match m.checked_add(d) {
                        None => {
                            proof {
                                if all_hex_digits(digits) {
                                    lemma_hex_value_prefix(digits, k + 1 - a);
                                }
                            }
                            return None;
                        },
                        Some(n) => {
                            acc = n;
                        },
                    },
                }
            },
        }
        k = k + 1;
    }
    Some(acc)
}

/// The first `\r\n` in `buf` at or after `from`, as an absolute index.
fn find_crlf(buf: &Vec<u8>, from: usize) -> (r: Option<usize>)
    requires
        from <= buf@.len(),
    ensures
        match first_crlf(buf@.skip(from as int), 0) {
            None => r is None,
            Some(c) => r == Some((c + from) as usize),
        },
{
    let ghost t = buf@.skip(from as int);
    let mut j = from;
    while buf.len() - j >= 2
        invariant
            from <= j <= buf@.len(),
            t == buf@.skip(from as int),
            first_crlf(t, 0) == first_crlf(t, (j - from) as nat),
        decreases buf@.len() - j,
    {
        if buf[j] == 13 && buf[j + 1] == 10 {
            assert(crlf_at(t, j - from));
            return Some(j);
        }
        assert(!crlf_at(t, j - from));
        j = j + 1;
    }
    None
}

impl ChunkDecoder {
    /// An empty decoder.
    pub fn new() -> (d: Self)
        ensures
            d.buf@ == Seq::<u8>::empty(),
    {
        ChunkDecoder { buf: Vec::new() }
    }

    /// Appends `new_data` to the pending bytes and decodes every complete
    /// chunk, appending its data to `out`. Stops at the first chunk whose
    /// bytes have not all arrived (`Continue`, keeping them), at the
    /// terminator chunk (`Terminated`), or at a malformed size line
    /// (`Malformed`); the last two clear the pending bytes.
    pub fn feed(&mut self, new_data: &[u8], out: &mut Vec<u8>) -> (r: ChunkOutcome)
        ensures
            r == chunk_feed(old(self).buf@ + new_data@).0,
            final(out)@ == old(out)@ + chunk_feed(old(self).buf@ + new_data@).1,
            final(self).buf@ == chunk_feed(old(self).buf@ + new_data@).2,
    {
        let ghost total = old(self).buf@ + new_data@;
        let mut i: usize = 0;
        while i < new_data.len()
            invariant
                i <= new_data@.len(),
                self.buf@ == old(self).buf@ + new_data@.take(i as int),
            decreases new_data@.len() - i,
        {
            self.buf.push(new_data[i]);
            i = i + 1;
            assert(self.buf@ =~= old(self).buf@ + new_data@.take(i as int));
        }
        assert(new_data@.take(i as int) =~= new_data@);
        let mut pos: usize = 0;
        assert(total.skip(0) =~= total);
        assert(old(out)@ + Seq::<u8>::empty() =~= old(out)@);
        loop
            invariant
                pos <= self.buf@.len(),
                total == old(self).buf@ + new_data@,
                self.buf@ == total,
                chunk_feed(total).0 == chunk_feed(total.skip(pos as int)).0,
                chunk_feed(total).2 == chunk_feed(total.skip(pos as int)).2,
                old(out)@ + chunk_feed(total).1 == out@ + chunk_feed(total.skip(pos as int)).1,
            decreases self.buf@.len() - pos,
        {
            let ghost t = total.skip(pos as int);
            match find_crlf(&self.buf, pos) {
                None => {
                    assert(first_crlf(t, 0) is None);
                    assert(chunk_feed(t).0 == ChunkOutcome::Continue);
                    let kept = vstd::slice::slice_to_vec(
                        vstd::slice::slice_subrange(self.buf.as_slice(), pos, self.buf.len()),
                    );
                    assert(kept@ =~= t);
                    assert(out@ + Seq::<u8>::empty() =~= out@);
                    self.buf = kept;
                    return ChunkOutcome::Continue;
                },
                Some(c) => {
                    let ghost crlf = first_crlf(t, 0).unwrap();
                    proof {
                        lemma_first_crlf_bound(t, 0);
                        assert(crlf_at(t, crlf as int));
                        assert(self.buf@.skip(pos as int) == t);
                        assert(crlf + pos < self.buf.len());
                        assert(c == crlf + pos);
                    }
                    let size_slice = vstd::slice::slice_subrange(self.buf.as_slice(), pos, c);
                    assert(size_slice@ =~= t.take(crlf as int));
                    match str_from_utf8(size_slice) {
                        None => {
                            self.buf = Vec::new();
                            assert(out@ + Seq::<u8>::empty() =~= out@);
                            return ChunkOutcome::Malformed("non-UTF8 chunk size");
                        },
                        Some(text) => {
                            proof {
                                encode_utf8_decode_utf8(text@);
                            }
                            match parse_chunk_size(text) {
                                None => {
                                    self.buf = Vec::new();
                                    assert(out@ + Seq::<u8>::empty() =~= out@);
                                    return ChunkOutcome::Malformed("invalid chunk size");
                                },
                                Some(size) => {
                                    if size == 0 {
                                        self.buf = Vec::new();
                                        assert(out@ + Seq::<u8>::empty() =~= out@);
                                        return ChunkOutcome::Terminated;
                                    }
                                    let start = c + 2;
                                    if self.buf.len() - start < 2 || size > self.buf.len() - start
                                        - 2 {
                                        let kept = vstd::slice::slice_to_vec(
                                            vstd::slice::slice_subrange(
                                                self.buf.as_slice(),
                                                pos,
                                                self.buf.len(),
                                            ),
                                        );
                                        assert(kept@ =~= t);
                                        assert(out@ + Seq::<u8>::empty() =~= out@);
                                        self.buf = kept;
                                        return ChunkOutcome::Continue;
                                    }
                                    let ghost out_before = out@;
                                    let stop = start + size;
                                    let mut k = start;
                                    while k < stop
                                        invariant
                                            stop == start + size,
                                            start <= k <= stop <= self.buf@.len(),
                                            self.buf@ == total,
                                            out@ == out_before + total.subrange(
                                                start as int,
                                                k as int,
                                            ),
                                        decreases stop - k,
                                    {
                                        out.push(self.buf[k]);
                                        k = k + 1;
                                        assert(out@ =~= out_before + total.subrange(
                                            start as int,
                                            k as int,
                                        ));
                                    }
                                    let end = start + size + 2;
                                    proof {
                                        let s0 = (crlf + 2) as int;
                                        assert(t.subrange(s0, s0 + size) =~= total.subrange(
                                            start as int,
                                            start + size,
                                        ));
                                        assert(t.skip(s0 + size + 2) =~= total.skip(end as int));
                                        let a = total.subrange(start as int, start + size);
                                        let b = chunk_feed(total.skip(end as int)).1;
                                        assert(out_before + (a + b) =~= (out_before + a) + b);
                                    }
                                    pos = end;
                                },
                            }
                        },
                    }
                },
            }
        }
    }
}

// ── A well-formed stream, whole or in pieces ───────────────────────────

/// The lower-case hexadecimal digit for `d < 16`.
pub open spec fn hex_lower_char(d: nat) -> char {
    if d == 0 { '0' } else if d == 1 { '1' } else if d == 2 { '2' } else if d == 3 { '3' }
    else if d == 4 { '4' } else if d == 5 { '5' } else if d == 6 { '6' } else if d == 7 { '7' }
    else if d == 8 { '8' } else if d == 9 { '9' } else if d == 10 { 'a' } else if d == 11 { 'b' }
    else if d == 12 { 'c' } else if d == 13 { 'd' } else if d == 14 { 'e' } else { 'f' }
}

/// `n` in lower-case hexadecimal, without leading zeros.
pub open spec fn hex_text(n: nat) -> Seq<char>
    decreases n,
{
    if n < 16 {
        seq![hex_lower_char(n)]
    } else {
        hex_text(n / 16).push(hex_lower_char(n % 16))
    }
}

/// One chunk carrying `d`: its size in hex, CRLF, the data, CRLF.
pub open spec fn chunk_bytes(d: Seq<u8>) -> Seq<u8> {
    encode_utf8(hex_text(d.len())) + seq![13u8, 10u8] + d + seq![13u8, 10u8]
}

/// The stream carrying the chunks `ds` in order, ended by the zero-size
/// chunk `0\r\n\r\n`.
pub open spec fn chunked_stream(ds: Seq<Seq<u8>>) -> Seq<u8>
    decreases ds.len(),
{
    if ds.len() == 0 {
        seq![48u8, 13u8, 10u8, 13u8, 10u8]
    } else {
        chunk_bytes(ds[0]) + chunked_stream(ds.drop_first())
    }
}

/// The pieces of `ds` one after another.
pub open spec fn concat_all(ds: Seq<Seq<u8>>) -> Seq<u8>
    decreases ds.len(),
{
    if ds.len() == 0 {
        Seq::empty()
    } else {
        ds[0] + concat_all(ds.drop_first())
    }
}

/// Chunks that a stream can carry: none is empty (a zero size ends the
/// stream) and every size fits a `usize`.
pub open spec fn chunks_valid(ds: Seq<Seq<u8>>) -> bool {
    forall|i: int| 0 <= i < ds.len() ==> 0 < (#[trigger] ds[i]).len() <= usize::MAX
}

/// Feeding `pieces` in order, one [`ChunkDecoder::feed`] call each, to a
/// decoder holding `buf`: the outcomes of the calls, the data written, and
/// the bytes then held. Feeding stops after the first call that does not
/// return [`ChunkOutcome::Continue`].
pub open spec fn feed_pieces(buf: Seq<u8>, pieces: Seq<Seq<u8>>) -> (
    Seq<ChunkOutcome>,
    Seq<u8>,
    Seq<u8>,
)
    decreases pieces.len(),
{
    if pieces.len() == 0 {
        (Seq::empty(), Seq::empty(), buf)
    } else {
        let r = chunk_feed(buf + pieces[0]);
        if r.0 == ChunkOutcome::Continue {
            let n = feed_pieces(r.2, pieces.drop_first());
            (seq![r.0] + n.0, r.1 + n.1, n.2)
        } else {
            (seq![r.0], r.1, r.2)
        }
    }
}

proof fn lemma_hex_lower_char(d: nat)
    requires
        d < 16,
    ensures
        hex_digit_value(hex_lower_char(d)) == Some(d),
{
}

proof fn lemma_hex_text(n: nat)
    ensures
        hex_text(n).len() > 0,
        all_hex_digits(hex_text(n)),
        hex_value(hex_text(n)) == n,
        is_ascii_chars(hex_text(n)),
        forall|i: int|
            0 <= i < hex_text(n).len() ==> !is_unicode_whitespace(#[trigger] hex_text(n)[i])
                && hex_text(n)[i] != '+' && (hex_text(n)[i] as u32) != 13,
    decreases n,
{
    if n < 16 {
        lemma_hex_lower_char(n);
        assert(hex_text(n).drop_last() =~= Seq::<char>::empty());
        assert(hex_value(Seq::<char>::empty()) == 0);
        assert(hex_value(hex_text(n)) == n);
    } else {
        lemma_hex_text(n / 16);
        let t = hex_text(n);
        assert(t.drop_last() =~= hex_text(n / 16));
        assert(n == (n / 16) * 16 + n % 16);
        lemma_hex_lower_char(n % 16);
        assert(t.last() == hex_lower_char(n % 16));
        assert(hex_value(t) == hex_value(hex_text(n / 16)) * 16 + n % 16);
        assert forall|i: int| 0 <= i < t.len() implies '\0' <= #[trigger] t[i] <= '\u{7f}' by {
            if i < t.len() - 1 {
                assert(t[i] == hex_text(n / 16)[i]);
            }
        }
        assert forall|i: int| 0 <= i < t.len() implies (#[trigger] hex_digit_value(t[i])) is Some by {
            if i < t.len() - 1 {
                assert(t[i] == hex_text(n / 16)[i]);
            }
        }
        assert forall|i: int| 0 <= i < t.len() implies !is_unicode_whitespace(#[trigger] t[i])
            && t[i] != '+' && (t[i] as u32) != 13 by {
            if i < t.len() - 1 {
                assert(t[i] == hex_text(n / 16)[i]);
            }
        }
    }
}

/// The size line of a chunk of `n` bytes holds no carriage return and
/// reads back as `n`.
proof fn lemma_size_line(n: nat)
    requires
        n <= usize::MAX,
    ensures
        valid_utf8(encode_utf8(hex_text(n))),
        parse_hex_usize(trim_ws(decode_utf8(encode_utf8(hex_text(n))))) == Some(n as usize),
        forall|i: int|
            0 <= i < encode_utf8(hex_text(n)).len() ==> #[trigger] encode_utf8(hex_text(n))[i]
                != 13,
{
    let t = hex_text(n);
    lemma_hex_text(n);
    encode_utf8_valid_utf8(t);
    encode_utf8_decode_utf8(t);
    is_ascii_chars_encode_utf8(t);
    assert(!is_unicode_whitespace(t[0]));
    assert(!is_unicode_whitespace(t[t.len() - 1]));
    assert(trim_start_ws(t) == t);
    assert(trim_end_ws(t) == t);
    assert forall|i: int| 0 <= i < encode_utf8(t).len() implies #[trigger] encode_utf8(t)[i] != 13 by {
        assert(t[i] as u8 == encode_utf8(t)[i]);
        assert((t[i] as u32) != 13);
        assert((t[i] as u32) < 128);
    }
}

proof fn lemma_first_crlf_skip(s: Seq<u8>, from: nat, m: nat)
    requires
        from <= m <= s.len(),
        forall|i: int| from <= i < m ==> s[i] != 13,
    ensures
        first_crlf(s, from) == first_crlf(s, m),
    decreases m - from,
{
    if from < m && from + 1 < s.len() {
        assert(!crlf_at(s, from as int));
        lemma_first_crlf_skip(s, from + 1, m);
    }
}

/// What every prefix of a well-formed stream decodes to: more data is
/// needed until the line `0\r\n` is complete, and then the stream has
/// ended with all the chunks' data written.
proof fn lemma_stream_prefix(ds: Seq<Seq<u8>>, k: int)
    requires
        chunks_valid(ds),
        0 <= k <= chunked_stream(ds).len(),
    ensures
        k + 2 >= chunked_stream(ds).len() ==> chunk_feed(chunked_stream(ds).take(k)).0
            == ChunkOutcome::Terminated && chunk_feed(chunked_stream(ds).take(k)).1 == concat_all(
            ds,
        ),
        k + 2 < chunked_stream(ds).len() ==> chunk_feed(chunked_stream(ds).take(k)).0
            == ChunkOutcome::Continue,
    decreases ds.len(),
{
    let s = chunked_stream(ds);
    let p = s.take(k);
    if ds.len() == 0 {
        if k >= 3 {
            assert(!crlf_at(p, 0));
            assert(crlf_at(p, 1));
            assert(first_crlf(p, 1) == Some(1nat));
            assert(first_crlf(p, 0) == Some(1nat));
            lemma_size_line(0);
            is_ascii_chars_encode_utf8(hex_text(0));
            assert(hex_text(0) == seq!['0']);
            assert(p.take(1) =~= encode_utf8(hex_text(0)));
            assert(concat_all(ds) =~= Seq::<u8>::empty());
        } else {
            if k == 2 {
                assert(!crlf_at(p, 0));
            }
            assert(first_crlf(p, 0) is None);
        }
    } else {
        let d = ds[0];
        let rest = ds.drop_first();
        let h = encode_utf8(hex_text(d.len()));
        let hl = h.len() as int;
        let c = chunk_bytes(d);
        let sr = chunked_stream(rest);
        assert(chunks_valid(rest)) by {
            assert forall|i: int| 0 <= i < rest.len() implies 0 < (#[trigger] rest[i]).len()
                <= usize::MAX by {
                assert(rest[i] == ds[i + 1]);
            }
        }
        assert(0 < ds[0].len() <= usize::MAX);
        lemma_size_line(d.len());
        assert(s == c + sr);
        assert(sr.len() >= 5) by {
            if rest.len() > 0 {
                assert(sr == chunk_bytes(rest[0]) + chunked_stream(rest.drop_first()));
            }
        }
        let m = if k < hl { k } else { hl };
        assert forall|i: int| 0 <= i < m implies p[i] != 13 by {
            assert(p[i] == h[i]);
        }
        lemma_first_crlf_skip(p, 0, m as nat);
        if k < hl + 2 {
            assert(first_crlf(p, m as nat) is None);
        } else {
            assert(crlf_at(p, hl));
            assert(first_crlf(p, hl as nat) == Some(hl as nat));
            assert(p.take(hl) =~= h);
            let start = hl + 2;
            let end = start + d.len() + 2;
            assert(end == c.len());
            if k >= end {
                let k2 = k - end;
                assert(p.skip(end) =~= sr.take(k2));
                assert(p.subrange(start, start + d.len()) =~= d);
                lemma_stream_prefix(rest, k2);
                assert(concat_all(ds) == d + concat_all(rest));
            }
        }
    }
}

proof fn lemma_feed_rest(ds: Seq<Seq<u8>>, q: Seq<u8>, ps: Seq<Seq<u8>>)
    requires
        chunks_valid(ds),
        q + concat_all(ps) == chunked_stream(ds),
        chunk_feed(q).0 == ChunkOutcome::Continue,
    ensures
        ({
            let f = feed_pieces(chunk_feed(q).2, ps);
            &&& f.0.len() > 0
            &&& f.0.last() == ChunkOutcome::Terminated
            &&& forall|i: int| 0 <= i < f.0.len() - 1 ==> f.0[i] == ChunkOutcome::Continue
            &&& chunk_feed(q).1 + f.1 == concat_all(ds)
        }),
    decreases ps.len(),
{
    let s = chunked_stream(ds);
    if ps.len() == 0 {
        assert(q + concat_all(ps) =~= q);
        assert(s.take(s.len() as int) =~= s);
        lemma_stream_prefix(ds, s.len() as int);
    } else {
        let p = ps[0];
        let rest = ps.drop_first();
        let q1 = q + p;
        lemma_feed_split(q, p);
        assert(q1 + concat_all(rest) =~= s);
        assert(s.take(q1.len() as int) =~= q1);
        lemma_stream_prefix(ds, q1.len() as int);
        let r = chunk_feed(chunk_feed(q).2 + p);
        let f = feed_pieces(chunk_feed(q).2, ps);
        if q1.len() + 2 >= s.len() {
            assert(f == (seq![r.0], r.1, r.2));
        } else {
            lemma_feed_rest(ds, q1, rest);
            let n = feed_pieces(r.2, rest);
            assert(f == (seq![r.0] + n.0, r.1 + n.1, n.2));
            assert forall|i: int| 0 <= i < f.0.len() - 1 implies f.0[i] == ChunkOutcome::Continue by {
                if i > 0 {
                    assert(f.0[i] == n.0[i - 1]);
                }
            }
            assert(chunk_feed(q).1 + (r.1 + n.1) =~= (chunk_feed(q).1 + r.1) + n.1);
        }
    }
}

/// A well-formed stream cut at arbitrary points and fed piece by piece to
/// a new decoder: every call returns `Continue` until the one that completes
/// the line `0\r\n`, which returns `Terminated`, and by then the data written
/// is the chunks' data, whatever the cut points.
pub proof fn lemma_feed_stream(ds: Seq<Seq<u8>>, pieces: Seq<Seq<u8>>)
    requires
        chunks_valid(ds),
        concat_all(pieces) == chunked_stream(ds),
    ensures
        ({
            let f = feed_pieces(Seq::<u8>::empty(), pieces);
            &&& f.0.len() > 0
            &&& f.0.last() == ChunkOutcome::Terminated
            &&& forall|i: int| 0 <= i < f.0.len() - 1 ==> f.0[i] == ChunkOutcome::Continue
            &&& f.1 == concat_all(ds)
        }),
{
    let q = Seq::<u8>::empty();
    assert(first_crlf(q, 0) is None);
    assert(q + concat_all(pieces) =~= concat_all(pieces));
    lemma_feed_rest(ds, q, pieces);
    let f = feed_pieces(q, pieces);
    assert(q + f.1 =~= f.1);
}

/// The upper-case hexadecimal digit for `d < 16`.
pub open spec fn hex_upper_char(d: nat) -> char {
    if d == 0 { '0' } else if d == 1 { '1' } else if d == 2 { '2' } else if d == 3 { '3' }
    else if d == 4 { '4' } else if d == 5 { '5' } else if d == 6 { '6' } else if d == 7 { '7' }
    else if d == 8 { '8' } else if d == 9 { '9' } else if d == 10 { 'A' } else if d == 11 { 'B' }
    else if d == 12 { 'C' } else if d == 13 { 'D' } else if d == 14 { 'E' } else { 'F' }
}

/// `n` in upper-case hexadecimal, without leading zeros.
pub open spec fn hex_text_upper(n: nat) -> Seq<char>
    decreases n,
{
    if n < 16 {
        seq![hex_upper_char(n)]
    } else {
        hex_text_upper(n / 16).push(hex_upper_char(n % 16))
    }
}

proof fn lemma_hex_text_upper(n: nat)
    ensures
        hex_text_upper(n).len() > 0,
        all_hex_digits(hex_text_upper(n)),
        hex_value(hex_text_upper(n)) == n,
        !is_unicode_whitespace(hex_text_upper(n)[0]),
        !is_unicode_whitespace(hex_text_upper(n).last()),
        hex_text_upper(n)[0] != '+',
    decreases n,
{
    let t = hex_text_upper(n);
    if n < 16 {
        assert(hex_digit_value(hex_upper_char(n)) == Some(n));
        assert(t.drop_last() =~= Seq::<char>::empty());
        assert(hex_value(Seq::<char>::empty()) == 0);
        assert(hex_value(t) == n);
    } else {
        lemma_hex_text_upper(n / 16);
        assert(t.drop_last() =~= hex_text_upper(n / 16));
        assert(n == (n / 16) * 16 + n % 16);
        assert(hex_digit_value(hex_upper_char(n % 16)) == Some(n % 16));
        assert(t.last() == hex_upper_char(n % 16));
        assert(hex_value(t) == hex_value(hex_text_upper(n / 16)) * 16 + n % 16);
        assert(t[0] == hex_text_upper(n / 16)[0]);
        assert forall|i: int| 0 <= i < t.len() implies (#[trigger] hex_digit_value(t[i])) is Some by {
            if i < t.len() - 1 {
                assert(t[i] == hex_text_upper(n / 16)[i]);
            }
        }
    }
}

/// A chunk-size line holding `n` in hexadecimal, in lower or in upper
/// case, reads as `n`.
pub proof fn lemma_parse_hex_text(n: nat)
    requires
        n <= usize::MAX,
    ensures
        parse_hex_usize(trim_ws(hex_text(n))) == Some(n as usize),
        parse_hex_usize(trim_ws(hex_text_upper(n))) == Some(n as usize),
{
    lemma_hex_text(n);
    lemma_hex_text_upper(n);
    let t = hex_text(n);
    let u = hex_text_upper(n);
    assert(!is_unicode_whitespace(t[0]));
    assert(!is_unicode_whitespace(t[t.len() - 1]));
    assert(trim_start_ws(t) == t);
    assert(trim_end_ws(t) == t);
    assert(trim_start_ws(u) == u);
    assert(trim_end_ws(u) == u);
}

} // verus!
