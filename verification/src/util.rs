//! Byte-buffer writers shared by the device and cloud request builders:
//! plain copies, JSON string escaping and RFC 3986 percent-encoding.

use vstd::prelude::*;
use crate::error::Error;

verus! {

// ── Specifications ─────────────────────────────────────────────────────

/// `new` is `old` with `piece` written at `offset` and everything else kept.
pub open spec fn written_at(old: Seq<u8>, new: Seq<u8>, offset: int, piece: Seq<u8>) -> bool {
    new == old.take(offset) + piece + old.skip(offset + piece.len())
}

/// After a failed write of `full` at `offset`: some proper prefix of `full`
/// was written there and the rest of the buffer is unchanged.
pub open spec fn wrote_proper_prefix(old: Seq<u8>, new: Seq<u8>, offset: int, full: Seq<u8>) -> bool {
    exists|k: int|
        0 <= k < full.len() && offset + k <= old.len() && #[trigger] written_at(
            old,
            new,
            offset,
            full.take(k),
        )
}

/// JSON string escaping of one byte: `\`, `"`, newline, carriage return and
/// tab get a backslash escape, every other byte below `0x20` becomes
/// `\u00XX` (upper-case hex), and every other byte is kept.
pub open spec fn json_escape_byte(b: u8) -> Seq<u8> {
    if b == 0x5c {
        seq![0x5cu8, 0x5cu8]
    } else if b == 0x22 {
        seq![0x5cu8, 0x22u8]
    } else if b == 0x0a {
        seq![0x5cu8, 0x6eu8]
    } else if b == 0x0d {
        seq![0x5cu8, 0x72u8]
    } else if b == 0x09 {
        seq![0x5cu8, 0x74u8]
    } else if b < 0x20 {
        seq![0x5cu8, 0x75u8, 0x30u8, 0x30u8, hex_upper(b as nat / 16), hex_upper(b as nat % 16)]
    } else {
        seq![b]
    }
}

/// JSON string escaping of a byte string.
pub open spec fn json_escaped(s: Seq<u8>) -> Seq<u8>
    decreases s.len(),
{
    if s.len() == 0 {
        Seq::empty()
    } else {
        json_escaped(s.drop_last()) + json_escape_byte(s.last())
    }
}

/// The RFC 3986 unreserved set: `A-Z a-z 0-9 - . _ ~`.
pub open spec fn is_unreserved(b: u8) -> bool {
    (0x41 <= b <= 0x5a) || (0x61 <= b <= 0x7a) || (0x30 <= b <= 0x39) || b == 0x2d || b == 0x2e
        || b == 0x5f || b == 0x7e
}

/// The upper-case hexadecimal digit for `n < 16`.
pub open spec fn hex_upper(n: nat) -> u8 {
    if n < 10 {
        (n + 48) as u8
    } else {
        (n + 55) as u8
    }
}

/// Percent-encoding of one byte.
pub open spec fn url_encode_byte(b: u8) -> Seq<u8> {
    if is_unreserved(b) {
        seq![b]
    } else {
        seq![0x25u8, hex_upper(b as nat / 16), hex_upper(b as nat % 16)]
    }
}

/// Percent-encoding of a byte string.
pub open spec fn url_encoded(s: Seq<u8>) -> Seq<u8>
    decreases s.len(),
{
    if s.len() == 0 {
        Seq::empty()
    } else {
        url_encoded(s.drop_last()) + url_encode_byte(s.last())
    }
}

pub proof fn lemma_json_escaped_concat(a: Seq<u8>, b: Seq<u8>)
    ensures
        json_escaped(a + b) == json_escaped(a) + json_escaped(b),
    decreases b.len(),
{
    if b.len() == 0 {
        assert(a + b =~= a);
        assert(json_escaped(a) + json_escaped(b) =~= json_escaped(a));
    } else {
        assert((a + b).drop_last() =~= a + b.drop_last());
        lemma_json_escaped_concat(a, b.drop_last());
        assert(json_escaped(a + b) =~= json_escaped(a) + json_escaped(b));
    }
}

pub proof fn lemma_url_encoded_concat(a: Seq<u8>, b: Seq<u8>)
    ensures
        url_encoded(a + b) == url_encoded(a) + url_encoded(b),
    decreases b.len(),
{
    if b.len() == 0 {
        assert(a + b =~= a);
        assert(url_encoded(a) + url_encoded(b) =~= url_encoded(a));
    } else {
        assert((a + b).drop_last() =~= a + b.drop_last());
        lemma_url_encoded_concat(a, b.drop_last());
        assert(url_encoded(a + b) =~= url_encoded(a) + url_encoded(b));
    }
}

/// Escaping a prefix yields a prefix of the escaping.
pub proof fn lemma_json_escaped_prefix(s: Seq<u8>, j: int)
    requires
        0 <= j <= s.len(),
    ensures
        json_escaped(s.take(j)).len() <= json_escaped(s).len(),
        json_escaped(s).take(json_escaped(s.take(j)).len() as int) == json_escaped(s.take(j)),
{
    assert(s =~= s.take(j) + s.skip(j));
    lemma_json_escaped_concat(s.take(j), s.skip(j));
    assert(json_escaped(s).take(json_escaped(s.take(j)).len() as int) =~= json_escaped(s.take(j)));
}

pub proof fn lemma_url_encoded_prefix(s: Seq<u8>, j: int)
    requires
        0 <= j <= s.len(),
    ensures
        url_encoded(s.take(j)).len() <= url_encoded(s).len(),
        url_encoded(s).take(url_encoded(s.take(j)).len() as int) == url_encoded(s.take(j)),
{
    assert(s =~= s.take(j) + s.skip(j));
    lemma_url_encoded_concat(s.take(j), s.skip(j));
    assert(url_encoded(s).take(url_encoded(s.take(j)).len() as int) =~= url_encoded(s.take(j)));
}

// ── Writers ────────────────────────────────────────────────────────────

/// Copy `src` into `dst` at `offset`. Returns bytes written.
pub fn copy_slice(dst: &mut [u8], offset: usize, src: &[u8]) -> (r: Result<usize, Error>)
    requires
        offset + src@.len() <= usize::MAX,
    ensures
        offset + src@.len() <= old(dst)@.len() ==> (r matches Ok(n) && n == src@.len())
            && written_at(old(dst)@, final(dst)@, offset as int, src@),
        offset + src@.len() > old(dst)@.len() ==> r == Err::<usize, Error>(Error::BufferTooSmall)
            && final(dst)@ == old(dst)@,
{
    let end = offset + src.len();
    if end > dst.len() {
        return Err(Error::BufferTooSmall);
    }
    let mut i: usize = 0;
    while i < src.len()
        invariant
            end == offset + src@.len(),
            end <= dst@.len(),
            i <= src@.len(),
            dst@.len() == old(dst)@.len(),
            forall|k: int| 0 <= k < offset ==> dst@[k] == old(dst)@[k],
            forall|k: int| end <= k < dst@.len() ==> dst@[k] == old(dst)@[k],
            forall|k: int| 0 <= k < i ==> dst@[offset + k] == src@[k],
        decreases src@.len() - i,
    {
        dst[offset + i] = src[i];
        i = i + 1;
    }
    assert(final(dst)@ =~= old(dst)@.take(offset as int) + src@ + old(dst)@.skip(offset + src@.len()));
    Ok(src.len())
}

fn json_escape_piece(b: u8) -> (r: ([u8; 6], usize))
    ensures
        1 <= r.1 <= 6,
        r.0@.take(r.1 as int) == json_escape_byte(b),
{
    let r: ([u8; 6], usize) = if b == 0x5c {
        ([0x5c, 0x5c, 0, 0, 0, 0], 2)
    } else if b == 0x22 {
        ([0x5c, 0x22, 0, 0, 0, 0], 2)
    } else if b == 0x0a {
        ([0x5c, 0x6e, 0, 0, 0, 0], 2)
    } else if b == 0x0d {
        ([0x5c, 0x72, 0, 0, 0, 0], 2)
    } else if b == 0x09 {
        ([0x5c, 0x74, 0, 0, 0, 0], 2)
    } else if b < 0x20 {
        let hi = hex_digit_upper(b / 16);
        let lo = hex_digit_upper(b % 16);
        ([0x5c, 0x75, 0x30, 0x30, hi, lo], 6)
    } else {
        ([b, 0, 0, 0, 0, 0], 1)
    };
    assert(r.0@.take(r.1 as int) =~= json_escape_byte(b));
    r
}

/// JSON-escape `src` into `dst` starting at `offset`, returning bytes written.
pub fn json_escape_at(dst: &mut [u8], offset: usize, src: &[u8]) -> (r: Result<usize, Error>)
    requires
        offset <= old(dst)@.len(),
    ensures
        final(dst)@.len() == old(dst)@.len(),
        offset + json_escaped(src@).len() <= old(dst)@.len() ==> (r matches Ok(n) && n == json_escaped(src@).len()) && written_at(old(dst)@, final(dst)@, offset as int, json_escaped(src@)),
        offset + json_escaped(src@).len() > old(dst)@.len() ==> r == Err::<usize, Error>(
            Error::BufferTooSmall,
        ) && exists|j: int|
            0 <= j < src@.len() && offset + json_escaped(#[trigger] src@.take(j)).len()
                <= old(dst)@.len() < offset + json_escaped(src@.take(j + 1)).len() && written_at(
                old(dst)@,
                final(dst)@,
                offset as int,
                json_escaped(src@.take(j)),
            ),
{
    let mut len: usize = 0;
    let mut i: usize = 0;
    assert(src@.take(0) =~= Seq::<u8>::empty());
    assert(dst@ =~= old(dst)@.take(offset as int) + json_escaped(src@.take(0)) + old(dst)@.skip(offset as int));
    while i < src.len()
        invariant
            i <= src@.len(),
            offset <= dst@.len(),
            dst@.len() == old(dst)@.len(),
            len == json_escaped(src@.take(i as int)).len(),
            offset + len <= dst@.len(),
            written_at(old(dst)@, dst@, offset as int, json_escaped(src@.take(i as int))),
        decreases src@.len() - i,
    {
        let b = src[i];
        let (piece, width) = json_escape_piece(b);
        assert(src@.take(i + 1).drop_last() =~= src@.take(i as int));
        assert(json_escaped(src@.take(i + 1)) == json_escaped(src@.take(i as int)) + json_escape_byte(b));
        if width > dst.len() - offset - len {
            proof {
                lemma_json_escaped_prefix(src@, i + 1);
                lemma_json_escaped_prefix(src@, i as int);
                assert(json_escaped(src@) == json_escaped(src@.take(i + 1)) + json_escaped(src@.skip(i + 1))) by {
                    assert(src@ =~= src@.take(i + 1) + src@.skip(i + 1));
                    lemma_json_escaped_concat(src@.take(i + 1), src@.skip(i + 1));
                }
            }
            return Err(Error::BufferTooSmall);
        }
        let ghost before = dst@;
        let base = offset + len;
        let end = base + width;
        let mut k: usize = 0;
        while k < width
            invariant
                k <= width <= 6,
                end == base + width,
                end <= dst@.len(),
                dst@.len() == before.len(),
                forall|t: int| 0 <= t < base ==> dst@[t] == before[t],
                forall|t: int| base + k <= t < dst@.len() ==> dst@[t] == before[t],
                forall|t: int| 0 <= t < k ==> dst@[base + t] == piece@[t],
            decreases width - k,
        {
            dst[base + k] = piece[k];
            k = k + 1;
        }
        assert(dst@ =~= before.take(base as int) + piece@.take(width as int) + before.skip(end as int));
        assert(dst@ =~= old(dst)@.take(offset as int) + json_escaped(src@.take(i + 1)) + old(dst)@.skip(
            offset + json_escaped(src@.take(i + 1)).len(),
        ));
        len = len + width;
        i = i + 1;
    }
    assert(src@.take(i as int) =~= src@);
    Ok(len)
}

/// JSON-escape `src` into `dst`, returning bytes written.
pub fn json_escape_into(dst: &mut [u8], src: &[u8]) -> (r: Result<usize, Error>)
    ensures
        final(dst)@.len() == old(dst)@.len(),
        json_escaped(src@).len() <= old(dst)@.len() ==> (r matches Ok(n) && n == json_escaped(src@).len()) && written_at(old(dst)@, final(dst)@, 0, json_escaped(src@)),
        json_escaped(src@).len() > old(dst)@.len() ==> r == Err::<usize, Error>(
            Error::BufferTooSmall,
        ) && exists|j: int|
            0 <= j < src@.len() && json_escaped(#[trigger] src@.take(j)).len() <= old(dst)@.len()
                < json_escaped(src@.take(j + 1)).len() && written_at(
                old(dst)@,
                final(dst)@,
                0,
                json_escaped(src@.take(j)),
            ),
{
    json_escape_at(dst, 0, src)
}

fn hex_digit_upper(n: u8) -> (d: u8)
    requires
        n < 16,
    ensures
        d == hex_upper(n as nat),
{
    if n < 10 {
        48 + n
    } else {
        55 + n
    }
}

fn unreserved(b: u8) -> (r: bool)
    ensures
        r == is_unreserved(b),
{
    (0x41 <= b && b <= 0x5a) || (0x61 <= b && b <= 0x7a) || (0x30 <= b && b <= 0x39) || b == 0x2d
        || b == 0x2e || b == 0x5f || b == 0x7e
}

/// Percent-encode `src` into `dst` starting at `offset`, returning bytes written.
pub fn url_encode_at(dst: &mut [u8], offset: usize, src: &[u8]) -> (r: Result<usize, Error>)
    requires
        offset <= old(dst)@.len(),
    ensures
        final(dst)@.len() == old(dst)@.len(),
        offset + url_encoded(src@).len() <= old(dst)@.len() ==> (r matches Ok(n) && n == url_encoded(src@).len()) && written_at(old(dst)@, final(dst)@, offset as int, url_encoded(src@)),
        offset + url_encoded(src@).len() > old(dst)@.len() ==> r == Err::<usize, Error>(
            Error::BufferTooSmall,
        ) && exists|j: int|
            0 <= j < src@.len() && offset + url_encoded(#[trigger] src@.take(j)).len()
                <= old(dst)@.len() < offset + url_encoded(src@.take(j + 1)).len() && written_at(
                old(dst)@,
                final(dst)@,
                offset as int,
                url_encoded(src@.take(j)),
            ),
{
    let mut len: usize = 0;
    let mut i: usize = 0;
    assert(src@.take(0) =~= Seq::<u8>::empty());
    assert(dst@ =~= old(dst)@.take(offset as int) + url_encoded(src@.take(0)) + old(dst)@.skip(offset as int));
    while i < src.len()
        invariant
            i <= src@.len(),
            offset <= dst@.len(),
            dst@.len() == old(dst)@.len(),
            len == url_encoded(src@.take(i as int)).len(),
            offset + len <= dst@.len(),
            written_at(old(dst)@, dst@, offset as int, url_encoded(src@.take(i as int))),
        decreases src@.len() - i,
    {
        let b = src[i];
        assert(src@.take(i + 1).drop_last() =~= src@.take(i as int));
        assert(url_encoded(src@.take(i + 1)) == url_encoded(src@.take(i as int)) + url_encode_byte(b));
        let keep = unreserved(b);
        let width: usize = if keep { 1 } else { 3 };
        if width > dst.len() - offset - len {
            proof {
                lemma_url_encoded_prefix(src@, i + 1);
                lemma_url_encoded_prefix(src@, i as int);
            }
            return Err(Error::BufferTooSmall);
        }
        if keep {
            dst[offset + len] = b;
        } else {
            dst[offset + len] = 0x25;
            let hi = hex_digit_upper(b / 16);
            let lo = hex_digit_upper(b % 16);
            dst[offset + len + 1] = hi;
            dst[offset + len + 2] = lo;
        }
        assert(dst@ =~= old(dst)@.take(offset as int) + url_encoded(src@.take(i + 1)) + old(dst)@.skip(
            offset + url_encoded(src@.take(i + 1)).len(),
        ));
        len = len + width;
        i = i + 1;
    }
    assert(src@.take(i as int) =~= src@);
    Ok(len)
}

/// Percent-encode `src` into `dst` per RFC 3986 (unreserved set:
/// `A-Z a-z 0-9 - . _ ~`). Returns bytes written.
pub fn url_encode_into(dst: &mut [u8], src: &[u8]) -> (r: Result<usize, Error>)
    ensures
        final(dst)@.len() == old(dst)@.len(),
        url_encoded(src@).len() <= old(dst)@.len() ==> (r matches Ok(n) && n == url_encoded(src@).len()) && written_at(old(dst)@, final(dst)@, 0, url_encoded(src@)),
        url_encoded(src@).len() > old(dst)@.len() ==> r == Err::<usize, Error>(
            Error::BufferTooSmall,
        ) && exists|j: int|
            0 <= j < src@.len() && url_encoded(#[trigger] src@.take(j)).len() <= old(dst)@.len()
                < url_encoded(src@.take(j + 1)).len() && written_at(
                old(dst)@,
                final(dst)@,
                0,
                url_encoded(src@.take(j)),
            ),
{
    url_encode_at(dst, 0, src)
}

// ── Sequential writers ─────────────────────────────────────────────────
//
// The request builders write a known output `full` piece by piece. These
// helpers append the next piece at `len`, keeping "the first `len` bytes of
// `full` are in place" and, on overflow, "a proper prefix of `full` was
// written".

pub(crate) fn append_copy(
    dst: &mut [u8],
    len: usize,
    piece: &[u8],
    Ghost(orig): Ghost<Seq<u8>>,
    Ghost(full): Ghost<Seq<u8>>,
) -> (r: Result<usize, Error>)
    requires
        old(dst)@.len() == orig.len(),
        len <= orig.len(),
        written_at(orig, old(dst)@, 0, full.take(len as int)),
        len + piece@.len() <= full.len(),
        full.subrange(len as int, len + piece@.len()) == piece@,
    ensures
        final(dst)@.len() == orig.len(),
        r is Ok <==> len + piece@.len() <= orig.len(),
        r matches Ok(n) ==> n == len + piece@.len() && written_at(orig, final(dst)@, 0, full.take(n as int)),
        r is Err ==> r == Err::<usize, Error>(Error::BufferTooSmall) && full.len() > orig.len()
            && wrote_proper_prefix(orig, final(dst)@, 0, full),
{
    let ghost mid = dst@;
    let ghost e = piece@;
    if piece.len() > dst.len() - len {
        assert(written_at(orig, final(dst)@, 0, full.take(len as int)));
        return Err(Error::BufferTooSmall);
    }
    match copy_slice(dst, len, piece) {
        Ok(n) => {
            assert(len + e.len() <= mid.len());
            assert(n == e.len());
            assert(mid.take(len as int) =~= full.take(len as int));
            assert(mid.skip(len + e.len()) =~= orig.skip(len + e.len()));
            assert(full.take(len + e.len()) =~= full.take(len as int) + e);
            assert(final(dst)@ =~= orig.take(0) + full.take(len + n) + orig.skip(len + n));
            let cap = dst.len();
            assert(len + n <= cap);
            Ok(len + n)
        },
        Err(e) => {
            assert(written_at(orig, final(dst)@, 0, full.take(len as int)));
            Err(e)
        },
    }
}

pub(crate) fn append_json_escaped(
    dst: &mut [u8],
    len: usize,
    src: &[u8],
    Ghost(orig): Ghost<Seq<u8>>,
    Ghost(full): Ghost<Seq<u8>>,
) -> (r: Result<usize, Error>)
    requires
        old(dst)@.len() == orig.len(),
        len <= orig.len(),
        written_at(orig, old(dst)@, 0, full.take(len as int)),
        len + json_escaped(src@).len() <= full.len(),
        full.subrange(len as int, len + json_escaped(src@).len()) == json_escaped(src@),
    ensures
        final(dst)@.len() == orig.len(),
        r is Ok <==> len + json_escaped(src@).len() <= orig.len(),
        r matches Ok(n) ==> n == len + json_escaped(src@).len() && written_at(
            orig,
            final(dst)@,
            0,
            full.take(n as int),
        ),
        r is Err ==> r == Err::<usize, Error>(Error::BufferTooSmall) && full.len() > orig.len()
            && wrote_proper_prefix(orig, final(dst)@, 0, full),
{
    let ghost mid = dst@;
    let ghost e = json_escaped(src@);
    match json_escape_at(dst, len, src) {
        Ok(n) => {
            assert(len + e.len() <= mid.len());
            assert(n == e.len());
            assert(mid.take(len as int) =~= full.take(len as int));
            assert(mid.skip(len + e.len()) =~= orig.skip(len + e.len()));
            assert(full.take(len + e.len()) =~= full.take(len as int) + e);
            assert(final(dst)@ =~= orig.take(0) + full.take(len + n) + orig.skip(len + n));
            let cap = dst.len();
            assert(len + n <= cap);
            Ok(len + n)
        },
        Err(e) => {
            proof {
                let j = choose|j: int|
                    0 <= j < src@.len() && len + json_escaped(#[trigger] src@.take(j)).len()
                        <= old(dst)@.len() < len + json_escaped(src@.take(j + 1)).len()
                        && written_at(old(dst)@, final(dst)@, len as int, json_escaped(src@.take(j)));
                lemma_json_escaped_prefix(src@, j);
                let k = len + json_escaped(src@.take(j)).len();
                assert(full.take(k) =~= full.take(len as int) + json_escaped(src@.take(j)));
                assert(final(dst)@ =~= orig.take(0) + full.take(k) + orig.skip(k));
                assert(written_at(orig, final(dst)@, 0, full.take(k)));
            }
            Err(e)
        },
    }
}

pub(crate) fn append_url_encoded(
    dst: &mut [u8],
    len: usize,
    src: &[u8],
    Ghost(orig): Ghost<Seq<u8>>,
    Ghost(full): Ghost<Seq<u8>>,
) -> (r: Result<usize, Error>)
    requires
        old(dst)@.len() == orig.len(),
        len <= orig.len(),
        written_at(orig, old(dst)@, 0, full.take(len as int)),
        len + url_encoded(src@).len() <= full.len(),
        full.subrange(len as int, len + url_encoded(src@).len()) == url_encoded(src@),
    ensures
        final(dst)@.len() == orig.len(),
        r is Ok <==> len + url_encoded(src@).len() <= orig.len(),
        r matches Ok(n) ==> n == len + url_encoded(src@).len() && written_at(
            orig,
            final(dst)@,
            0,
            full.take(n as int),
        ),
        r is Err ==> r == Err::<usize, Error>(Error::BufferTooSmall) && full.len() > orig.len()
            && wrote_proper_prefix(orig, final(dst)@, 0, full),
{
    let ghost mid = dst@;
    let ghost e = url_encoded(src@);
    match url_encode_at(dst, len, src) {
        Ok(n) => {
            assert(len + e.len() <= mid.len());
            assert(n == e.len());
            assert(mid.take(len as int) =~= full.take(len as int));
            assert(mid.skip(len + e.len()) =~= orig.skip(len + e.len()));
            assert(full.take(len + e.len()) =~= full.take(len as int) + e);
            assert(final(dst)@ =~= orig.take(0) + full.take(len + n) + orig.skip(len + n));
            let cap = dst.len();
            assert(len + n <= cap);
            Ok(len + n)
        },
        Err(e) => {
            proof {
                let j = choose|j: int|
                    0 <= j < src@.len() && len + url_encoded(#[trigger] src@.take(j)).len()
                        <= old(dst)@.len() < len + url_encoded(src@.take(j + 1)).len()
                        && written_at(old(dst)@, final(dst)@, len as int, url_encoded(src@.take(j)));
                lemma_url_encoded_prefix(src@, j);
                let k = len + url_encoded(src@.take(j)).len();
                assert(full.take(k) =~= full.take(len as int) + url_encoded(src@.take(j)));
                assert(final(dst)@ =~= orig.take(0) + full.take(k) + orig.skip(k));
                assert(written_at(orig, final(dst)@, 0, full.take(k)));
            }
            Err(e)
        },
    }
}

} // verus!
