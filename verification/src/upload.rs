//! Splitting script source into `Script.PutCode` calls. The device limits
//! the size of a request body, so long sources go up in several chunks,
//! each cut on a UTF-8 character boundary.

use vstd::prelude::*;
use vstd::string::StringSliceAdditionalSpecFns;
use vstd::utf8::*;

verus! {

/// The largest character boundary of `b` in `[0, k]`.
pub open spec fn boundary_at_or_below(b: Seq<u8>, k: int) -> int
    decreases k,
{
    if k <= 0 {
        0
    } else if is_char_boundary(b, k) {
        k
    } else {
        boundary_at_or_below(b, k - 1)
    }
}

/// The smallest character boundary of `b` in `[k, len)`, or the length.
pub open spec fn boundary_at_or_above(b: Seq<u8>, k: int) -> int
    decreases b.len() - k,
{
    if k >= b.len() {
        b.len() as int
    } else if is_char_boundary(b, k) {
        k
    } else {
        boundary_at_or_above(b, k + 1)
    }
}

/// The length of the next chunk of `b` for a budget of `max` bytes: all of
/// `b` when it fits, else the last character boundary within the budget, and
/// when the first character alone is over budget, that whole character.
pub open spec fn chunk_len(b: Seq<u8>, max: int) -> int {
    if b.len() <= max {
        b.len() as int
    } else if boundary_at_or_below(b, max) == 0 {
        boundary_at_or_above(b, 1)
    } else {
        boundary_at_or_below(b, max)
    }
}

/// In valid UTF-8, a character boundary lies in every window `[k - 3, k]`:
/// no character is longer than four bytes.
proof fn lemma_boundary_within_four(b: Seq<u8>, k: int)
    requires
        valid_utf8(b),
        3 <= k <= b.len(),
    ensures
        exists|j: int| k - 3 <= j <= k && is_char_boundary(b, j),
    decreases b.len(),
{
    let l = length_of_first_scalar(b);
    let r = pop_first_scalar(b);
    assert(1 <= l <= 4);
    assert(r.len() == b.len() - l);
    if k < l {
        assert(is_char_boundary(b, 0));
        assert(k - 3 <= 0);
    } else if k - l >= 3 {
        lemma_boundary_within_four(r, k - l);
        let j2 = choose|j: int| k - l - 3 <= j <= k - l && is_char_boundary(r, j);
        assert(is_char_boundary(b, j2 + l));
    } else {
        assert(is_char_boundary(r, 0));
        assert(is_char_boundary(b, l));
    }
}

proof fn lemma_boundary_at_or_below_reaches(b: Seq<u8>, k: int, j: int)
    requires
        0 <= j <= k,
        is_char_boundary(b, j),
    ensures
        j <= boundary_at_or_below(b, k) <= k,
    decreases k,
{
    if k > 0 && !is_char_boundary(b, k) {
        lemma_boundary_at_or_below_reaches(b, k - 1, j);
    }
}

/// With a budget of at least four bytes every chunk fits the budget, and a
/// non-empty text always gives a non-empty chunk.
pub proof fn lemma_chunk_fits_budget(b: Seq<u8>, max: int)
    requires
        valid_utf8(b),
        4 <= max,
    ensures
        chunk_len(b, max) <= max,
        b.len() > 0 ==> chunk_len(b, max) > 0,
{
    if b.len() > max {
        lemma_boundary_within_four(b, max);
        let j = choose|j: int| max - 3 <= j <= max && is_char_boundary(b, j);
        lemma_boundary_at_or_below_reaches(b, max, j);
    }
}

proof fn lemma_boundary_at_or_below_props(b: Seq<u8>, k: int)
    requires
        k >= 0,
    ensures
        0 <= boundary_at_or_below(b, k) <= k,
        boundary_at_or_below(b, k) > 0 ==> is_char_boundary(b, boundary_at_or_below(b, k)),
        forall|j: int|
            boundary_at_or_below(b, k) < j <= k ==> !#[trigger] is_char_boundary(b, j),
    decreases k,
{
    if k > 0 && !is_char_boundary(b, k) {
        lemma_boundary_at_or_below_props(b, k - 1);
    }
}

proof fn lemma_boundary_at_or_above_props(b: Seq<u8>, k: int)
    requires
        0 <= k <= b.len(),
    ensures
        k <= boundary_at_or_above(b, k) <= b.len(),
        boundary_at_or_above(b, k) < b.len() ==> is_char_boundary(b, boundary_at_or_above(b, k)),
        forall|j: int|
            k <= j < boundary_at_or_above(b, k) ==> !#[trigger] is_char_boundary(b, j),
    decreases b.len() - k,
{
    if k < b.len() && !is_char_boundary(b, k) {
        lemma_boundary_at_or_above_props(b, k + 1);
    }
}

/// The chunk length of a non-empty text is a character boundary between 1
/// and the text's length: the whole text when it fits the budget; else the
/// largest boundary in `1..=max` when there is one; else the end of the
/// first character (the first boundary after 0).
pub proof fn lemma_chunk_len_boundary(b: Seq<u8>, max: int)
    requires
        valid_utf8(b),
        b.len() > 0,
        max >= 0,
    ensures
        1 <= chunk_len(b, max) <= b.len(),
        is_char_boundary(b, chunk_len(b, max)),
        b.len() <= max ==> chunk_len(b, max) == b.len(),
        b.len() > max && (exists|j: int| 1 <= j <= max && #[trigger] is_char_boundary(b, j))
            ==> chunk_len(b, max) <= max && forall|j: int|
            chunk_len(b, max) < j <= max ==> !#[trigger] is_char_boundary(b, j),
        b.len() > max && !(exists|j: int| 1 <= j <= max && #[trigger] is_char_boundary(b, j))
            ==> forall|j: int| 0 < j < chunk_len(b, max) ==> !#[trigger] is_char_boundary(b, j),
{
    is_char_boundary_start_end_of_seq(b);
    if b.len() > max {
        lemma_boundary_at_or_below_props(b, max);
        lemma_boundary_at_or_above_props(b, 1);
        if exists|j: int| 1 <= j <= max && #[trigger] is_char_boundary(b, j) {
            let j = choose|j: int| 1 <= j <= max && #[trigger] is_char_boundary(b, j);
            assert(boundary_at_or_below(b, max) >= j);
        }
    }
}

/// Picks an end offset of at most `max` that lies on a UTF-8 character
/// boundary, or the end of the first character when no such offset above
/// zero exists; a non-empty `s` always gets at least 1.
pub fn pick_chunk_len(s: &str, max: usize) -> (r: usize)
    ensures
        r == chunk_len(s.spec_bytes(), max as int),
        r <= s.spec_bytes().len(),
        is_char_boundary(s.spec_bytes(), r as int),
        s.spec_bytes().len() > 0 ==> r > 0,
{
    let ghost b = s.spec_bytes();
    proof {
        encode_utf8_valid_utf8(s@);
        is_char_boundary_start_end_of_seq(b);
    }
    let len = s.as_bytes().len();
    if len <= max {
        return len;
    }
    let mut end = max;
    while end > 0 && !s.is_char_boundary(end)
        invariant
            end <= max < len,
            len == b.len(),
            b == s.spec_bytes(),
            boundary_at_or_below(b, max as int) == boundary_at_or_below(b, end as int),
        decreases end,
    {
        end = end - 1;
    }
    if end == 0 {
        let mut e: usize = 1;
        while e < len && !s.is_char_boundary(e)
            invariant
                1 <= e <= len,
                len == b.len(),
                b == s.spec_bytes(),
                valid_utf8(b),
                is_char_boundary(b, b.len() as int),
                boundary_at_or_above(b, 1) == boundary_at_or_above(b, e as int),
            decreases len - e,
        {
            e = e + 1;
        }
        return e;
    }
    end
}

/// For a boundary `s` of valid UTF-8 `b`, the boundaries of the text after
/// `s` are the boundaries of `b` after `s`.
proof fn lemma_boundary_shift(b: Seq<u8>, s: int, k: int)
    requires
        valid_utf8(b),
        valid_utf8(b.skip(s)),
        0 <= s <= b.len(),
        0 <= k <= b.len() - s,
    ensures
        is_char_boundary(b.skip(s), k) == is_char_boundary(b, s + k),
{
    is_char_boundary_start_end_of_seq(b);
    is_char_boundary_start_end_of_seq(b.skip(s));
    if k < b.len() - s {
        is_char_boundary_iff_not_is_continuation_byte(b.skip(s), k);
        is_char_boundary_iff_not_is_continuation_byte(b, s + k);
    }
}

/// The byte ranges of `code` sent by successive `Script.PutCode` calls with
/// a budget of `max` bytes each: consecutive, covering the whole source,
/// each cut on a character boundary and sized by [`pick_chunk_len`]. Empty
/// source gives one empty range, so the slot is still cleared. The first
/// call replaces the slot's content and the later ones append.
pub fn code_chunks(code: &str, max: usize) -> (r: Vec<(usize, usize)>)
    ensures
        r@.len() >= 1,
        r@[0].0 == 0,
        r@.last().1 == code.spec_bytes().len(),
        forall|i: int| 0 <= i < r@.len() - 1 ==> r@[i].1 == #[trigger] r@[i + 1].0,
        forall|i: int|
            0 <= i < r@.len() ==> is_char_boundary(code.spec_bytes(), #[trigger] r@[i].0 as int)
                && is_char_boundary(code.spec_bytes(), r@[i].1 as int) && r@[i].0 <= r@[i].1,
        code.spec_bytes().len() == 0 ==> r@ == seq![(0usize, 0usize)],
        max >= 4 ==> forall|i: int| 0 <= i < r@.len() ==> #[trigger] r@[i].1 - r@[i].0 <= max,
        code.spec_bytes().len() > 0 ==> forall|i: int|
            0 <= i < r@.len() ==> r@[i].0 < r@[i].1 && r@[i].1 - r@[i].0 == chunk_len(
                code.spec_bytes().skip(#[trigger] r@[i].0 as int),
                max as int,
            ),
{
    let ghost b = code.spec_bytes();
    proof {
        encode_utf8_valid_utf8(code@);
        is_char_boundary_start_end_of_seq(b);
    }
    let len = code.as_bytes().len();
    if len == 0 {
        let v = vec![(0usize, 0usize)];
        assert(v@ =~= seq![(0usize, 0usize)]);
        return v;
    }
    let mut v: Vec<(usize, usize)> = Vec::new();
    let mut sent: usize = 0;
    while sent < len
        invariant
            len == b.len() > 0,
            b == code.spec_bytes(),
            valid_utf8(b),
            sent <= len,
            is_char_boundary(b, sent as int),
            v@.len() == 0 ==> sent == 0,
            v@.len() > 0 ==> v@[0].0 == 0 && v@.last().1 == sent,
            forall|i: int| 0 <= i < v@.len() - 1 ==> v@[i].1 == #[trigger] v@[i + 1].0,
            forall|i: int|
                0 <= i < v@.len() ==> is_char_boundary(b, #[trigger] v@[i].0 as int)
                    && is_char_boundary(b, v@[i].1 as int) && v@[i].0 < v@[i].1 && v@[i].1
                    - v@[i].0 == chunk_len(b.skip(v@[i].0 as int), max as int),
            max >= 4 ==> forall|i: int| 0 <= i < v@.len() ==> #[trigger] v@[i].1 - v@[i].0 <= max,
        decreases len - sent,
    {
        let (_, rest) = code.split_at(sent);
        assert(rest.spec_bytes() =~= b.skip(sent as int));
        proof {
            encode_utf8_valid_utf8(rest@);
        }
        let take = pick_chunk_len(rest, max);
        proof {
            lemma_boundary_shift(b, sent as int, take as int);
            if max >= 4 {
                lemma_chunk_fits_budget(b.skip(sent as int), max as int);
            }
        }
        let ghost old_v = v@;
        let next = sent + take;
        v.push((sent, next));
        assert(v@[v@.len() - 1] == (sent, next));
        assert(is_char_boundary(b, next as int));
        assert(take == chunk_len(b.skip(sent as int), max as int));
        assert forall|i: int| 0 <= i < v@.len() && max >= 4 implies #[trigger] v@[i].1 - v@[i].0 <= max by {
            if i < old_v.len() {
                assert(v@[i] == old_v[i]);
            }
        }
        assert forall|i: int| 0 <= i < v@.len() implies is_char_boundary(b, #[trigger] v@[i].0 as int)
            && is_char_boundary(b, v@[i].1 as int) && v@[i].0 < v@[i].1 && v@[i].1 - v@[i].0
            == chunk_len(b.skip(v@[i].0 as int), max as int) by {
            if i < old_v.len() {
                assert(v@[i] == old_v[i]);
            }
        }
        assert forall|i: int| 0 <= i < v@.len() - 1 implies v@[i].1 == #[trigger] v@[i + 1].0 by {
            if i + 1 < old_v.len() {
                assert(v@[i] == old_v[i]);
                assert(v@[i + 1] == old_v[i + 1]);
            } else {
                assert(v@[i] == old_v[i]);
            }
        }
        sent = next;
    }
    v
}

} // verus!
