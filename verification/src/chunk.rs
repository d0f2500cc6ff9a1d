//! Per-chunk operations of the vector model.
//!
//! A chunk of up to 64 bytes is summarized lane for lane into bitmasks: bit
//! `i` of the whitespace mask says whether lane `i` holds ASCII whitespace.
//! Word starts fall out of the mask alone: a word starts at a lane that is
//! not whitespace when the lane before it was, with the incoming boundary
//! flag standing in for the lane before the chunk.

use vstd::prelude::*;
use vstd::slice::slice_index_get;
use crate::model::is_ascii_space_byte;
use crate::model::sb_fold_range;
use crate::model::sb_step;
use crate::model::Tally;

verus! {

/// Bit `i` of mask `m`.
pub open spec fn mask_bit(m: u64, i: u64) -> bool
    recommends
        i < 64,
{
    (m >> i) & 1 == 1
}

/// Word starts in lanes `[i, width)` of a whitespace mask, entered with
/// boundary flag `seen`.
pub open spec fn mask_words_from(m: u64, i: int, width: int, seen: bool) -> nat
    decreases width - i,
{
    if i < 0 || i >= width {
        0
    } else {
        let ws = mask_bit(m, i as u64);
        (if !ws && seen {
            1nat
        } else {
            0nat
        }) + mask_words_from(m, i + 1, width, ws)
    }
}

/// The boundary flag a chunk of `width` lanes hands on: its last lane's
/// whiteness, or the incoming flag when the chunk is empty.
pub open spec fn mask_last(m: u64, width: int, seen: bool) -> bool {
    if width <= 0 {
        seen
    } else {
        mask_bit(m, (width - 1) as u64)
    }
}

/// Newlines in the window `[x, e)` of `s`.
pub open spec fn range_nl(s: Seq<u8>, x: int, e: int) -> nat
    decreases e - x,
{
    if x < 0 || x >= e || e > s.len() {
        0
    } else {
        (if s[x] == 0x0a {
            1nat
        } else {
            0nat
        }) + range_nl(s, x + 1, e)
    }
}

/// Word starts in the window `[x, e)` of `s`, entered with boundary flag
/// `seen`.
pub open spec fn range_words(s: Seq<u8>, x: int, e: int, seen: bool) -> nat
    decreases e - x,
{
    if x < 0 || x >= e || e > s.len() {
        0
    } else {
        let ws = is_ascii_space_byte(s[x]);
        (if !ws && seen {
            1nat
        } else {
            0nat
        }) + range_words(s, x + 1, e, ws)
    }
}

/// The boundary flag the window `[x, e)` of `s` hands on.
pub open spec fn range_last(s: Seq<u8>, x: int, e: int, seen: bool) -> bool
    decreases e - x,
{
    if x < 0 || x >= e || e > s.len() {
        seen
    } else {
        range_last(s, x + 1, e, is_ascii_space_byte(s[x]))
    }
}

/// Single-byte counting over a window is exactly: newlines counted, word
/// starts counted, one character per byte, and the last byte's whiteness
/// handed on.
pub proof fn lemma_range_formula(s: Seq<u8>, x: int, e: int, t: Tally)
    requires
        0 <= x <= e <= s.len(),
    ensures
        sb_fold_range(s, x, e, t) == (Tally {
            lines: t.lines + range_nl(s, x, e),
            words: t.words + range_words(s, x, e, t.seen_space),
            chars: (t.chars + e - x) as nat,
            seen_space: range_last(s, x, e, t.seen_space),
        }),
    decreases e - x,
{
    if x < e {
        lemma_range_formula(s, x + 1, e, sb_step(t, s[x]));
    }
}

// ---------------------------------------------------------------------------
// Bit manipulation facts
// ---------------------------------------------------------------------------

/// Setting bit `i` leaves every other bit alone.
proof fn lemma_bit_or_set(m: u64, i: u64, j: u64)
    requires
        i < 64,
        j < 64,
    ensures
        mask_bit(m | (1u64 << i), j) == (j == i || mask_bit(m, j)),
{
    assert(((m | (1u64 << i)) >> j) & 1 == (if j == i {
        1u64
    } else {
        (m >> j) & 1
    })) by (bit_vector)
        requires
            i < 64,
            j < 64,
    ;
}

/// The empty mask has no bit set.
proof fn lemma_bit_zero(j: u64)
    requires
        j < 64,
    ensures
        !mask_bit(0u64, j),
{
    assert((0u64 >> j) & 1 == 0) by (bit_vector)
        requires
            j < 64,
    ;
}

// ---------------------------------------------------------------------------
// Mask construction and consumption
// ---------------------------------------------------------------------------

/// Build the whitespace bitmask over the `width` lanes at `pos`: bit `i` is
/// set exactly when the lane holds ASCII whitespace, space or tab through
/// carriage return.
pub fn detect_whitespace_mask(content: &[u8], pos: usize, width: usize) -> (m: u64)
    requires
        pos + width <= content@.len(),
        width <= 64,
    ensures
        forall|j: int|
            0 <= j < width ==> #[trigger] mask_bit(m, j as u64) == is_ascii_space_byte(content@[pos + j]),
{
    let ghost s = content@;
    let clen = content.len();
    proof {
        assert(s.len() == clen);
    }
    let mut m: u64 = 0;
    let mut i: usize = 0;
    proof {
        assert forall|j: int| 0 <= j < 64 implies !(#[trigger] mask_bit(0u64, j as u64)) by {
            lemma_bit_zero(j as u64);
        };
    }
    while i < width
        invariant
            pos + width <= s.len(),
            s.len() <= usize::MAX,
            s == content@,
            width <= 64,
            i <= width,
            forall|j: int| 0 <= j < i ==> #[trigger] mask_bit(m, j as u64) == is_ascii_space_byte(s[pos + j]),
            forall|j: int| i <= j < 64 ==> !(#[trigger] mask_bit(m, j as u64)),
        decreases width - i,
    {
        let b = *slice_index_get(content, pos + i);
        let is_ws = matches!(b, 0x20 | 0x09..=0x0d);
        if is_ws {
            let ghost m0 = m;
            m = m | (1u64 << (i as u64));
            proof {
                assert forall|j: int|
                    0 <= j < 64 implies #[trigger] mask_bit(m, j as u64) == (j == i || mask_bit(
                    m0,
                    j as u64,
                )) by {
                    lemma_bit_or_set(m0, i as u64, j as u64);
                };
            }
        }
        i = i + 1;
    }
    m
}

/// Count the newline lanes in the `width` lanes at `pos`.
pub fn count_newlines_in_chunk(content: &[u8], pos: usize, width: usize) -> (n: usize)
    requires
        pos + width <= content@.len(),
    ensures
        n == range_nl(content@, pos as int, pos + width),
        n <= width,
{
    let ghost s = content@;
    let clen = content.len();
    proof {
        assert(s.len() == clen);
    }
    let mut n: usize = 0;
    let mut i: usize = 0;
    while i < width
        invariant
            pos + width <= s.len(),
            s.len() <= usize::MAX,
            s == content@,
            i <= width,
            n <= i,
            range_nl(s, pos as int, pos + width) == n + range_nl(s, pos + i, pos + width),
        decreases width - i,
    {
        let b = *slice_index_get(content, pos + i);
        if b == 0x0a {
            n = n + 1;
        }
        i = i + 1;
    }
    n
}

/// Whether any of the `width` lanes at `pos` holds a byte outside ASCII.
pub fn chunk_has_non_ascii(content: &[u8], pos: usize, width: usize) -> (r: bool)
    requires
        pos + width <= content@.len(),
    ensures
        r == exists|j: int| 0 <= j < width && #[trigger] content@[pos + j] >= 0x80,
{
    let ghost s = content@;
    let clen = content.len();
    proof {
        assert(s.len() == clen);
    }
    let mut i: usize = 0;
    while i < width
        invariant
            pos + width <= s.len(),
            s.len() <= usize::MAX,
            s == content@,
            i <= width,
            forall|j: int| 0 <= j < i ==> #[trigger] content@[pos + j] < 0x80,
        decreases width - i,
    {
        let b = *slice_index_get(content, pos + i);
        if b >= 0x80 {
            assert(content@[pos + i] >= 0x80);
            return true;
        }
        i = i + 1;
    }
    false
}

/// Count word starts from a whitespace mask of up to 64 lanes.
///
/// A word starts at a lane that is not whitespace when the lane before it
/// was; the incoming `seen_space_before` flag stands in for the lane before
/// the chunk.  Also returns the flag to hand on: the last lane's whiteness.
pub fn count_word_starts_from_mask_u64(ws_mask: u64, width: usize, seen_space_before: bool) -> (r:
    (usize, bool))
    requires
        width <= 64,
    ensures
        r.0 == mask_words_from(ws_mask, 0, width as int, seen_space_before),
        r.0 <= width,
        r.1 == mask_last(ws_mask, width as int, seen_space_before),
{
    let mut count: usize = 0;
    let mut seen = seen_space_before;
    let mut i: usize = 0;
    while i < width
        invariant
            width <= 64,
            i <= width,
            count <= i,
            mask_words_from(ws_mask, 0, width as int, seen_space_before) == count
                + mask_words_from(ws_mask, i as int, width as int, seen),
            i == 0 ==> seen == seen_space_before,
            i > 0 ==> seen == mask_bit(ws_mask, (i - 1) as u64),
        decreases width - i,
    {
        let ws = ((ws_mask >> (i as u64)) & 1) == 1;
        if !ws && seen {
            count = count + 1;
        }
        seen = ws;
        i = i + 1;
    }
    proof {
        assert(mask_words_from(ws_mask, width as int, width as int, seen) == 0);
    }
    (count, seen)
}

/// Count word starts from a 16-lane whitespace mask, the mask width of the
/// narrowest vector paths.
pub fn count_word_starts_from_mask(ws_mask: u16, seen_space_before: bool) -> (r: (usize, bool))
    ensures
        r.0 == mask_words_from(ws_mask as u64, 0, 16, seen_space_before),
        r.0 <= 16,
        r.1 == mask_last(ws_mask as u64, 16, seen_space_before),
{
    count_word_starts_from_mask_u64(ws_mask as u64, 16, seen_space_before)
}

// ---------------------------------------------------------------------------
// The mask agrees with the bytes
// ---------------------------------------------------------------------------

/// Word starts read off a faithful whitespace mask are the window's word
/// starts.
proof fn lemma_mask_words_step(s: Seq<u8>, m: u64, pos: int, i: int, width: int, seen: bool)
    requires
        0 <= pos,
        pos + width <= s.len(),
        0 <= i <= width <= 64,
        forall|j: int| 0 <= j < width ==> #[trigger] mask_bit(m, j as u64) == is_ascii_space_byte(s[pos + j]),
    ensures
        mask_words_from(m, i, width, seen) == range_words(s, pos + i, pos + width, seen),
    decreases width - i,
{
    if i < width {
        lemma_mask_words_step(s, m, pos, i + 1, width, mask_bit(m, i as u64));
    }
}

/// The window's boundary flag is the last byte's whiteness.
proof fn lemma_range_last_value(s: Seq<u8>, x: int, e: int, seen: bool)
    requires
        0 <= x <= e <= s.len(),
    ensures
        range_last(s, x, e, seen) == if x < e {
            is_ascii_space_byte(s[e - 1])
        } else {
            seen
        },
    decreases e - x,
{
    if x < e {
        lemma_range_last_value(s, x + 1, e, is_ascii_space_byte(s[x]));
    }
}

/// A faithful whitespace mask reproduces the window's word starts and its
/// outgoing boundary flag.
pub proof fn lemma_mask_matches_range(s: Seq<u8>, m: u64, pos: int, width: int, seen: bool)
    requires
        0 <= pos,
        pos + width <= s.len(),
        0 <= width <= 64,
        forall|j: int| 0 <= j < width ==> #[trigger] mask_bit(m, j as u64) == is_ascii_space_byte(s[pos + j]),
    ensures
        mask_words_from(m, 0, width, seen) == range_words(s, pos, pos + width, seen),
        mask_last(m, width, seen) == range_last(s, pos, pos + width, seen),
{
    lemma_mask_words_step(s, m, pos, 0, width, seen);
    lemma_range_last_value(s, pos, pos + width, seen);
}

} // verus!
