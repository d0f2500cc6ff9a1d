//! A byte-oriented counting path: characters are the bytes that do not
//! continue a UTF-8 sequence, whitespace is ASCII whitespace, and no
//! validity or carry tracking is done.  It pairs with a vector loop that
//! hands whole chunks to `count_word_transitions` and the trailing remainder
//! to `handle_scalar_boundary`.

use vstd::prelude::*;
use vstd::slice::slice_index_get;
use vstd::slice::slice_subrange;
use vstd::utf8::is_continuation_byte;
use crate::chunk::mask_bit;
use crate::chunk::mask_last;
use crate::chunk::mask_words_from;
use crate::chunk::range_nl;
use crate::chunk::range_words;
use crate::model::is_ascii_space_byte;

verus! {

/// Line, word and character totals of one buffer, without the byte total.
#[derive(Debug, Clone, Copy, PartialEq, Eq, Structural)]
pub struct SimdCounts {
    /// Newline bytes seen.
    pub lines: usize,
    /// Word starts seen.
    pub words: usize,
    /// Non-continuation bytes seen.
    pub chars: usize,
}

/// Bytes in the window `[x, e)` of `s` that do not continue a UTF-8 sequence.
pub open spec fn range_non_cont(s: Seq<u8>, x: int, e: int) -> nat
    decreases e - x,
{
    if x < 0 || x >= e || e > s.len() {
        0
    } else {
        (if is_continuation_byte(s[x]) {
            0nat
        } else {
            1nat
        }) + range_non_cont(s, x + 1, e)
    }
}

/// Whether a byte is ASCII whitespace.
pub fn is_ascii_whitespace(byte: u8) -> (r: bool)
    ensures
        r == is_ascii_space_byte(byte),
{
    matches!(byte, 0x20 | 0x09 | 0x0a | 0x0d | 0x0c | 0x0b)
}

/// Count a buffer byte for byte: newlines, word starts over ASCII
/// whitespace, and non-continuation bytes as characters.
pub fn count_text_scalar(content: &[u8]) -> (r: SimdCounts)
    ensures
        r.lines == range_nl(content@, 0, content@.len() as int),
        r.words == range_words(content@, 0, content@.len() as int, true),
        r.chars == range_non_cont(content@, 0, content@.len() as int),
{
    let ghost s = content@;
    let clen = content.len();
    let mut lines: usize = 0;
    let mut words: usize = 0;
    let mut chars: usize = 0;
    let mut in_word = false;
    let mut i: usize = 0;
    while i < clen
        invariant
            s == content@,
            s.len() == clen,
            i <= clen,
            lines <= i,
            words <= i,
            chars <= i,
            range_nl(s, 0, clen as int) == lines + range_nl(s, i as int, clen as int),
            range_words(s, 0, clen as int, true) == words + range_words(
                s,
                i as int,
                clen as int,
                !in_word,
            ),
            range_non_cont(s, 0, clen as int) == chars + range_non_cont(s, i as int, clen as int),
        decreases clen - i,
    {
        let byte = *slice_index_get(content, i);
        if byte == 0x0a {
            lines = lines + 1;
        }
        if !(0x80 <= byte && byte <= 0xbf) {
            chars = chars + 1;
        }
        if is_ascii_whitespace(byte) {
            in_word = false;
        } else if !in_word {
            words = words + 1;
            in_word = true;
        }
        i = i + 1;
    }
    SimdCounts { lines, words, chars }
}

/// Count word starts from a 16-lane whitespace mask, updating the carried
/// lane state in place.
pub fn count_word_transitions(
    whitespace_mask: u16,
    chunk_size: usize,
    prev_was_whitespace: &mut bool,
) -> (words: usize)
    requires
        chunk_size <= 16,
    ensures
        words == mask_words_from(
            whitespace_mask as u64,
            0,
            chunk_size as int,
            *old(prev_was_whitespace),
        ),
        words <= chunk_size,
        *final(prev_was_whitespace) == mask_last(
            whitespace_mask as u64,
            chunk_size as int,
            *old(prev_was_whitespace),
        ),
{
    let ghost m = whitespace_mask as u64;
    let ghost seen0 = *prev_was_whitespace;
    let mut words: usize = 0;
    let mut bit_idx: usize = 0;
    while bit_idx < chunk_size
        invariant
            chunk_size <= 16,
            bit_idx <= chunk_size,
            words <= bit_idx,
            m == whitespace_mask as u64,
            mask_words_from(m, 0, chunk_size as int, seen0) == words + mask_words_from(
                m,
                bit_idx as int,
                chunk_size as int,
                *prev_was_whitespace,
            ),
            bit_idx == 0 ==> *prev_was_whitespace == seen0,
            bit_idx > 0 ==> *prev_was_whitespace == mask_bit(m, (bit_idx - 1) as u64),
        decreases chunk_size - bit_idx,
    {
        let is_whitespace = (whitespace_mask & (1u16 << (bit_idx as u16))) != 0;
        proof {
            let m16 = whitespace_mask;
            let i16 = bit_idx as u16;
            assert((m16 & (1u16 << i16) != 0) == ((m16 as u64 >> (i16 as u64)) & 1 == 1))
                by (bit_vector)
                requires
                    i16 < 16,
            ;
        }
        if *prev_was_whitespace && !is_whitespace {
            words = words + 1;
        }
        *prev_was_whitespace = is_whitespace;
        bit_idx = bit_idx + 1;
    }
    words
}

/// Fold the scalar count of the buffer's tail into running vector totals.
///
/// When the vector loop stops mid-buffer while inside a word and the tail
/// opens with a non-whitespace byte, the tail's first word continues the
/// running one and is not counted again.
pub fn handle_scalar_boundary(
    content: &[u8],
    simd_end_index: usize,
    prev_was_whitespace: bool,
    simd_words: usize,
    simd_lines: usize,
    simd_chars: usize,
) -> (r: SimdCounts)
    requires
        simd_end_index <= content@.len(),
        simd_words + content@.len() <= usize::MAX,
        simd_lines + content@.len() <= usize::MAX,
        simd_chars + content@.len() <= usize::MAX,
    ensures
        ({
            let e = content@.len() as int;
            let tail_words = range_words(content@, simd_end_index as int, e, true);
            &&& r.lines == simd_lines + range_nl(content@, simd_end_index as int, e)
            &&& r.chars == simd_chars + range_non_cont(content@, simd_end_index as int, e)
            &&& r.words == simd_words + (if 0 < simd_end_index < e && !prev_was_whitespace
                && !is_ascii_space_byte(content@[simd_end_index as int]) {
                (if tail_words > 0 {
                    (tail_words - 1) as nat
                } else {
                    0nat
                })
            } else {
                tail_words
            })
        }),
{
    let ghost s = content@;
    let tail = slice_subrange(content, simd_end_index, content.len());
    let scalar_result = count_text_scalar(tail);
    proof {
        lemma_range_shift(s, simd_end_index as int);
        lemma_range_bounds(s, simd_end_index as int);
    }
    let mut simd_words = simd_words;
    if simd_end_index > 0 && simd_end_index < content.len() && !prev_was_whitespace {
        let first_remaining_byte = *slice_index_get(content, simd_end_index);
        if !is_ascii_whitespace(first_remaining_byte) {
            simd_words = simd_words + (if scalar_result.words > 0 {
                scalar_result.words - 1
            } else {
                0
            });
        } else {
            simd_words = simd_words + scalar_result.words;
        }
    } else {
        simd_words = simd_words + scalar_result.words;
    }
    SimdCounts {
        lines: simd_lines + scalar_result.lines,
        words: simd_words,
        chars: simd_chars + scalar_result.chars,
    }
}

/// Window counts over a buffer's tail equal the counts over the tail taken
/// as its own buffer.
proof fn lemma_range_shift(s: Seq<u8>, x: int)
    requires
        0 <= x <= s.len(),
    ensures
        range_nl(s, x, s.len() as int) == range_nl(s.skip(x), 0, s.skip(x).len() as int),
        range_words(s, x, s.len() as int, true) == range_words(
            s.skip(x),
            0,
            s.skip(x).len() as int,
            true,
        ),
        range_non_cont(s, x, s.len() as int) == range_non_cont(
            s.skip(x),
            0,
            s.skip(x).len() as int,
        ),
{
    lemma_range_shift_from(s, x, x, true);
}

proof fn lemma_range_shift_from(s: Seq<u8>, x: int, i: int, seen: bool)
    requires
        0 <= x <= i <= s.len(),
    ensures
        range_nl(s, i, s.len() as int) == range_nl(s.skip(x), i - x, s.skip(x).len() as int),
        range_words(s, i, s.len() as int, seen) == range_words(
            s.skip(x),
            i - x,
            s.skip(x).len() as int,
            seen,
        ),
        range_non_cont(s, i, s.len() as int) == range_non_cont(
            s.skip(x),
            i - x,
            s.skip(x).len() as int,
        ),
    decreases s.len() - i,
{
    if i < s.len() {
        assert(s.skip(x)[i - x] == s[i]);
        lemma_range_shift_from(s, x, i + 1, is_ascii_space_byte(s[i]));
    }
}

/// Window counts never exceed the window's length.
proof fn lemma_range_bounds(s: Seq<u8>, x: int)
    requires
        0 <= x <= s.len(),
    ensures
        range_nl(s, x, s.len() as int) <= s.len() - x,
        range_words(s, x, s.len() as int, true) <= s.len() - x,
        range_non_cont(s, x, s.len() as int) <= s.len() - x,
{
    lemma_range_bounds_from(s, x, true);
}

proof fn lemma_range_bounds_from(s: Seq<u8>, i: int, seen: bool)
    requires
        0 <= i <= s.len(),
    ensures
        range_nl(s, i, s.len() as int) <= s.len() - i,
        range_words(s, i, s.len() as int, seen) <= s.len() - i,
        range_non_cont(s, i, s.len() as int) <= s.len() - i,
    decreases s.len() - i,
{
    if i < s.len() {
        lemma_range_bounds_from(s, i + 1, is_ascii_space_byte(s[i]));
    }
}

} // verus!
