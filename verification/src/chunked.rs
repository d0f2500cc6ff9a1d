//! The carry state machine: iterate the buffer in fixed-width chunks, route
//! each chunk to the mask-based fast path or to the scalar counter, and carry
//! the word-boundary flag and any cut-short multi-byte sequence from chunk to
//! chunk.  The result is proved equal to the scalar reference count of the
//! whole buffer, for every chunk width.

use vstd::prelude::*;
use vstd::slice::slice_subrange;
use crate::boundary::lemma_fold_compose;
use crate::boundary::lemma_suffix_window;
use crate::chunk::chunk_has_non_ascii;
use crate::chunk::count_newlines_in_chunk;
use crate::chunk::count_word_starts_from_mask_u64;
use crate::chunk::detect_whitespace_mask;
use crate::chunk::lemma_mask_matches_range;
use crate::chunk::lemma_range_formula;
use crate::model::incomplete_suffix;
use crate::model::init_tally;
use crate::model::lemma_sb_fold_bounds;
use crate::model::lemma_sb_fold_mono;
use crate::model::lemma_sb_fold_skip;
use crate::model::lemma_sb_fold_split;
use crate::model::lemma_suffix_shape;
use crate::model::lemma_utf8_ascii_run;
use crate::model::lemma_utf8_fold_affine;
use crate::model::lemma_utf8_fold_bounds;
use crate::model::lemma_utf8_fold_mono;
use crate::model::lemma_utf8_fold_skip;
use crate::model::lemma_sb_fold_affine;
use crate::model::locale_fold_from;
use crate::model::locale_tally;
use crate::model::sb_fold_range;
use crate::model::suffix_scan;
use crate::model::tally_matches;
use crate::model::utf8_fold_from;
use crate::model::Tally;
use crate::scalar::word_count_scalar_with_state;
use crate::FileCounts;
use crate::LocaleEncoding;

verus! {

/// The tally the machine's running totals and boundary flag stand for.
pub open spec fn cur_tally(counts: FileCounts, seen: bool) -> Tally {
    (Tally {
        lines: counts.lines as nat,
        words: counts.words as nat,
        chars: counts.chars as nat,
        seen_space: seen,
    })
}

/// Zero totals entering with boundary flag `seen`.
pub open spec fn zero_tally(seen: bool) -> Tally {
    (Tally { lines: 0, words: 0, chars: 0, seen_space: seen })
}

/// Drain the carry buffer and a new segment through the scalar counter,
/// accumulate its totals, and refill the carry with the segment's incomplete
/// suffix.  Returns the boundary flag to carry on.
pub fn process_scalar_with_carry(
    new_data: &[u8],
    carry: &mut Vec<u8>,
    counts: &mut FileCounts,
    seen_space: bool,
    locale: LocaleEncoding,
) -> (r: bool)
    requires
        ({
            let b = old(carry)@ + new_data@;
            let t = locale_fold_from(b, 0, zero_tally(seen_space), locale);
            &&& old(carry)@.len() + new_data@.len() <= usize::MAX
            &&& old(counts).lines + t.lines <= usize::MAX
            &&& old(counts).words + t.words <= usize::MAX
            &&& old(counts).chars + t.chars <= usize::MAX
        }),
    ensures
        ({
            let b = old(carry)@ + new_data@;
            let t = locale_fold_from(b, 0, zero_tally(seen_space), locale);
            let k = (match locale {
                LocaleEncoding::SingleByte => 0int,
                LocaleEncoding::Utf8 => incomplete_suffix(b),
            });
            &&& final(counts).lines == old(counts).lines + t.lines
            &&& final(counts).words == old(counts).words + t.words
            &&& final(counts).chars == old(counts).chars + t.chars
            &&& final(counts).bytes == old(counts).bytes
            &&& r == t.seen_space
            &&& final(carry)@ == b.subrange(b.len() - k, b.len() as int)
        }),
{
    let ghost b = old(carry)@ + new_data@;
    carry.extend_from_slice(new_data);
    proof {
        assert(carry@ == b);
    }
    let result = word_count_scalar_with_state(carry.as_slice(), seen_space, locale);
    counts.lines = counts.lines + result.counts.lines;
    counts.chars = counts.chars + result.counts.chars;
    counts.words = counts.words + result.counts.words;

    proof {
        lemma_suffix_shape(b);
    }
    if result.incomplete_bytes > 0 {
        let start = carry.len() - result.incomplete_bytes;
        let mut tail: Vec<u8> = Vec::new();
        let mut idx = start;
        while idx < carry.len()
            invariant
                start <= idx <= carry@.len(),
                carry@ == b,
                start == b.len() - (match locale {
                    LocaleEncoding::SingleByte => 0int,
                    LocaleEncoding::Utf8 => incomplete_suffix(b),
                }),
                tail@ == b.subrange(start as int, idx as int),
            decreases carry@.len() - idx,
        {
            let byte = *vstd::std_specs::vec::vec_index(carry, idx);
            tail.push(byte);
            proof {
                assert(tail@ =~= b.subrange(start as int, idx + 1));
            }
            idx = idx + 1;
        }
        *carry = tail;
    } else {
        carry.clear();
        proof {
            assert(carry@ =~= b.subrange(
                b.len() - (match locale {
                    LocaleEncoding::SingleByte => 0int,
                    LocaleEncoding::Utf8 => incomplete_suffix(b),
                }),
                b.len() as int,
            ));
        }
    }
    result.seen_space
}

/// Count a buffer by iterating it in chunks of `chunk_size` bytes.
///
/// Chunks of pure ASCII, and every chunk under the single-byte locale, go
/// through the mask-based fast path; a chunk that holds a byte outside ASCII
/// or arrives while a multi-byte sequence is pending goes through the scalar
/// counter together with the pending carry, as does the final remainder.
/// The result equals the scalar reference count, whatever the chunk width.
pub fn count_text_chunked(content: &[u8], locale: LocaleEncoding, chunk_size: usize) -> (r:
    FileCounts)
    requires
        chunk_size == 16 || chunk_size == 32 || chunk_size == 64,
    ensures
        tally_matches(r, locale_tally(content@, locale), content@.len()),
{
    let ghost s = content@;
    let clen = content.len();
    let mut counts = FileCounts { lines: 0, words: 0, bytes: clen, chars: 0 };
    let mut seen_space = true;
    let mut carry: Vec<u8> = Vec::new();
    let mut pos: usize = 0;

    while clen - pos >= chunk_size
        invariant
            s == content@,
            s.len() == clen,
            chunk_size == 16 || chunk_size == 32 || chunk_size == 64,
            pos <= clen,
            carry@.len() <= pos,
            counts.bytes == clen,
            carry@ == s.subrange(pos - carry@.len(), pos as int),
            (match locale {
                LocaleEncoding::SingleByte => carry@.len() == 0,
                LocaleEncoding::Utf8 => carry@.len() == incomplete_suffix(s.take(pos as int)),
            }),
            locale_fold_from(s, 0, init_tally(), locale) == locale_fold_from(
                s,
                pos - carry@.len(),
                cur_tally(counts, seen_space),
                locale,
            ),
        decreases clen - pos,
    {
        let ghost t_cur = cur_tally(counts, seen_space);
        let ghost j = pos - carry@.len();
        let non_ascii = chunk_has_non_ascii(content, pos, chunk_size);
        let has_carry = carry.len() > 0;
        let use_scalar = (non_ascii || has_carry) && matches!(locale, LocaleEncoding::Utf8);
        if use_scalar {
            let ghost u = s.skip(j);
            let ghost bq = carry@ + s.subrange(pos as int, pos + chunk_size);
            let ghost fb = utf8_fold_from(bq, 0, zero_tally(seen_space));
            let ghost k2 = incomplete_suffix(bq);
            let ghost t_next = (Tally {
                lines: t_cur.lines + fb.lines,
                words: t_cur.words + fb.words,
                chars: t_cur.chars + fb.chars,
                seen_space: fb.seen_space,
            });
            proof {
                assert(u.take(bq.len() as int) =~= bq);
                lemma_utf8_fold_skip(s, j, j, t_cur);
                lemma_fold_compose(u, bq.len() as int, t_cur);
                lemma_utf8_fold_affine(bq, 0, t_cur);
                lemma_suffix_shape(bq);
                assert(utf8_fold_from(bq, 0, t_cur) == t_next);
                lemma_utf8_fold_skip(s, j, j + bq.len() - k2, t_next);
                assert(utf8_fold_from(s, 0, init_tally()) == utf8_fold_from(
                    s,
                    pos + chunk_size - k2,
                    t_next,
                ));
                // totals stay within the machine word
                lemma_utf8_fold_bounds(s, 0, init_tally());
                lemma_utf8_fold_mono(s, pos + chunk_size - k2, t_next);
                assert(t_next.lines <= clen);
                assert(t_next.words <= clen);
                assert(t_next.chars <= clen);
                // the cut at pos + chunk_size leaves exactly the suffix of bq
                lemma_suffix_window(s.take(pos + chunk_size), j);
                assert(s.take(pos + chunk_size).skip(j) =~= bq);
            }
            let new_data = slice_subrange(content, pos, pos + chunk_size);
            proof {
                assert(carry@ + new_data@ == bq);
                assert(carry@.len() + new_data@.len() <= usize::MAX);
                assert(counts.lines + fb.lines <= usize::MAX);
                assert(counts.words + fb.words <= usize::MAX);
                assert(counts.chars + fb.chars <= usize::MAX);
            }
            let new_seen = process_scalar_with_carry(
                new_data,
                &mut carry,
                &mut counts,
                seen_space,
                locale,
            );
            seen_space = new_seen;
            pos = pos + chunk_size;
            proof {
                assert(carry@ =~= s.subrange(pos - carry@.len(), pos as int));
                assert(cur_tally(counts, seen_space) == t_next);
            }
        } else {
            let nl = count_newlines_in_chunk(content, pos, chunk_size);
            let ws_mask = detect_whitespace_mask(content, pos, chunk_size);
            let (wcount, last_ws) = count_word_starts_from_mask_u64(
                ws_mask,
                chunk_size,
                seen_space,
            );
            let ghost t_next = sb_fold_range(s, pos as int, pos + chunk_size, t_cur);
            proof {
                lemma_range_formula(s, pos as int, pos + chunk_size, t_cur);
                lemma_mask_matches_range(s, ws_mask, pos as int, chunk_size as int, seen_space);
                assert(carry@.len() == 0);
                assert(j == pos);
                match locale {
                    LocaleEncoding::SingleByte => {
                        lemma_sb_fold_split(s, pos as int, pos + chunk_size, t_cur);
                        lemma_sb_fold_bounds(s, 0, init_tally());
                        lemma_sb_fold_mono(s, pos + chunk_size, t_next);
                        assert(t_next.lines <= clen);
                        assert(t_next.words <= clen);
                        assert(t_next.chars <= clen);
                    },
                    LocaleEncoding::Utf8 => {
                        assert forall|x: int| pos <= x < pos + chunk_size implies #[trigger] s[x]
                            < 0x80 by {
                            assert(!(0 <= x - pos < chunk_size && s[pos + (x - pos)] >= 0x80));
                        };
                        lemma_utf8_ascii_run(s, pos as int, pos + chunk_size, t_cur);
                        lemma_utf8_fold_bounds(s, 0, init_tally());
                        lemma_utf8_fold_mono(s, pos + chunk_size, t_next);
                        assert(t_next.lines <= clen);
                        assert(t_next.words <= clen);
                        assert(t_next.chars <= clen);
                        // the chunk ends in a one-byte character, so no carry
                        assert(s.take(pos + chunk_size).len() == pos + chunk_size);
                        assert(s.take(pos + chunk_size)[pos + chunk_size - 1] == s[pos
                            + chunk_size - 1]);
                        assert(suffix_scan(s.take(pos + chunk_size), pos + chunk_size - 1) == 0);
                    },
                }
            }
            counts.lines = counts.lines + nl;
            counts.chars = counts.chars + chunk_size;
            counts.words = counts.words + wcount;
            seen_space = last_ws;
            carry.clear();
            pos = pos + chunk_size;
            proof {
                assert(carry@ =~= s.subrange(pos as int, pos as int));
                assert(cur_tally(counts, seen_space) == t_next);
            }
        }
    }

    let ghost t_cur = cur_tally(counts, seen_space);
    let ghost j = pos - carry@.len();
    if clen - pos > 0 || carry.len() > 0 {
        let ghost bq = carry@ + s.subrange(pos as int, clen as int);
        let ghost fb = locale_fold_from(bq, 0, zero_tally(seen_space), locale);
        proof {
            assert(bq =~= s.skip(j));
            match locale {
                LocaleEncoding::SingleByte => {
                    lemma_sb_fold_skip(s, j, j, t_cur);
                    lemma_sb_fold_affine(bq, 0, t_cur);
                    lemma_sb_fold_bounds(s, 0, init_tally());
                    lemma_sb_fold_mono(s, j, t_cur);
                    lemma_sb_fold_bounds(bq, 0, t_cur);
                },
                LocaleEncoding::Utf8 => {
                    lemma_utf8_fold_skip(s, j, j, t_cur);
                    lemma_utf8_fold_affine(bq, 0, t_cur);
                    lemma_utf8_fold_bounds(s, 0, init_tally());
                    lemma_utf8_fold_mono(s, j, t_cur);
                    lemma_utf8_fold_bounds(bq, 0, t_cur);
                },
            }
        }
        let new_data = slice_subrange(content, pos, clen);
        let new_seen = process_scalar_with_carry(
            new_data,
            &mut carry,
            &mut counts,
            seen_space,
            locale,
        );
        seen_space = new_seen;
    }
    counts
}

} // verus!
