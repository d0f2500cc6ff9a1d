//! Laws of the counting model, stated and proved over whole buffers.

use vstd::prelude::*;
use crate::boundary::lemma_fold_compose;
use crate::model::incomplete_suffix;
use crate::model::init_tally;
use crate::model::lemma_ascii_at;
use crate::model::lemma_sb_fold_affine;
use crate::model::lemma_sb_fold_skip;
use crate::model::lemma_sb_fold_split;
use crate::model::lemma_suffix_shape;
use crate::model::lemma_utf8_fold_affine;
use crate::model::lemma_utf8_fold_skip;
use crate::model::locale_fold_from;
use crate::model::locale_tally;
use crate::model::sb_fold_from;
use crate::model::sb_fold_range;
use crate::model::sb_step;
use crate::model::sb_tally;
use crate::model::scalar_at;
use crate::model::utf8_fold_from;
use crate::model::utf8_invalid_step;
use crate::model::utf8_tally;
use crate::model::utf8_valid_step;
use crate::model::utf8_width;
use crate::model::valid_scalar_at;
use crate::model::Tally;
use crate::LocaleEncoding;

verus! {

/// Under the UTF-8 policy each character consumes at least one byte, each
/// newline is a character, and each word start consumes a character.
proof fn lemma_utf8_fold_order(s: Seq<u8>, i: int, t: Tally)
    requires
        0 <= i <= s.len(),
    ensures
        utf8_fold_from(s, i, t).chars <= t.chars + s.len() - i,
        utf8_fold_from(s, i, t).lines - t.lines <= utf8_fold_from(s, i, t).chars - t.chars,
        utf8_fold_from(s, i, t).words - t.words <= utf8_fold_from(s, i, t).chars - t.chars,
    decreases s.len() - i,
{
    if i < s.len() {
        if valid_scalar_at(s, i) {
            lemma_utf8_fold_order(s, i + utf8_width(s[i]), utf8_valid_step(t, scalar_at(s, i)));
        } else {
            // An ill-formed byte is at least 0x80, so it is no newline.
            if s[i] < 0x80 {
                lemma_ascii_at(s, i);
            }
            assert(utf8_invalid_step(t, s[i]) == t);
            lemma_utf8_fold_order(s, i + 1, t);
        }
    }
}

/// Ordering of the totals under the UTF-8 locale: the buffer holds at least
/// as many bytes as characters, and at least as many characters as lines and
/// as word starts.
pub proof fn lemma_utf8_count_ordering(s: Seq<u8>)
    ensures
        utf8_tally(s).chars <= s.len(),
        utf8_tally(s).lines <= utf8_tally(s).chars,
        utf8_tally(s).words <= utf8_tally(s).chars,
{
    lemma_utf8_fold_order(s, 0, init_tally());
}

/// Under the single-byte policy every byte is one character.
proof fn lemma_sb_fold_chars(s: Seq<u8>, i: int, t: Tally)
    requires
        0 <= i <= s.len(),
    ensures
        sb_fold_from(s, i, t).chars == t.chars + s.len() - i,
    decreases s.len() - i,
{
    if i < s.len() {
        lemma_sb_fold_chars(s, i + 1, sb_step(t, s[i]));
    }
}

/// Identity of the single-byte locale: the character total is the byte
/// total.
pub proof fn lemma_single_byte_identity(s: Seq<u8>)
    ensures
        sb_tally(s).chars == s.len(),
{
    lemma_sb_fold_chars(s, 0, init_tally());
}

/// Counting a prefix in place equals counting it as its own buffer.
proof fn lemma_sb_take(s: Seq<u8>, p: int, i: int, t: Tally)
    requires
        0 <= i <= p <= s.len(),
    ensures
        sb_fold_from(s.take(p), i, t) == sb_fold_range(s, i, p, t),
    decreases p - i,
{
    if i < p {
        assert(s.take(p)[i] == s[i]);
        lemma_sb_take(s, p, i + 1, sb_step(t, s[i]));
    }
}

/// Cross-path agreement: the counting contract pins the result down, so any
/// two paths that meet it on the same buffer and locale — as every backend's
/// `count_text` does — return equal counts.
pub proof fn lemma_paths_agree(r1: crate::FileCounts, r2: crate::FileCounts, t: Tally, len: nat)
    requires
        crate::model::tally_matches(r1, t, len),
        crate::model::tally_matches(r2, t, len),
    ensures
        r1 == r2,
{
}

/// Splitting a buffer at any byte offset is lossless under the carry
/// protocol: count the first half from the start, then count the incomplete
/// suffix it reports followed by the second half, resuming from the reported
/// word-boundary flag.  The two counts add up to the whole buffer's count.
pub proof fn lemma_split_counting(s: Seq<u8>, p: int, locale: LocaleEncoding)
    requires
        0 <= p <= s.len(),
    ensures
        ({
            let a = s.take(p);
            let k = (match locale {
                LocaleEncoding::SingleByte => 0int,
                LocaleEncoding::Utf8 => incomplete_suffix(a),
            });
            let t1 = locale_fold_from(a, 0, init_tally(), locale);
            let t2 = locale_fold_from(
                s.subrange(p - k, s.len() as int),
                0,
                (Tally { lines: 0, words: 0, chars: 0, seen_space: t1.seen_space }),
                locale,
            );
            locale_tally(s, locale) == (Tally {
                lines: t1.lines + t2.lines,
                words: t1.words + t2.words,
                chars: t1.chars + t2.chars,
                seen_space: t2.seen_space,
            })
        }),
{
    let a = s.take(p);
    match locale {
        LocaleEncoding::SingleByte => {
            let t1 = sb_fold_from(a, 0, init_tally());
            lemma_sb_take(s, p, 0, init_tally());
            lemma_sb_fold_split(s, 0, p, init_tally());
            lemma_sb_fold_skip(s, p, p, t1);
            assert(s.subrange(p, s.len() as int) =~= s.skip(p));
            lemma_sb_fold_affine(s.skip(p), 0, t1);
        },
        LocaleEncoding::Utf8 => {
            let k = incomplete_suffix(a);
            let t1 = utf8_fold_from(a, 0, init_tally());
            lemma_suffix_shape(a);
            lemma_fold_compose(s, p, init_tally());
            lemma_utf8_fold_skip(s, p - k, p - k, t1);
            assert(s.subrange(p - k, s.len() as int) =~= s.skip(p - k));
            lemma_utf8_fold_affine(s.skip(p - k), 0, t1);
        },
    }
}

} // verus!
