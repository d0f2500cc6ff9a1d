//! Mathematical model of the counting semantics.
//!
//! Both counting policies are folds over the byte sequence.  The single-byte
//! policy steps one byte at a time; the UTF-8 policy steps one decoded scalar
//! at a time, advancing by one byte over every ill-formed position.  The
//! incomplete-suffix scan models how many trailing bytes belong to a
//! multi-byte sequence that the buffer cuts short.

use vstd::prelude::*;
use vstd::utf8::is_leading_byte_width_1;
use vstd::utf8::is_leading_byte_width_2;
use vstd::utf8::is_leading_byte_width_3;
use vstd::utf8::is_leading_byte_width_4;
use vstd::utf8::is_continuation_byte;
use vstd::utf8::codepoint_width_1;
use vstd::utf8::codepoint_width_2;
use vstd::utf8::codepoint_width_3;
use vstd::utf8::codepoint_width_4;
use vstd::utf8::not_overlong_encoding;
use vstd::utf8::not_surrogate;

verus! {

/// Running totals of a count together with the word-boundary flag.
pub struct Tally {
    pub lines: nat,
    pub words: nat,
    pub chars: nat,
    pub seen_space: bool,
}

/// Counting starts as if preceded by whitespace, so a buffer that opens with a
/// non-whitespace byte starts a word.
pub open spec fn init_tally() -> Tally {
    (Tally { lines: 0, words: 0, chars: 0, seen_space: true })
}

/// ASCII whitespace: space, or the range from tab to carriage return.
pub open spec fn is_ascii_space_byte(b: u8) -> bool {
    b == 0x20 || (0x09 <= b && b <= 0x0d)
}

/// The Unicode White_Space property over a scalar value.
pub open spec fn is_unicode_space_scalar(cp: u32) -> bool {
    ||| (0x09 <= cp && cp <= 0x0d)
    ||| cp == 0x20
    ||| cp == 0x85
    ||| cp == 0xa0
    ||| cp == 0x1680
    ||| (0x2000 <= cp && cp <= 0x200a)
    ||| cp == 0x2028
    ||| cp == 0x2029
    ||| cp == 0x202f
    ||| cp == 0x205f
    ||| cp == 0x3000
}

// ---------------------------------------------------------------------------
// Single-byte policy
// ---------------------------------------------------------------------------

/// One byte of single-byte counting: every byte is a character, newline is
/// 0x0a, words start on a whitespace-to-non-whitespace transition.
pub open spec fn sb_step(t: Tally, b: u8) -> Tally {
    let lines: nat = if b == 0x0a {
        t.lines + 1
    } else {
        t.lines
    };
    if is_ascii_space_byte(b) {
        (Tally { lines: lines, words: t.words, chars: t.chars + 1, seen_space: true })
    } else if t.seen_space {
        (Tally { lines: lines, words: t.words + 1, chars: t.chars + 1, seen_space: false })
    } else {
        (Tally { lines: lines, words: t.words, chars: t.chars + 1, seen_space: false })
    }
}

/// Single-byte counting of `s` from position `i` onward.
pub open spec fn sb_fold_from(s: Seq<u8>, i: int, t: Tally) -> Tally
    decreases s.len() - i,
{
    if i < 0 || i >= s.len() {
        t
    } else {
        sb_fold_from(s, i + 1, sb_step(t, s[i]))
    }
}

/// Single-byte counting of a whole buffer.
pub open spec fn sb_tally(s: Seq<u8>) -> Tally {
    sb_fold_from(s, 0, init_tally())
}

// ---------------------------------------------------------------------------
// UTF-8 well-formedness at a position
// ---------------------------------------------------------------------------

/// Number of bytes a sequence led by `b` declares, or 0 when `b` cannot lead one.
pub open spec fn utf8_width(b: u8) -> int {
    if is_leading_byte_width_1(b) {
        1
    } else if is_leading_byte_width_2(b) {
        2
    } else if is_leading_byte_width_3(b) {
        3
    } else if is_leading_byte_width_4(b) {
        4
    } else {
        0
    }
}

/// The declared sequence at position `i` fits in `s` and its trailing bytes
/// are continuation bytes.
pub open spec fn pattern_at(s: Seq<u8>, i: int) -> bool
    recommends
        0 <= i < s.len(),
{
    let w = utf8_width(s[i]);
    &&& w >= 1
    &&& i + w <= s.len()
    &&& (w >= 2 ==> is_continuation_byte(s[i + 1]))
    &&& (w >= 3 ==> is_continuation_byte(s[i + 2]))
    &&& (w == 4 ==> is_continuation_byte(s[i + 3]))
}

/// The codepoint the declared sequence at position `i` encodes.
pub open spec fn scalar_at(s: Seq<u8>, i: int) -> u32
    recommends
        pattern_at(s, i),
{
    let b = s[i];
    if utf8_width(b) == 1 {
        codepoint_width_1(b)
    } else if utf8_width(b) == 2 {
        codepoint_width_2(b, s[i + 1])
    } else if utf8_width(b) == 3 {
        codepoint_width_3(b, s[i + 1], s[i + 2])
    } else {
        codepoint_width_4(b, s[i + 1], s[i + 2], s[i + 3])
    }
}

/// Position `i` starts a well-formed encoding of a Unicode scalar: the bit
/// pattern fits, it is not overlong, and it is not a surrogate half.
pub open spec fn valid_scalar_at(s: Seq<u8>, i: int) -> bool
    recommends
        0 <= i < s.len(),
{
    &&& pattern_at(s, i)
    &&& not_overlong_encoding(scalar_at(s, i), utf8_width(s[i]))
    &&& not_surrogate(scalar_at(s, i))
}

// ---------------------------------------------------------------------------
// UTF-8 policy
// ---------------------------------------------------------------------------

/// One decoded scalar of UTF-8 counting.
pub open spec fn utf8_valid_step(t: Tally, cp: u32) -> Tally {
    let lines: nat = if cp == 0x0a {
        t.lines + 1
    } else {
        t.lines
    };
    if is_unicode_space_scalar(cp) {
        (Tally { lines: lines, words: t.words, chars: t.chars + 1, seen_space: true })
    } else if t.seen_space {
        (Tally { lines: lines, words: t.words + 1, chars: t.chars + 1, seen_space: false })
    } else {
        (Tally { lines: lines, words: t.words, chars: t.chars + 1, seen_space: false })
    }
}

/// One ill-formed byte of UTF-8 counting.  Such a byte is no character and no
/// whitespace, and it neither starts nor ends a word; a newline-valued byte
/// would still end a line, though in fact every ill-formed byte is at least
/// 0x80.
pub open spec fn utf8_invalid_step(t: Tally, b: u8) -> Tally {
    if b == 0x0a {
        (Tally { lines: t.lines + 1, words: t.words, chars: t.chars, seen_space: true })
    } else {
        t
    }
}

/// UTF-8 counting of `s` from position `i` onward.
pub open spec fn utf8_fold_from(s: Seq<u8>, i: int, t: Tally) -> Tally
    decreases s.len() - i,
{
    if i < 0 || i >= s.len() {
        t
    } else if valid_scalar_at(s, i) {
        utf8_fold_from(s, i + utf8_width(s[i]), utf8_valid_step(t, scalar_at(s, i)))
    } else {
        utf8_fold_from(s, i + 1, utf8_invalid_step(t, s[i]))
    }
}

/// UTF-8 counting of a whole buffer.
pub open spec fn utf8_tally(s: Seq<u8>) -> Tally {
    utf8_fold_from(s, 0, init_tally())
}

/// The totals a count of `s` under `locale` must report.
pub open spec fn locale_tally(s: Seq<u8>, locale: crate::LocaleEncoding) -> Tally {
    match locale {
        crate::LocaleEncoding::SingleByte => sb_tally(s),
        crate::LocaleEncoding::Utf8 => utf8_tally(s),
    }
}

/// Counting of `s` from position `i` under `locale`, starting from `t`.
pub open spec fn locale_fold_from(s: Seq<u8>, i: int, t: Tally, locale: crate::LocaleEncoding) -> Tally {
    match locale {
        crate::LocaleEncoding::SingleByte => sb_fold_from(s, i, t),
        crate::LocaleEncoding::Utf8 => utf8_fold_from(s, i, t),
    }
}

/// How a `FileCounts` value reports a tally over a buffer of `len` bytes.
pub open spec fn tally_matches(r: crate::FileCounts, t: Tally, len: nat) -> bool {
    &&& r.lines == t.lines
    &&& r.words == t.words
    &&& r.chars == t.chars
    &&& r.bytes == len
}

// ---------------------------------------------------------------------------
// Incomplete suffix
// ---------------------------------------------------------------------------

/// Lowest position the backward scan may visit: sequences are at most 4 bytes.
pub open spec fn scan_floor(s: Seq<u8>) -> int {
    if s.len() <= 4 {
        0
    } else {
        s.len() - 4
    }
}

/// Backward scan for the byte that leads the trailing sequence.  A leading
/// byte without enough trailing bytes leaves that many bytes incomplete; a
/// one-byte character or an ill-formed byte closes the buffer; a run of
/// nothing but continuation bytes is incomplete throughout the window.
pub open spec fn suffix_scan(s: Seq<u8>, pos: int) -> int
    recommends
        pos < s.len(),
    decreases pos + 1,
{
    if pos < scan_floor(s) {
        s.len() - scan_floor(s)
    } else {
        let b = s[pos];
        if is_leading_byte_width_1(b) {
            0
        } else if is_leading_byte_width_2(b) {
            if s.len() - pos < 2 {
                s.len() - pos
            } else {
                0
            }
        } else if is_leading_byte_width_3(b) {
            if s.len() - pos < 3 {
                s.len() - pos
            } else {
                0
            }
        } else if is_leading_byte_width_4(b) {
            if s.len() - pos < 4 {
                s.len() - pos
            } else {
                0
            }
        } else if is_continuation_byte(b) {
            suffix_scan(s, pos - 1)
        } else {
            0
        }
    }
}

/// Number of trailing bytes of `s` that an in-progress multi-byte sequence
/// occupies.
pub open spec fn incomplete_suffix(s: Seq<u8>) -> int {
    if s.len() == 0 {
        0
    } else {
        suffix_scan(s, s.len() - 1)
    }
}

// ---------------------------------------------------------------------------
// Windowed folds
// ---------------------------------------------------------------------------

/// Single-byte counting over the window `[x, e)` of `s`.
pub open spec fn sb_fold_range(s: Seq<u8>, x: int, e: int, t: Tally) -> Tally
    decreases e - x,
{
    if x < 0 || x >= e || e > s.len() {
        t
    } else {
        sb_fold_range(s, x + 1, e, sb_step(t, s[x]))
    }
}

/// A windowed count continues into the rest of the buffer.
pub proof fn lemma_sb_fold_split(s: Seq<u8>, x: int, e: int, t: Tally)
    requires
        0 <= x <= e <= s.len(),
    ensures
        sb_fold_from(s, x, t) == sb_fold_from(s, e, sb_fold_range(s, x, e, t)),
    decreases e - x,
{
    if x < e {
        lemma_sb_fold_split(s, x + 1, e, sb_step(t, s[x]));
    }
}

// ---------------------------------------------------------------------------
// Arithmetic facts about folds
// ---------------------------------------------------------------------------

/// Folding only ever increases each total.
pub proof fn lemma_sb_fold_mono(s: Seq<u8>, i: int, t: Tally)
    ensures
        sb_fold_from(s, i, t).lines >= t.lines,
        sb_fold_from(s, i, t).words >= t.words,
        sb_fold_from(s, i, t).chars >= t.chars,
    decreases s.len() - i,
{
    if 0 <= i < s.len() {
        lemma_sb_fold_mono(s, i + 1, sb_step(t, s[i]));
    }
}

/// Each total grows by at most one per byte folded.
pub proof fn lemma_sb_fold_bounds(s: Seq<u8>, i: int, t: Tally)
    requires
        0 <= i <= s.len(),
    ensures
        sb_fold_from(s, i, t).lines <= t.lines + s.len() - i,
        sb_fold_from(s, i, t).words <= t.words + s.len() - i,
        sb_fold_from(s, i, t).chars <= t.chars + s.len() - i,
    decreases s.len() - i,
{
    if i < s.len() {
        lemma_sb_fold_bounds(s, i + 1, sb_step(t, s[i]));
    }
}

/// Folding only ever increases each total.
pub proof fn lemma_utf8_fold_mono(s: Seq<u8>, i: int, t: Tally)
    ensures
        utf8_fold_from(s, i, t).lines >= t.lines,
        utf8_fold_from(s, i, t).words >= t.words,
        utf8_fold_from(s, i, t).chars >= t.chars,
    decreases s.len() - i,
{
    if 0 <= i < s.len() {
        if valid_scalar_at(s, i) {
            lemma_utf8_fold_mono(s, i + utf8_width(s[i]), utf8_valid_step(t, scalar_at(s, i)));
        } else {
            lemma_utf8_fold_mono(s, i + 1, utf8_invalid_step(t, s[i]));
        }
    }
}

/// Each total grows by at most one per byte folded.
pub proof fn lemma_utf8_fold_bounds(s: Seq<u8>, i: int, t: Tally)
    requires
        0 <= i <= s.len(),
    ensures
        utf8_fold_from(s, i, t).lines <= t.lines + s.len() - i,
        utf8_fold_from(s, i, t).words <= t.words + s.len() - i,
        utf8_fold_from(s, i, t).chars <= t.chars + s.len() - i,
    decreases s.len() - i,
{
    if i < s.len() {
        if valid_scalar_at(s, i) {
            lemma_utf8_fold_bounds(s, i + utf8_width(s[i]), utf8_valid_step(t, scalar_at(s, i)));
        } else {
            lemma_utf8_fold_bounds(s, i + 1, utf8_invalid_step(t, s[i]));
        }
    }
}

/// Starting totals pass through a fold unchanged: folding from `t` equals
/// folding from zero totals with the same boundary flag, added onto `t`.
pub proof fn lemma_sb_fold_affine(s: Seq<u8>, i: int, t: Tally)
    ensures
        ({
            let z = sb_fold_from(s, i, (Tally { lines: 0, words: 0, chars: 0, seen_space: t.seen_space }));
            sb_fold_from(s, i, t) == (Tally {
                lines: t.lines + z.lines,
                words: t.words + z.words,
                chars: t.chars + z.chars,
                seen_space: z.seen_space,
            })
        }),
    decreases s.len() - i,
{
    if 0 <= i < s.len() {
        lemma_sb_fold_affine(s, i + 1, sb_step(t, s[i]));
        lemma_sb_fold_affine(
            s,
            i + 1,
            sb_step((Tally { lines: 0, words: 0, chars: 0, seen_space: t.seen_space }), s[i]),
        );
    }
}

/// Starting totals pass through a fold unchanged: folding from `t` equals
/// folding from zero totals with the same boundary flag, added onto `t`.
pub proof fn lemma_utf8_fold_affine(s: Seq<u8>, i: int, t: Tally)
    ensures
        ({
            let z = utf8_fold_from(
                s,
                i,
                (Tally { lines: 0, words: 0, chars: 0, seen_space: t.seen_space }),
            );
            utf8_fold_from(s, i, t) == (Tally {
                lines: t.lines + z.lines,
                words: t.words + z.words,
                chars: t.chars + z.chars,
                seen_space: z.seen_space,
            })
        }),
    decreases s.len() - i,
{
    let zt = (Tally { lines: 0, words: 0, chars: 0, seen_space: t.seen_space });
    if 0 <= i < s.len() {
        if valid_scalar_at(s, i) {
            let cp = scalar_at(s, i);
            lemma_utf8_fold_affine(s, i + utf8_width(s[i]), utf8_valid_step(t, cp));
            lemma_utf8_fold_affine(s, i + utf8_width(s[i]), utf8_valid_step(zt, cp));
        } else {
            lemma_utf8_fold_affine(s, i + 1, utf8_invalid_step(t, s[i]));
            lemma_utf8_fold_affine(s, i + 1, utf8_invalid_step(zt, s[i]));
        }
    }
}

// ---------------------------------------------------------------------------
// Folds are local
// ---------------------------------------------------------------------------

/// Decoding at position `i` of `s` sees exactly what decoding at position
/// `i - j` of the suffix `s.skip(j)` sees.
pub proof fn lemma_at_offset(s: Seq<u8>, j: int, i: int)
    requires
        0 <= j <= i < s.len(),
    ensures
        valid_scalar_at(s.skip(j), i - j) == valid_scalar_at(s, i),
        s.skip(j)[i - j] == s[i],
        pattern_at(s, i) ==> scalar_at(s.skip(j), i - j) == scalar_at(s, i),
        pattern_at(s.skip(j), i - j) ==> scalar_at(s.skip(j), i - j) == scalar_at(s, i),
{
    let u = s.skip(j);
    assert(u.len() == s.len() - j);
    assert(u[i - j] == s[i]);
    if i + 1 < s.len() {
        assert(u[i - j + 1] == s[i + 1]);
    }
    if i + 2 < s.len() {
        assert(u[i - j + 2] == s[i + 2]);
    }
    if i + 3 < s.len() {
        assert(u[i - j + 3] == s[i + 3]);
    }
}

/// Single-byte counting does not depend on the bytes before its window.
pub proof fn lemma_sb_fold_skip(s: Seq<u8>, j: int, i: int, t: Tally)
    requires
        0 <= j <= i <= s.len(),
    ensures
        sb_fold_from(s, i, t) == sb_fold_from(s.skip(j), i - j, t),
    decreases s.len() - i,
{
    if i < s.len() {
        assert(s.skip(j)[i - j] == s[i]);
        lemma_sb_fold_skip(s, j, i + 1, sb_step(t, s[i]));
    }
}

/// UTF-8 counting does not depend on the bytes before its window.
pub proof fn lemma_utf8_fold_skip(s: Seq<u8>, j: int, i: int, t: Tally)
    requires
        0 <= j <= i <= s.len(),
    ensures
        utf8_fold_from(s, i, t) == utf8_fold_from(s.skip(j), i - j, t),
    decreases s.len() - i,
{
    if i < s.len() {
        lemma_at_offset(s, j, i);
        if valid_scalar_at(s, i) {
            lemma_utf8_fold_skip(s, j, i + utf8_width(s[i]), utf8_valid_step(t, scalar_at(s, i)));
        } else {
            lemma_utf8_fold_skip(s, j, i + 1, utf8_invalid_step(t, s[i]));
        }
    }
}

// ---------------------------------------------------------------------------
// ASCII runs
// ---------------------------------------------------------------------------

/// A one-byte character is always a well-formed scalar, and its scalar value
/// is the byte itself.
pub proof fn lemma_ascii_at(s: Seq<u8>, i: int)
    requires
        0 <= i < s.len(),
        s[i] < 0x80,
    ensures
        valid_scalar_at(s, i),
        utf8_width(s[i]) == 1,
        scalar_at(s, i) == s[i] as u32,
{
    let b = s[i];
    assert(b & 0x7f == b) by (bit_vector)
        requires
            b < 0x80,
    ;
}

/// On one-byte characters the two whitespace classifications agree.
pub proof fn lemma_ascii_space_agree(b: u8)
    requires
        b < 0x80,
    ensures
        is_unicode_space_scalar(b as u32) == is_ascii_space_byte(b),
{
}

/// Over a run of one-byte characters, UTF-8 counting is single-byte counting.
pub proof fn lemma_utf8_ascii_run(s: Seq<u8>, x: int, e: int, t: Tally)
    requires
        0 <= x <= e <= s.len(),
        forall|j: int| x <= j < e ==> #[trigger] s[j] < 0x80,
    ensures
        utf8_fold_from(s, x, t) == utf8_fold_from(s, e, sb_fold_range(s, x, e, t)),
    decreases e - x,
{
    if x < e {
        lemma_ascii_at(s, x);
        lemma_ascii_space_agree(s[x]);
        assert(utf8_valid_step(t, scalar_at(s, x)) == sb_step(t, s[x]));
        lemma_utf8_ascii_run(s, x + 1, e, sb_step(t, s[x]));
    }
}

// ---------------------------------------------------------------------------
// Shape of the incomplete suffix
// ---------------------------------------------------------------------------

/// What the backward scan finds at `pos` determines the whole trailing shape:
/// the scan reaches `pos` only over continuation bytes, so a positive result
/// `k` leaves `k` trailing bytes that are continuation bytes except possibly
/// for a leading byte at the front that declares more than `k` bytes.
proof fn lemma_scan_shape(s: Seq<u8>, pos: int)
    requires
        0 <= pos < s.len(),
        forall|j: int| pos < j < s.len() ==> is_continuation_byte(#[trigger] s[j]),
    ensures
        ({
            let k = suffix_scan(s, pos);
            &&& 0 <= k <= 4
            &&& k <= s.len()
            &&& k > 0 ==> {
                &&& (forall|j: int|
                    s.len() - k < j < s.len() ==> is_continuation_byte(#[trigger] s[j]))
                &&& (is_continuation_byte(s[s.len() - k]) || utf8_width(s[s.len() - k]) > k)
            }
        }),
    decreases pos + 1,
{
    if pos >= scan_floor(s) && is_continuation_byte(s[pos]) {
        if pos - 1 >= 0 {
            lemma_scan_shape(s, pos - 1);
        } else {
            assert(suffix_scan(s, -1) == s.len() - scan_floor(s));
            assert(suffix_scan(s, pos) == suffix_scan(s, pos - 1));
        }
    }
}

/// The incomplete suffix is at most 4 bytes and fits in the buffer, and each
/// of its bytes is either a continuation byte or a leading byte cut short.
pub proof fn lemma_suffix_shape(s: Seq<u8>)
    ensures
        ({
            let k = incomplete_suffix(s);
            &&& 0 <= k <= 4
            &&& k <= s.len()
            &&& k > 0 ==> {
                &&& (forall|j: int|
                    s.len() - k < j < s.len() ==> is_continuation_byte(#[trigger] s[j]))
                &&& (is_continuation_byte(s[s.len() - k]) || utf8_width(s[s.len() - k]) > k)
            }
        }),
{
    if s.len() > 0 {
        lemma_scan_shape(s, s.len() - 1);
    }
}

/// No position inside the incomplete suffix starts a well-formed scalar, and
/// none of its bytes is a newline: the suffix is a leading byte whose
/// sequence does not fit, followed by continuation bytes.
pub proof fn lemma_trim_region_dead(s: Seq<u8>, i: int)
    requires
        s.len() - incomplete_suffix(s) <= i < s.len(),
    ensures
        !valid_scalar_at(s, i),
        s[i] >= 0x80,
    decreases s.len() - i,
{
    lemma_suffix_shape(s);
    let k = incomplete_suffix(s);
    if i > s.len() - k {
        assert(is_continuation_byte(s[i]));
    } else {
        assert(i == s.len() - k);
        if !is_continuation_byte(s[i]) {
            assert(utf8_width(s[i]) > k);
            assert(!pattern_at(s, i));
        }
    }
}

/// Counting is unchanged over the incomplete suffix: every position there is
/// ill-formed and no byte there is a newline.
pub proof fn lemma_fold_tail_trim(s: Seq<u8>, i: int, t: Tally)
    requires
        s.len() - incomplete_suffix(s) <= i <= s.len(),
    ensures
        utf8_fold_from(s, i, t) == t,
    decreases s.len() - i,
{
    if i < s.len() {
        lemma_trim_region_dead(s, i);
        lemma_fold_tail_trim(s, i + 1, t);
    }
}

// ---------------------------------------------------------------------------
// Decoding is local
// ---------------------------------------------------------------------------

/// Decoding at position `i` of `s` sees exactly what decoding at the front of
/// the suffix starting at `i` sees.
pub proof fn lemma_at_shift(s: Seq<u8>, i: int)
    requires
        0 <= i < s.len(),
    ensures
        valid_scalar_at(s.subrange(i, s.len() as int), 0) == valid_scalar_at(s, i),
        s.subrange(i, s.len() as int)[0] == s[i],
        pattern_at(s, i) ==> scalar_at(s.subrange(i, s.len() as int), 0) == scalar_at(s, i),
{
    let sub = s.subrange(i, s.len() as int);
    assert(sub.len() == s.len() - i);
    assert(sub[0] == s[i]);
    if 1 < sub.len() {
        assert(sub[1] == s[i + 1]);
    }
    if 2 < sub.len() {
        assert(sub[2] == s[i + 2]);
    }
    if 3 < sub.len() {
        assert(sub[3] == s[i + 3]);
    }
}


} // verus!
