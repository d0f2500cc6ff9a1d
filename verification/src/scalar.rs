//! The scalar reference counter.  It fixes the counting semantics that every
//! other path must reproduce, and reports the state a caller needs to resume
//! counting on a following buffer segment.

use vstd::prelude::*;
use vstd::slice::slice_index_get;
use vstd::slice::slice_subrange;
use crate::model::incomplete_suffix;
use crate::model::lemma_at_shift;
use crate::model::lemma_fold_tail_trim;
use crate::model::lemma_suffix_shape;
use crate::model::locale_fold_from;
use crate::model::sb_fold_from;
use crate::model::sb_step;
use crate::model::scalar_at;
use crate::model::utf8_fold_from;
use crate::model::utf8_invalid_step;
use crate::model::utf8_valid_step;
use crate::model::utf8_width;
use crate::model::valid_scalar_at;
use crate::model::Tally;
use crate::utf8::decode_utf8_char_at;
use crate::utf8::detect_incomplete_utf8_suffix;
use crate::utf8::is_unicode_whitespace;
use crate::FileCounts;
use crate::LocaleEncoding;

verus! {

/// Result from scalar counting with incomplete-sequence tracking.
#[derive(Debug, Clone, Copy, PartialEq, Eq, Structural)]
pub struct ScalarResult {
    /// The totals for this buffer alone.
    pub counts: FileCounts,
    /// Trailing bytes that an in-progress multi-byte sequence occupies.
    pub incomplete_bytes: usize,
    /// Whether the count ended in whitespace.
    pub seen_space: bool,
}

/// What scalar counting of `s` must report when it starts from `init_seen`.
pub open spec fn scalar_result_matches(
    r: ScalarResult,
    s: Seq<u8>,
    init_seen: bool,
    locale: LocaleEncoding,
) -> bool {
    let t = locale_fold_from(
        s,
        0,
        (Tally { lines: 0, words: 0, chars: 0, seen_space: init_seen }),
        locale,
    );
    &&& r.counts.lines == t.lines
    &&& r.counts.words == t.words
    &&& r.counts.chars == t.chars
    &&& r.counts.bytes == s.len()
    &&& r.seen_space == t.seen_space
    &&& r.incomplete_bytes == (match locale {
        LocaleEncoding::SingleByte => 0int,
        LocaleEncoding::Utf8 => incomplete_suffix(s),
    })
}

/// Count a whole buffer under `locale`.
pub fn word_count_scalar(content: &[u8], locale: LocaleEncoding) -> (r: FileCounts)
    ensures
        crate::model::tally_matches(r, crate::model::locale_tally(content@, locale), content@.len()),
{
    word_count_scalar_with_state(content, true, locale).counts
}

/// Count a buffer segment under `locale`, starting from a carried
/// word-boundary state, and report the state needed to resume on the next
/// segment.
pub fn word_count_scalar_with_state(
    content: &[u8],
    initial_seen_space: bool,
    locale: LocaleEncoding,
) -> (r: ScalarResult)
    ensures
        scalar_result_matches(r, content@, initial_seen_space, locale),
{
    match locale {
        LocaleEncoding::SingleByte => word_count_scalar_bytes(content, initial_seen_space),
        LocaleEncoding::Utf8 => word_count_scalar_chars(content, initial_seen_space),
    }
}

/// Single-byte counting: every byte is one character, whitespace is ASCII
/// whitespace, newline is 0x0a.
fn word_count_scalar_bytes(content: &[u8], initial_seen_space: bool) -> (r: ScalarResult)
    ensures
        scalar_result_matches(r, content@, initial_seen_space, LocaleEncoding::SingleByte),
{
    let ghost s = content@;
    let ghost start = (Tally { lines: 0, words: 0, chars: 0, seen_space: initial_seen_space });
    let mut lines: usize = 0;
    let mut words: usize = 0;
    let mut seen_space = initial_seen_space;
    let mut i: usize = 0;
    while i < content.len()
        invariant
            i <= s.len(),
            s == content@,
            lines <= i,
            words <= i,
            sb_fold_from(s, 0, start) == sb_fold_from(
                s,
                i as int,
                (Tally {
                    lines: lines as nat,
                    words: words as nat,
                    chars: i as nat,
                    seen_space: seen_space,
                }),
            ),
        decreases s.len() - i,
    {
        let ghost t = (Tally {
            lines: lines as nat,
            words: words as nat,
            chars: i as nat,
            seen_space: seen_space,
        });
        let byte = *slice_index_get(content, i);
        if byte == 0x0a {
            lines = lines + 1;
        }
        let is_ws = matches!(byte, 0x20 | 0x09..=0x0d);
        if is_ws {
            seen_space = true;
        } else if seen_space {
            words = words + 1;
            seen_space = false;
        }
        proof {
            assert(sb_fold_from(s, i as int, t) == sb_fold_from(s, i + 1, sb_step(t, s[i as int])));
        }
        i = i + 1;
    }
    ScalarResult {
        counts: FileCounts { lines, words, bytes: content.len(), chars: content.len() },
        incomplete_bytes: 0,
        seen_space,
    }
}

/// UTF-8 counting: decode one scalar at a time over the part of the buffer
/// that precedes the incomplete suffix, advancing one byte over every
/// ill-formed position.  Ill-formed bytes count toward no column and leave
/// the word-boundary state alone, except that a newline-valued byte would
/// still end a line.
fn word_count_scalar_chars(content: &[u8], initial_seen_space: bool) -> (r: ScalarResult)
    ensures
        scalar_result_matches(r, content@, initial_seen_space, LocaleEncoding::Utf8),
{
    let ghost s = content@;
    let ghost start = (Tally { lines: 0, words: 0, chars: 0, seen_space: initial_seen_space });
    let incomplete = detect_incomplete_utf8_suffix(content);
    proof {
        lemma_suffix_shape(s);
    }
    let process_len = content.len() - incomplete;

    let mut lines: usize = 0;
    let mut words: usize = 0;
    let mut chars: usize = 0;
    let mut seen_space = initial_seen_space;
    let mut i: usize = 0;
    while i < process_len
        invariant
            i <= s.len(),
            process_len == s.len() - incomplete_suffix(s),
            process_len <= s.len(),
            s == content@,
            lines <= i,
            words <= i,
            chars <= i,
            utf8_fold_from(s, 0, start) == utf8_fold_from(
                s,
                i as int,
                (Tally {
                    lines: lines as nat,
                    words: words as nat,
                    chars: chars as nat,
                    seen_space: seen_space,
                }),
            ),
        decreases s.len() - i,
    {
        let ghost t = (Tally {
            lines: lines as nat,
            words: words as nat,
            chars: chars as nat,
            seen_space: seen_space,
        });
        proof {
            lemma_at_shift(s, i as int);
        }
        let rest = slice_subrange(content, i, content.len());
        match decode_utf8_char_at(rest) {
            Ok((ch, len)) => {
                chars = chars + 1;
                if ch == '\n' {
                    lines = lines + 1;
                }
                if is_unicode_whitespace(ch) {
                    seen_space = true;
                } else if seen_space {
                    words = words + 1;
                    seen_space = false;
                }
                proof {
                    assert(valid_scalar_at(s, i as int));
                    assert(ch as u32 == scalar_at(s, i as int));
                    lemma_newline_char(ch);
                    assert(utf8_fold_from(s, i as int, t) == utf8_fold_from(
                        s,
                        i + utf8_width(s[i as int]),
                        utf8_valid_step(t, scalar_at(s, i as int)),
                    ));
                }
                i = i + len;
            },
            Err(_) => {
                proof {
                    assert(!valid_scalar_at(s, i as int));
                }
                let byte = *slice_index_get(content, i);
                if byte == 0x0a {
                    lines = lines + 1;
                    seen_space = true;
                }
                proof {
                    assert(utf8_fold_from(s, i as int, t) == utf8_fold_from(
                        s,
                        i + 1,
                        utf8_invalid_step(t, s[i as int]),
                    ));
                }
                i = i + 1;
            },
        }
    }
    proof {
        lemma_fold_tail_trim(
            s,
            i as int,
            (Tally {
                lines: lines as nat,
                words: words as nat,
                chars: chars as nat,
                seen_space: seen_space,
            }),
        );
    }
    ScalarResult {
        counts: FileCounts { lines, words, bytes: content.len(), chars },
        incomplete_bytes: incomplete,
        seen_space,
    }
}


/// A character is the newline character exactly when its scalar value is 0x0a.
proof fn lemma_newline_char(ch: char)
    ensures
        (ch == '\n') == (ch as u32 == 0x0a),
{
}

} // verus!
