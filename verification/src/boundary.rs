//! Why carrying the incomplete suffix across a cut is lossless.
//!
//! Cutting a buffer after `p` bytes and handing the cut's incomplete suffix
//! to the next segment gives the same totals as counting the whole buffer in
//! one pass.  The proof turns on one fact: a decode step that would cross the
//! cut can start only at the position the suffix scan finds, so counting the
//! prefix alone diverges from counting in context only inside the incomplete
//! suffix, where every step is a no-op.

use vstd::prelude::*;
use vstd::utf8::is_continuation_byte;
use crate::model::incomplete_suffix;
use crate::model::lemma_fold_tail_trim;
use crate::model::lemma_suffix_shape;
use crate::model::pattern_at;
use crate::model::scalar_at;
use crate::model::scan_floor;
use crate::model::suffix_scan;
use crate::model::utf8_fold_from;
use crate::model::utf8_invalid_step;
use crate::model::utf8_valid_step;
use crate::model::utf8_width;
use crate::model::valid_scalar_at;
use crate::model::Tally;

verus! {

/// A continuation byte never starts a well-formed scalar, so a run of them
/// counts as nothing.
proof fn lemma_fold_cont_run(s: Seq<u8>, x: int, e: int, t: Tally)
    requires
        0 <= x <= e <= s.len(),
        forall|j: int| x <= j < e ==> is_continuation_byte(#[trigger] s[j]),
    ensures
        utf8_fold_from(s, x, t) == utf8_fold_from(s, e, t),
    decreases e - x,
{
    if x < e {
        assert(utf8_width(s[x]) == 0);
        assert(!pattern_at(s, x));
        assert(utf8_invalid_step(t, s[x]) == t);
        lemma_fold_cont_run(s, x + 1, e, t);
    }
}

/// When every byte after `q` is a continuation byte and the byte at `q`
/// declares a sequence longer than what remains, the backward scan lands on
/// `q` and reports everything from `q` on as incomplete.
proof fn lemma_scan_finds_leader(a: Seq<u8>, pos: int, q: int)
    requires
        0 <= q <= pos < a.len(),
        utf8_width(a[q]) >= 2,
        a.len() - q < utf8_width(a[q]),
        forall|j: int| q < j < a.len() ==> is_continuation_byte(#[trigger] a[j]),
    ensures
        suffix_scan(a, pos) == a.len() - q,
    decreases pos,
{
    assert(a.len() - q <= 3);
    assert(q >= scan_floor(a));
    if pos > q {
        assert(is_continuation_byte(a[pos]));
        lemma_scan_finds_leader(a, pos - 1, q);
    }
}

/// Before the cut's incomplete suffix, a position decodes in the prefix
/// exactly as it decodes in the whole buffer, and a well-formed scalar there
/// stays inside the prefix.
proof fn lemma_prefix_step(s: Seq<u8>, p: int, q: int)
    requires
        0 <= q < p <= s.len(),
        q < p - incomplete_suffix(s.take(p)),
    ensures
        valid_scalar_at(s.take(p), q) == valid_scalar_at(s, q),
        s.take(p)[q] == s[q],
        valid_scalar_at(s, q) ==> q + utf8_width(s[q]) <= p,
        valid_scalar_at(s, q) ==> scalar_at(s.take(p), q) == scalar_at(s, q),
{
    let a = s.take(p);
    let w = utf8_width(s[q]);
    assert(a[q] == s[q]);
    if q + 1 < p {
        assert(a[q + 1] == s[q + 1]);
    }
    if q + 2 < p {
        assert(a[q + 2] == s[q + 2]);
    }
    if q + 3 < p {
        assert(a[q + 3] == s[q + 3]);
    }
    if valid_scalar_at(s, q) {
        // A scalar crossing the cut would make the scan report exactly the
        // bytes from `q` on as incomplete, putting `q` at the cut's suffix.
        if q + w > p {
            assert(w >= 2);
            assert(forall|j: int| q < j < p ==> is_continuation_byte(#[trigger] s[j]));
            assert(forall|j: int| q < j < a.len() ==> is_continuation_byte(#[trigger] a[j]));
            lemma_scan_finds_leader(a, a.len() - 1, q);
            assert(incomplete_suffix(a) == p - q);
            assert(false);
        }
        assert(pattern_at(a, q));
        assert(scalar_at(a, q) == scalar_at(s, q));
        assert(valid_scalar_at(a, q));
    } else {
        if valid_scalar_at(a, q) {
            assert(pattern_at(s, q));
            assert(scalar_at(a, q) == scalar_at(s, q));
            assert(false);
        }
    }
}

/// Counting from `i` in the whole buffer equals counting the rest of the
/// prefix from `i` and then resuming at the cut minus its incomplete suffix.
proof fn lemma_compose_from(s: Seq<u8>, p: int, i: int, t: Tally)
    requires
        0 <= i <= p <= s.len(),
        i <= p - incomplete_suffix(s.take(p)),
    ensures
        utf8_fold_from(s, i, t) == utf8_fold_from(
            s,
            p - incomplete_suffix(s.take(p)),
            utf8_fold_from(s.take(p), i, t),
        ),
    decreases p - i,
{
    let a = s.take(p);
    let k = incomplete_suffix(a);
    let j = p - k;
    lemma_suffix_shape(a);
    if i == j {
        lemma_fold_tail_trim(a, i, t);
    } else {
        lemma_prefix_step(s, p, i);
        if valid_scalar_at(s, i) {
            let w = utf8_width(s[i]);
            let t1 = utf8_valid_step(t, scalar_at(s, i));
            assert(utf8_fold_from(s, i, t) == utf8_fold_from(s, i + w, t1));
            assert(utf8_fold_from(a, i, t) == utf8_fold_from(a, i + w, t1));
            if i + w <= j {
                lemma_compose_from(s, p, i + w, t1);
            } else {
                // The scalar jumps over the cut's suffix boundary; everything
                // under it is continuation bytes, dead in both counts.
                assert(forall|j2: int| i < j2 < i + w ==> is_continuation_byte(#[trigger] s[j2]));
                lemma_fold_tail_trim(a, i + w, t1);
                lemma_fold_cont_run(s, j, i + w, t1);
            }
        } else {
            let t1 = utf8_invalid_step(t, s[i]);
            assert(utf8_fold_from(s, i, t) == utf8_fold_from(s, i + 1, t1));
            assert(utf8_fold_from(a, i, t) == utf8_fold_from(a, i + 1, t1));
            lemma_compose_from(s, p, i + 1, t1);
        }
    }
}

/// Cutting a buffer after `p` bytes is lossless: count the first `p` bytes
/// alone, then resume the whole-buffer count at the cut minus the incomplete
/// suffix the cut left behind.
pub proof fn lemma_fold_compose(s: Seq<u8>, p: int, t: Tally)
    requires
        0 <= p <= s.len(),
    ensures
        utf8_fold_from(s, 0, t) == utf8_fold_from(
            s,
            p - incomplete_suffix(s.take(p)),
            utf8_fold_from(s.take(p), 0, t),
        ),
{
    lemma_suffix_shape(s.take(p));
    lemma_compose_from(s, p, 0, t);
}

/// The incomplete suffix of a buffer is decided by its last four bytes: any
/// tail of at least four bytes has the same incomplete suffix.
pub proof fn lemma_suffix_window(s: Seq<u8>, m: int)
    requires
        0 <= m,
        m + 4 <= s.len(),
    ensures
        incomplete_suffix(s) == incomplete_suffix(s.skip(m)),
{
    lemma_scan_window(s, m, s.len() - 1);
}

/// The backward scan over a tail of at least four bytes tracks the scan over
/// the whole buffer position for position.
proof fn lemma_scan_window(s: Seq<u8>, m: int, pos: int)
    requires
        0 <= m,
        m + 4 <= s.len(),
        m <= pos < s.len(),
    ensures
        suffix_scan(s, pos) == suffix_scan(s.skip(m), pos - m),
    decreases pos,
{
    let b = s.skip(m);
    assert(b.len() == s.len() - m);
    assert(b[pos - m] == s[pos]);
    assert(s.len() - scan_floor(s) == 4);
    assert(b.len() - scan_floor(b) == 4);
    if pos < scan_floor(s) {
        assert(pos - m < scan_floor(b));
    } else if pos >= scan_floor(s) && utf8_width(s[pos]) == 0 && is_continuation_byte(s[pos]) {
        // Both scans step back over the continuation byte, or both hit their
        // floor and report a four-byte continuation run.
        if pos - 1 >= m {
            lemma_scan_window(s, m, pos - 1);
            if pos - 1 < scan_floor(s) {
                assert(suffix_scan(s, pos - 1) == 4);
            }
        } else {
            assert(pos == m);
            assert(scan_floor(s) >= m);
            assert(suffix_scan(s, pos - 1) == 4);
            assert(suffix_scan(b, pos - m - 1) == 4);
        }
    }
}

} // verus!
