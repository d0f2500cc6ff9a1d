//! Byte-level UTF-8 helpers: classification of single bytes, decoding of one
//! scalar, the incomplete-suffix scan, and the Unicode whitespace test.

use vstd::prelude::*;
use vstd::slice::slice_index_get;
use vstd::utf8::is_leading_byte_width_1;
use vstd::utf8::is_leading_byte_width_2;
use vstd::utf8::is_leading_byte_width_3;
use vstd::utf8::is_leading_byte_width_4;
use vstd::utf8::is_continuation_byte;
use crate::model::incomplete_suffix;
use crate::model::is_unicode_space_scalar;
use crate::model::scalar_at;
use crate::model::scan_floor;
use crate::model::suffix_scan;
use crate::model::utf8_width;
use crate::model::valid_scalar_at;

verus! {

/// Classification of a UTF-8 byte.
#[derive(Debug, Clone, Copy, PartialEq, Eq, Structural)]
pub enum Utf8ByteType {
    /// A one-byte character, 0xxxxxxx.
    Ascii,
    /// Leads a two-byte sequence, 110xxxxx.
    Start2Byte,
    /// Leads a three-byte sequence, 1110xxxx.
    Start3Byte,
    /// Leads a four-byte sequence, 11110xxx.
    Start4Byte,
    /// Trails inside a sequence, 10xxxxxx.
    Continuation,
    /// Leads nothing: 0xf8 through 0xff.
    Invalid,
}

/// The class a byte falls in under UTF-8 encoding rules.
pub open spec fn byte_class(b: u8) -> Utf8ByteType {
    if is_leading_byte_width_1(b) {
        Utf8ByteType::Ascii
    } else if is_leading_byte_width_2(b) {
        Utf8ByteType::Start2Byte
    } else if is_leading_byte_width_3(b) {
        Utf8ByteType::Start3Byte
    } else if is_leading_byte_width_4(b) {
        Utf8ByteType::Start4Byte
    } else if is_continuation_byte(b) {
        Utf8ByteType::Continuation
    } else {
        Utf8ByteType::Invalid
    }
}

/// Classify a byte according to UTF-8 encoding rules.
pub fn classify_utf8_byte(byte: u8) -> (r: Utf8ByteType)
    ensures
        r == byte_class(byte),
{
    if byte <= 0x7f {
        Utf8ByteType::Ascii
    } else if 0xc0 <= byte && byte <= 0xdf {
        Utf8ByteType::Start2Byte
    } else if 0xe0 <= byte && byte <= 0xef {
        Utf8ByteType::Start3Byte
    } else if 0xf0 <= byte && byte <= 0xf7 {
        Utf8ByteType::Start4Byte
    } else if 0x80 <= byte && byte <= 0xbf {
        Utf8ByteType::Continuation
    } else {
        Utf8ByteType::Invalid
    }
}

/// Test a decoded scalar against the Unicode White_Space property.
pub fn is_unicode_whitespace(c: char) -> (r: bool)
    ensures
        r == is_unicode_space_scalar(c as u32),
{
    let u = c as u32;
    (0x09 <= u && u <= 0x0d) || u == 0x20 || u == 0x85 || u == 0xa0 || u == 0x1680 || (0x2000 <= u
        && u <= 0x200a) || u == 0x2028 || u == 0x2029 || u == 0x202f || u == 0x205f || u == 0x3000
}

/// Relies on char::from_u32: a value outside the surrogate range and at most
/// 0x10FFFF is a Unicode scalar value, and converts to the char holding
/// exactly that value.
#[verifier::external_body]
fn char_from_scalar(cp: u32) -> (c: char)
    requires
        cp < 0xd800 || (0xe000 <= cp && cp <= 0x10ffff),
    ensures
        c as u32 == cp,
{
    char::from_u32(cp).unwrap()
}

/// Decode a single UTF-8 character at the start of a byte slice.
///
/// Succeeds exactly when the slice opens with a well-formed encoding of one
/// Unicode scalar, returning that character and its byte length.
pub fn decode_utf8_char_at(bytes: &[u8]) -> (r: Result<(char, usize), ()>)
    ensures
        match r {
            Ok(p) => {
                &&& bytes@.len() > 0
                &&& valid_scalar_at(bytes@, 0)
                &&& p.1 == utf8_width(bytes@[0])
                &&& p.0 as u32 == scalar_at(bytes@, 0)
            },
            Err(e) => bytes@.len() == 0 || !valid_scalar_at(bytes@, 0),
        },
{
    if bytes.len() == 0 {
        return Err(());
    }
    let b0 = *slice_index_get(bytes, 0);

    if b0 <= 0x7f {
        proof {
            assert(b0 & 0x7f == b0) by (bit_vector)
                requires
                    b0 <= 0x7f,
            ;
        }
        return Ok((b0 as char, 1));
    }
    if 0xc0 <= b0 && b0 <= 0xdf {
        if bytes.len() < 2 {
            return Err(());
        }
        let b1 = *slice_index_get(bytes, 1);
        if !(0x80 <= b1 && b1 <= 0xbf) {
            return Err(());
        }
        let cp: u32 = (((b0 & 0x1f) as u32) << 6u32) | ((b1 & 0x3f) as u32);
        if cp < 0x80 {
            return Err(());
        }
        proof {
            assert((((b0 & 0x1f) as u32) << 6u32) | ((b1 & 0x3f) as u32) <= 0x7ff)
                by (bit_vector);
        }
        return Ok((char_from_scalar(cp), 2));
    }
    if 0xe0 <= b0 && b0 <= 0xef {
        if bytes.len() < 3 {
            return Err(());
        }
        let b1 = *slice_index_get(bytes, 1);
        let b2 = *slice_index_get(bytes, 2);
        if !(0x80 <= b1 && b1 <= 0xbf) || !(0x80 <= b2 && b2 <= 0xbf) {
            return Err(());
        }
        let cp: u32 = (((b0 & 0x0f) as u32) << 12u32) | (((b1 & 0x3f) as u32) << 6u32) | ((b2
            & 0x3f) as u32);
        if cp < 0x800 {
            return Err(());
        }
        if 0xd800 <= cp && cp <= 0xdfff {
            return Err(());
        }
        proof {
            assert((((b0 & 0x0f) as u32) << 12u32) | (((b1 & 0x3f) as u32) << 6u32) | ((b2
                & 0x3f) as u32) <= 0xffff) by (bit_vector);
        }
        return Ok((char_from_scalar(cp), 3));
    }
    if 0xf0 <= b0 && b0 <= 0xf7 {
        if bytes.len() < 4 {
            return Err(());
        }
        let b1 = *slice_index_get(bytes, 1);
        let b2 = *slice_index_get(bytes, 2);
        let b3 = *slice_index_get(bytes, 3);
        if !(0x80 <= b1 && b1 <= 0xbf) || !(0x80 <= b2 && b2 <= 0xbf) || !(0x80 <= b3 && b3
            <= 0xbf) {
            return Err(());
        }
        let cp: u32 = (((b0 & 0x07) as u32) << 18u32) | (((b1 & 0x3f) as u32) << 12u32) | (((b2
            & 0x3f) as u32) << 6u32) | ((b3 & 0x3f) as u32);
        if cp < 0x10000 || cp > 0x10ffff {
            return Err(());
        }
        return Ok((char_from_scalar(cp), 4));
    }
    Err(())
}

/// Detect the incomplete UTF-8 sequence at the end of a byte buffer.
///
/// Scans backward over at most 4 bytes for the byte that leads the trailing
/// sequence, and reports how many trailing bytes that sequence still needs
/// completed.  One-byte characters and ill-formed bytes close the buffer.
pub fn detect_incomplete_utf8_suffix(data: &[u8]) -> (r: usize)
    ensures
        r == incomplete_suffix(data@),
{
    if data.len() == 0 {
        return 0;
    }
    let start_pos: usize = if data.len() >= 4 {
        data.len() - 4
    } else {
        0
    };
    let mut pos: usize = data.len();
    while pos > start_pos
        invariant
            start_pos == scan_floor(data@),
            start_pos <= pos <= data@.len(),
            data@.len() > 0,
            suffix_scan(data@, data@.len() - 1) == suffix_scan(data@, pos - 1),
        decreases pos,
    {
        let byte = *slice_index_get(data, pos - 1);
        let bytes_from_here = data.len() - (pos - 1);
        match classify_utf8_byte(byte) {
            Utf8ByteType::Ascii => {
                return 0;
            },
            Utf8ByteType::Start2Byte => {
                return if bytes_from_here < 2 {
                    bytes_from_here
                } else {
                    0
                };
            },
            Utf8ByteType::Start3Byte => {
                return if bytes_from_here < 3 {
                    bytes_from_here
                } else {
                    0
                };
            },
            Utf8ByteType::Start4Byte => {
                return if bytes_from_here < 4 {
                    bytes_from_here
                } else {
                    0
                };
            },
            Utf8ByteType::Continuation => {
                pos = pos - 1;
            },
            Utf8ByteType::Invalid => {
                return 0;
            },
        }
    }
    data.len() - start_pos
}

} // verus!
