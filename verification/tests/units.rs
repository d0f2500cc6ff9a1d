//! Unit tests for the UTF-8 helpers, the resumable scalar counter, the
//! chunk-mask operations, and the byte-oriented counting path.

use wc_rs::byte_counts::count_text_scalar;
use wc_rs::byte_counts::count_word_transitions;
use wc_rs::byte_counts::handle_scalar_boundary;
use wc_rs::byte_counts::is_ascii_whitespace;
use wc_rs::chunk::count_word_starts_from_mask;
use wc_rs::chunked::process_scalar_with_carry;
use wc_rs::scalar::word_count_scalar_with_state;
use wc_rs::utf8::classify_utf8_byte;
use wc_rs::utf8::decode_utf8_char_at;
use wc_rs::utf8::detect_incomplete_utf8_suffix;
use wc_rs::utf8::is_unicode_whitespace;
use wc_rs::utf8::Utf8ByteType;
use wc_rs::FileCounts;
use wc_rs::LocaleEncoding;

#[test]
fn classify_covers_every_class() {
    assert_eq!(classify_utf8_byte(b'a'), Utf8ByteType::Ascii);
    assert_eq!(classify_utf8_byte(0x00), Utf8ByteType::Ascii);
    assert_eq!(classify_utf8_byte(0x7f), Utf8ByteType::Ascii);
    assert_eq!(classify_utf8_byte(0xc2), Utf8ByteType::Start2Byte);
    assert_eq!(classify_utf8_byte(0xdf), Utf8ByteType::Start2Byte);
    assert_eq!(classify_utf8_byte(0xe0), Utf8ByteType::Start3Byte);
    assert_eq!(classify_utf8_byte(0xef), Utf8ByteType::Start3Byte);
    assert_eq!(classify_utf8_byte(0xf0), Utf8ByteType::Start4Byte);
    assert_eq!(classify_utf8_byte(0xf7), Utf8ByteType::Start4Byte);
    assert_eq!(classify_utf8_byte(0x80), Utf8ByteType::Continuation);
    assert_eq!(classify_utf8_byte(0xbf), Utf8ByteType::Continuation);
    assert_eq!(classify_utf8_byte(0xf8), Utf8ByteType::Invalid);
    assert_eq!(classify_utf8_byte(0xff), Utf8ByteType::Invalid);
}

#[test]
fn decode_valid_sequences() {
    assert_eq!(decode_utf8_char_at(b"a"), Ok(('a', 1)));
    assert_eq!(decode_utf8_char_at("\u{00e9}x".as_bytes()), Ok(('\u{00e9}', 2)));
    assert_eq!(decode_utf8_char_at("\u{2003}".as_bytes()), Ok(('\u{2003}', 3)));
    assert_eq!(decode_utf8_char_at("\u{1f4a9}!".as_bytes()), Ok(('\u{1f4a9}', 4)));
}

#[test]
fn decode_rejects_ill_formed_sequences() {
    assert_eq!(decode_utf8_char_at(b""), Err(()));
    assert_eq!(decode_utf8_char_at(&[0x80]), Err(()));
    assert_eq!(decode_utf8_char_at(&[0xff, 0x41]), Err(()));
    // Truncated sequences.
    assert_eq!(decode_utf8_char_at(&[0xc2]), Err(()));
    assert_eq!(decode_utf8_char_at(&[0xe2, 0x80]), Err(()));
    // A bad continuation byte.
    assert_eq!(decode_utf8_char_at(&[0xc2, 0x41]), Err(()));
    // Overlong encodings.
    assert_eq!(decode_utf8_char_at(&[0xc0, 0x80]), Err(()));
    assert_eq!(decode_utf8_char_at(&[0xe0, 0x80, 0x80]), Err(()));
    // A surrogate half.
    assert_eq!(decode_utf8_char_at(&[0xed, 0xa0, 0x80]), Err(()));
    // Beyond U+10FFFF.
    assert_eq!(decode_utf8_char_at(&[0xf4, 0x90, 0x80, 0x80]), Err(()));
}

#[test]
fn decode_agrees_with_std() {
    // On every two-byte window the decoder accepts exactly what str parsing
    // accepts, and yields the same character.
    for b0 in [0x41u8, 0x7f, 0x80, 0xc1, 0xc2, 0xdf, 0xe0, 0xf0, 0xff] {
        for b1 in [0x00u8, 0x41, 0x80, 0xa0, 0xbf, 0xc0] {
            let window = [b0, b1];
            let ours = decode_utf8_char_at(&window);
            match std::str::from_utf8(&window[..1]) {
                Ok(s) => {
                    let c = s.chars().next().unwrap();
                    assert_eq!(ours, Ok((c, 1)));
                },
                Err(_) => match std::str::from_utf8(&window) {
                    Ok(s) => {
                        let c = s.chars().next().unwrap();
                        assert_eq!(ours, Ok((c, 2)));
                    },
                    Err(_) => assert_eq!(ours, Err(())),
                },
            }
        }
    }
}

#[test]
fn incomplete_suffix_detection() {
    assert_eq!(detect_incomplete_utf8_suffix(b""), 0);
    assert_eq!(detect_incomplete_utf8_suffix(b"plain ascii"), 0);
    assert_eq!(detect_incomplete_utf8_suffix(&[0xc2]), 1);
    assert_eq!(detect_incomplete_utf8_suffix(&[b'a', 0xe0, 0xa0]), 2);
    assert_eq!(detect_incomplete_utf8_suffix(&[0xf0, 0x9f, 0x92]), 3);
    // Complete sequences leave nothing behind.
    assert_eq!(detect_incomplete_utf8_suffix("\u{00e9}".as_bytes()), 0);
    assert_eq!(detect_incomplete_utf8_suffix("\u{2003}".as_bytes()), 0);
    assert_eq!(detect_incomplete_utf8_suffix("\u{1f4a9}".as_bytes()), 0);
    // An ill-formed final byte closes the buffer.
    assert_eq!(detect_incomplete_utf8_suffix(&[0xff]), 0);
    // A bare run of continuation bytes is incomplete up to four bytes back.
    assert_eq!(detect_incomplete_utf8_suffix(&[0x80]), 1);
    assert_eq!(detect_incomplete_utf8_suffix(&[0x80, 0x80]), 2);
    assert_eq!(detect_incomplete_utf8_suffix(&[0x80; 4]), 4);
    assert_eq!(detect_incomplete_utf8_suffix(&[0x80; 9]), 4);
    // The byte before a continuation run decides.
    assert_eq!(detect_incomplete_utf8_suffix(&[b'x', 0x80, 0x80]), 0);
}

#[test]
fn whitespace_classification() {
    for b in [b' ', b'\t', b'\n', b'\r', 0x0b, 0x0c] {
        assert!(is_ascii_whitespace(b));
    }
    for b in [b'a', 0x00, 0x08, 0x0e, 0x1f, 0x7f, 0xa0] {
        assert!(!is_ascii_whitespace(b));
    }
    for c in [' ', '\t', '\n', '\u{85}', '\u{a0}', '\u{1680}', '\u{2003}', '\u{200a}', '\u{2028}',
        '\u{2029}', '\u{202f}', '\u{205f}', '\u{3000}'] {
        assert!(is_unicode_whitespace(c), "{:?}", c);
        assert!(c.is_whitespace(), "{:?}", c);
    }
    for c in ['a', '0', '\u{200b}', '\u{feff}', '\u{1f4a9}'] {
        assert!(!is_unicode_whitespace(c), "{:?}", c);
        assert!(!c.is_whitespace(), "{:?}", c);
    }
}

#[test]
fn resumable_scalar_counter_reports_state() {
    let r = word_count_scalar_with_state(b"one two", true, LocaleEncoding::Utf8);
    assert_eq!(r.counts.words, 2);
    assert_eq!(r.incomplete_bytes, 0);
    assert!(!r.seen_space);

    // Starting inside a word suppresses the first word start.
    let r = word_count_scalar_with_state(b"one two", false, LocaleEncoding::Utf8);
    assert_eq!(r.counts.words, 1);

    // A cut-short sequence is reported, not counted.
    let r = word_count_scalar_with_state(&[b'a', b' ', 0xe2, 0x80], true, LocaleEncoding::Utf8);
    assert_eq!(r.counts.chars, 2);
    assert_eq!(r.incomplete_bytes, 2);
    assert!(r.seen_space);

    // The single-byte locale never carries.
    let r = word_count_scalar_with_state(&[0xe2, 0x80], true, LocaleEncoding::SingleByte);
    assert_eq!(r.incomplete_bytes, 0);
    assert_eq!(r.counts.chars, 2);
}

#[test]
fn carry_completes_across_segments() {
    // The first segment ends inside U+2003; the carry completes it in the
    // second segment, counting the character once.
    let mut carry: Vec<u8> = vec![0xe2, 0x80];
    let mut counts = FileCounts { lines: 0, words: 0, bytes: 7, chars: 0 };
    let seen = process_scalar_with_carry(&[0x83, b'h', b'i'], &mut carry, &mut counts, false,
        LocaleEncoding::Utf8);
    assert_eq!(counts.chars, 3);
    assert_eq!(counts.words, 1);
    assert_eq!(counts.bytes, 7);
    assert!(carry.is_empty());
    assert!(!seen);

    // A new cut-short sequence refills the carry.
    let mut carry: Vec<u8> = Vec::new();
    let mut counts = FileCounts { lines: 0, words: 0, bytes: 0, chars: 0 };
    let seen = process_scalar_with_carry(&[b'x', b' ', 0xf0, 0x9f], &mut carry, &mut counts, true,
        LocaleEncoding::Utf8);
    assert_eq!(counts.chars, 2);
    assert_eq!(counts.words, 1);
    assert_eq!(carry, vec![0xf0, 0x9f]);
    assert!(seen);
}

#[test]
fn word_starts_from_mask() {
    // Lanes 0 and 5 are whitespace in "a bcd  efgh....": words start where a
    // non-whitespace lane follows a whitespace lane or the incoming flag.
    //            fedcba9876543210
    let mask = 0b0000000001100010u16;
    let (words, last) = count_word_starts_from_mask(mask, true);
    assert_eq!(words, 3);
    assert!(!last);

    let (words, last) = count_word_starts_from_mask(mask, false);
    assert_eq!(words, 2);
    assert!(!last);

    // All-whitespace chunk: no words, flag set.
    let (words, last) = count_word_starts_from_mask(0xffff, false);
    assert_eq!(words, 0);
    assert!(last);

    // All-text chunk entered at a boundary: one word.
    let (words, last) = count_word_starts_from_mask(0x0000, true);
    assert_eq!(words, 1);
    assert!(!last);
}

#[test]
fn word_transitions_update_state_in_place() {
    let mut prev = true;
    let words = count_word_transitions(0b0000000001100010u16, 16, &mut prev);
    assert_eq!(words, 3);
    assert!(!prev);

    let mut prev = false;
    let words = count_word_transitions(0x8000, 16, &mut prev);
    assert_eq!(words, 0);
    assert!(prev);

    // Only the first chunk_size lanes count.
    let mut prev = true;
    let words = count_word_transitions(0xff00, 8, &mut prev);
    assert_eq!(words, 1);
    assert!(!prev);
}

#[test]
fn byte_oriented_scalar_counts() {
    // Characters are non-continuation bytes, with no validity check.
    let r = count_text_scalar("ab\u{00e9}".as_bytes());
    assert_eq!(r.chars, 3);
    assert_eq!(r.words, 1);
    assert_eq!(r.lines, 0);

    let r = count_text_scalar(b"one\ntwo three\n");
    assert_eq!(r.lines, 2);
    assert_eq!(r.words, 3);
    assert_eq!(r.chars, 14);

    // A lone continuation byte still joins its neighbours.
    let r = count_text_scalar(&[b'a', 0x80, b'b']);
    assert_eq!(r.chars, 2);
    assert_eq!(r.words, 1);
}

#[test]
fn scalar_boundary_adjusts_for_open_word() {
    // The vector loop stopped at byte 4 inside a word; the tail "cd ef"
    // begins with a non-whitespace byte, so its first word continues the
    // running one.
    let content = b"ab cdcd ef";
    let r = handle_scalar_boundary(content, 5, false, 2, 0, 5);
    assert_eq!(r.words, 3);
    assert_eq!(r.chars, 10);
    assert_eq!(r.lines, 0);

    // Stopped on whitespace: the tail's words all count.
    let r = handle_scalar_boundary(b"ab cd ef", 3, true, 1, 0, 3);
    assert_eq!(r.words, 3);

    // Stopped at the start: the tail is the whole buffer.
    let r = handle_scalar_boundary(b"ab cd", 0, true, 0, 0, 0);
    assert_eq!(r.words, 2);
    assert_eq!(r.chars, 5);
}
