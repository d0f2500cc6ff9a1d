//! Scenario tests for the counting facade: documented edge cases of the
//! UTF-8 policy, the single-byte policy, and the chunked paths.

use wc_rs::CountingBackend;
use wc_rs::FileCounts;
use wc_rs::LocaleEncoding;
use wc_rs::scalar::word_count_scalar;

fn counts(lines: usize, words: usize, bytes: usize, chars: usize) -> FileCounts {
    FileCounts { lines, words, bytes, chars }
}

#[test]
fn empty_input_all_zero() {
    for locale in [LocaleEncoding::SingleByte, LocaleEncoding::Utf8] {
        assert_eq!(word_count_scalar(b"", locale), counts(0, 0, 0, 0));
        let backend = CountingBackend::new_unchecked("avx2").unwrap();
        assert_eq!(backend.count_text(b"", locale), counts(0, 0, 0, 0));
    }
}

#[test]
fn hello_world_utf8() {
    let backend = CountingBackend::new_scalar_unchecked();
    let result = backend.count_text(b"hello world\n", LocaleEncoding::Utf8);
    assert_eq!(result, counts(1, 2, 12, 12));
}

#[test]
fn single_byte_two_words() {
    let backend = CountingBackend::new_scalar_unchecked();
    let result = backend.count_text(b"foo bar", LocaleEncoding::SingleByte);
    assert_eq!(result, counts(0, 2, 7, 7));
}

#[test]
fn invalid_byte_joins_words() {
    // "hello" + 0xFF + "world": the ill-formed byte is no whitespace and no
    // word boundary, so one word of ten characters over eleven bytes.
    let mut input = b"hello".to_vec();
    input.push(0xff);
    input.extend_from_slice(b"world");
    let result = word_count_scalar(&input, LocaleEncoding::Utf8);
    assert_eq!(result, counts(0, 1, 11, 10));
}

#[test]
fn isolated_continuation_byte() {
    let result = word_count_scalar(&[0x80], LocaleEncoding::Utf8);
    assert_eq!(result, counts(0, 0, 1, 0));
}

#[test]
fn truncated_four_byte_sequence_at_end() {
    let result = word_count_scalar(&[0xf0, 0x9f, 0x92], LocaleEncoding::Utf8);
    assert_eq!(result, counts(0, 0, 3, 0));
}

#[test]
fn invalid_byte_then_newline() {
    // The 0xFF byte counts toward bytes only; the newline is a valid
    // character that ends a line.
    let result = word_count_scalar(&[0xff, 0x0a], LocaleEncoding::Utf8);
    assert_eq!(result, counts(1, 0, 2, 1));
}

#[test]
fn multibyte_character_across_chunk_boundary() {
    // 15 ASCII bytes, then the 3-byte encoding of U+2003 (a space), then
    // "world": 23 bytes, 21 characters, two words, on every path.
    let mut input = b"aaaaaaaaaaaaaaa".to_vec();
    input.extend_from_slice("\u{2003}".as_bytes());
    input.extend_from_slice(b"world");
    assert_eq!(input.len(), 23);
    let expected = counts(0, 2, 23, 21);
    for name in ["scalar", "sse2", "avx2", "avx512", "neon", "sve"] {
        let backend = CountingBackend::new_unchecked(name).unwrap();
        assert_eq!(backend.count_text(&input, LocaleEncoding::Utf8), expected, "{}", name);
    }
}

#[test]
fn single_byte_locale_counts_every_byte() {
    // High bytes are characters of their own under the single-byte locale.
    let input: Vec<u8> = vec![0xe2, 0x80, 0x83, b'x', b' ', 0xff, b'\n'];
    let result = word_count_scalar(&input, LocaleEncoding::SingleByte);
    assert_eq!(result.bytes, 7);
    assert_eq!(result.chars, 7);
    assert_eq!(result.lines, 1);
    assert_eq!(result.words, 2);
}

#[test]
fn unicode_whitespace_separates_words() {
    // U+00A0 is Unicode whitespace, so it ends one word and starts another.
    let input = "a\u{00a0}b".as_bytes();
    let result = word_count_scalar(input, LocaleEncoding::Utf8);
    assert_eq!(result, counts(0, 2, 4, 3));
    // Under the single-byte locale its bytes are not whitespace.
    let result = word_count_scalar(input, LocaleEncoding::SingleByte);
    assert_eq!(result, counts(0, 1, 4, 4));
}

#[test]
fn carriage_return_and_tabs() {
    let result = word_count_scalar(b"one\ttwo\rthree\x0b\x0cfour", LocaleEncoding::Utf8);
    assert_eq!(result, counts(0, 4, 19, 19));
}

#[test]
fn newlines_only() {
    let result = word_count_scalar(b"\n\n\n", LocaleEncoding::Utf8);
    assert_eq!(result, counts(3, 0, 3, 3));
}

#[test]
fn ordering_invariant_on_samples() {
    // bytes >= chars >= lines and chars >= words under the UTF-8 locale.
    let samples: Vec<Vec<u8>> = vec![
        b"hello world\n".to_vec(),
        vec![0xff, 0x0a, 0x80, 0xc2, 0xa0],
        "p\u{159}\u{ed}li\u{161} \u{17e}lu\u{165}ou\u{10d}k\u{fd} k\u{16f}\u{148}\n".as_bytes().to_vec(),
        vec![0x0a; 100],
    ];
    for input in &samples {
        let r = word_count_scalar(input, LocaleEncoding::Utf8);
        assert!(r.bytes >= r.chars);
        assert!(r.chars >= r.lines);
        assert!(r.chars >= r.words);
        assert_eq!(r.bytes, input.len());
    }
}

#[test]
fn four_byte_characters() {
    // U+1F4A9 is four bytes and one character.
    let input = "\u{1f4a9} \u{1f4a9}".as_bytes();
    let result = word_count_scalar(input, LocaleEncoding::Utf8);
    assert_eq!(result, counts(0, 2, 9, 3));
}

#[test]
fn overlong_and_surrogate_sequences_are_ill_formed() {
    // 0xC0 0x80 is an overlong encoding of NUL; 0xED 0xA0 0x80 is a
    // surrogate half.  Neither yields a character.
    let result = word_count_scalar(&[0xc0, 0x80], LocaleEncoding::Utf8);
    assert_eq!(result, counts(0, 0, 2, 0));
    let result = word_count_scalar(&[0xed, 0xa0, 0x80], LocaleEncoding::Utf8);
    assert_eq!(result, counts(0, 0, 3, 0));
}
