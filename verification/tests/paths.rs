//! Differential tests: every acceleration path returns the scalar reference
//! count, and splitting a buffer under the carry protocol loses nothing.

use wc_rs::CountingBackend;
use wc_rs::LocaleEncoding;
use wc_rs::scalar::word_count_scalar;
use wc_rs::scalar::word_count_scalar_with_state;

fn sample_buffers() -> Vec<Vec<u8>> {
    let mut samples: Vec<Vec<u8>> = Vec::new();
    samples.push(Vec::new());
    samples.push(b"short".to_vec());
    samples.push(b"exactly sixteen!".to_vec());
    samples.push(b"a much longer line of plain ascii text, with   gaps\tand\nbreaks\n".to_vec());
    samples.push(vec![b'x'; 200]);
    samples.push(vec![0x80; 70]);
    samples.push(vec![0xff; 33]);
    // Multi-byte characters straddling the 16-, 32- and 64-byte boundaries.
    for pad in [14usize, 15, 30, 31, 62, 63] {
        let mut v = vec![b'q'; pad];
        v.extend_from_slice("\u{2003}ok\u{1f4a9}".as_bytes());
        v.extend_from_slice(b" tail");
        samples.push(v);
    }
    // Truncated sequences at a chunk boundary and at the end.
    let mut v = vec![b' '; 15];
    v.push(0xe2);
    v.extend_from_slice(&[0x80, 0x83]);
    v.extend_from_slice(b"word");
    v.push(0xf0);
    samples.push(v);
    // Ill-formed bytes mixed with newlines and words.
    samples.push(vec![0xff, 0x0a, b'a', 0x80, b'b', b' ', 0xc2, 0xc2, 0xa0, b'\n']);
    // A long run of continuation bytes after a valid four-byte character.
    let mut v = "\u{1f600}".as_bytes().to_vec();
    v.extend_from_slice(&[0x90; 65]);
    samples.push(v);
    samples
}

#[test]
fn every_path_matches_scalar() {
    let scalar = CountingBackend::new_scalar_unchecked();
    for input in &sample_buffers() {
        for locale in [LocaleEncoding::SingleByte, LocaleEncoding::Utf8] {
            let expected = scalar.count_text(input, locale);
            for name in ["sse2", "avx2", "avx512", "neon", "sve"] {
                let backend = CountingBackend::new_unchecked(name).unwrap();
                assert_eq!(backend.count_text(input, locale), expected, "{}", name);
            }
        }
    }
}

#[test]
fn splitting_preserves_totals() {
    for input in &sample_buffers() {
        for locale in [LocaleEncoding::SingleByte, LocaleEncoding::Utf8] {
            let whole = word_count_scalar(input, locale);
            for cut in 0..=input.len() {
                let first = word_count_scalar_with_state(&input[..cut], true, locale);
                // Resume on the incomplete suffix plus the second half.
                let mut rest = input[cut - first.incomplete_bytes..cut].to_vec();
                rest.extend_from_slice(&input[cut..]);
                let second = word_count_scalar_with_state(&rest, first.seen_space, locale);
                assert_eq!(first.counts.lines + second.counts.lines, whole.lines);
                assert_eq!(first.counts.words + second.counts.words, whole.words);
                assert_eq!(first.counts.chars + second.counts.chars, whole.chars);
            }
        }
    }
}

#[test]
fn backend_names() {
    let cases = [
        ("scalar", "Scalar"),
        ("sse2", "SSE2"),
        ("avx2", "AVX2"),
        ("avx512", "AVX-512"),
        ("neon", "NEON"),
        ("sve", "SVE"),
    ];
    for (key, display) in cases {
        let backend = CountingBackend::new_unchecked(key).unwrap();
        assert_eq!(backend.name(), display);
    }
}

#[test]
fn backend_chunk_widths() {
    assert_eq!(CountingBackend::new_unchecked("sse2").unwrap().chunk_width(), 16);
    assert_eq!(CountingBackend::new_unchecked("avx2").unwrap().chunk_width(), 32);
    assert_eq!(CountingBackend::new_unchecked("avx512").unwrap().chunk_width(), 64);
    assert_eq!(CountingBackend::new_unchecked("neon").unwrap().chunk_width(), 16);
}

#[test]
fn unknown_backend_name_is_rejected() {
    assert!(CountingBackend::new_unchecked("avx1024").is_none());
    assert!(CountingBackend::new_unchecked("").is_none());
    assert!(CountingBackend::new_unchecked("SCALAR").is_none());
}

#[test]
fn scalar_count_matches_std_on_valid_text() {
    let texts = [
        "",
        "hello world\n",
        "  leading and trailing  ",
        "tabs\tand\nnewlines\r\nmixed \u{2003}wide\u{00a0}spaces\n",
        "\u{1f600} two\n\u{1f600}emoji words",
        "line one\nline two\nline three\n",
    ];
    for text in texts {
        let r = word_count_scalar(text.as_bytes(), LocaleEncoding::Utf8);
        assert_eq!(r.lines, text.bytes().filter(|&b| b == b'\n').count(), "{:?}", text);
        assert_eq!(r.words, text.split_whitespace().count(), "{:?}", text);
        assert_eq!(r.chars, text.chars().count(), "{:?}", text);
        assert_eq!(r.bytes, text.len(), "{:?}", text);
    }
}

#[test]
fn paths_agree_on_generated_buffers() {
    // A small linear congruential generator yields byte soup mixing ASCII,
    // whitespace, leading bytes and continuation bytes.
    let mut state: u64 = 0x2545f4914f6cdd1d;
    let mut buf: Vec<u8> = Vec::new();
    let scalar = CountingBackend::new_scalar_unchecked();
    for len in [1usize, 7, 16, 17, 31, 33, 64, 65, 129, 1000] {
        buf.clear();
        for _ in 0..len {
            state = state.wrapping_mul(6364136223846793005).wrapping_add(1442695040888963407);
            buf.push((state >> 33) as u8);
        }
        for locale in [LocaleEncoding::SingleByte, LocaleEncoding::Utf8] {
            let expected = scalar.count_text(&buf, locale);
            for name in ["sse2", "avx2", "avx512", "neon", "sve"] {
                let backend = CountingBackend::new_unchecked(name).unwrap();
                assert_eq!(backend.count_text(&buf, locale), expected, "{} len {}", name, len);
            }
        }
    }
}
