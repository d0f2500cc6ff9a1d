//! Line, word, byte and character statistics over arbitrary byte buffers.
//!
//! The counting core behind a `wc`-style tool.  One scalar reference counter
//! fixes the semantics; a chunked counter, generalized over the chunk widths
//! that vector hardware uses (16, 32 or 64 bytes), is proved to agree with it
//! on every input, including malformed UTF-8.

use vstd::prelude::*;

pub mod boundary;
pub mod byte_counts;
pub mod chunk;
pub mod chunked;
pub mod laws;
pub mod model;
pub mod scalar;
pub mod utf8;

verus! {

/// File statistics for word count operations.
#[derive(Debug, Clone, Copy, PartialEq, Eq, Structural)]
pub struct FileCounts {
    pub lines: usize,
    pub words: usize,
    pub bytes: usize,
    pub chars: usize,
}

/// Locale encoding type for character handling.
#[derive(Debug, Clone, Copy, PartialEq, Eq, Structural)]
pub enum LocaleEncoding {
    /// Single-byte encoding: every byte is one character, whitespace is ASCII only.
    SingleByte,
    /// UTF-8 locale: characters are decoded Unicode scalar values.
    Utf8,
}

/// Private marker that keeps backend variants from being constructed outside
/// this crate.
#[derive(Debug, Clone, Copy, PartialEq, Eq, Structural)]
struct Private;

/// The counting path one call dispatches through.
///
/// Variants cannot be named directly by outside code; they are obtained from
/// a hardware probe through `new_unchecked`, or from `new_scalar_unchecked`.
/// Every path is proved to return the scalar reference count, so the choice
/// changes throughput, never the totals.
#[allow(private_interfaces)]
#[derive(Debug, Clone, Copy, PartialEq, Eq, Structural)]
pub enum CountingBackend {
    /// The 64-byte chunk schedule of the widest x86 vector path.
    Avx512(Private),
    /// The 32-byte chunk schedule of the 256-bit x86 vector path.
    Avx2(Private),
    /// The 16-byte chunk schedule of the 128-bit x86 vector path.
    Sse2(Private),
    /// The 16-byte chunk schedule of the scalable ARM vector path.
    Sve(Private),
    /// The 16-byte chunk schedule of the 128-bit ARM vector path.
    Neon(Private),
    /// The scalar reference counter itself.
    Scalar(Private),
}

/// Relies on str's PartialEq implementation: two string slices compare equal
/// exactly when they hold the same characters.
#[verifier::external_body]
fn str_eq(a: &str, b: &str) -> (r: bool)
    ensures
        r == (a@ == b@),
{
    a == b
}

impl CountingBackend {
    /// Construct the scalar backend, which every machine supports.
    pub fn new_scalar_unchecked() -> (r: CountingBackend)
        ensures
            r is Scalar,
    {
        CountingBackend::Scalar(Private)
    }

    /// Construct a backend by name, for consistency testing across paths.
    ///
    /// The caller answers for having verified that the running hardware
    /// supports the named path before counting through an accelerated
    /// implementation of it; the paths of this crate are portable, so any
    /// returned backend is safe here.
    pub fn new_unchecked(backend_type: &str) -> (r: Option<CountingBackend>)
        ensures
            r is Some <==> (backend_type@ == "scalar"@ || backend_type@ == "sse2"@
                || backend_type@ == "avx2"@ || backend_type@ == "avx512"@
                || backend_type@ == "neon"@ || backend_type@ == "sve"@),
            backend_type@ == "scalar"@ ==> (r matches Some(b) && b is Scalar),
            backend_type@ == "sse2"@ ==> (r matches Some(b) && b is Sse2),
            backend_type@ == "avx2"@ ==> (r matches Some(b) && b is Avx2),
            backend_type@ == "avx512"@ ==> (r matches Some(b) && b is Avx512),
            backend_type@ == "neon"@ ==> (r matches Some(b) && b is Neon),
            backend_type@ == "sve"@ ==> (r matches Some(b) && b is Sve),
    {
        proof {
            reveal_strlit("scalar");
            reveal_strlit("sse2");
            reveal_strlit("avx2");
            reveal_strlit("avx512");
            reveal_strlit("neon");
            reveal_strlit("sve");
            assert("scalar"@.len() == 6 && "sse2"@.len() == 4 && "avx2"@.len() == 4
                && "avx512"@.len() == 6 && "neon"@.len() == 4 && "sve"@.len() == 3);
            assert("sse2"@[0] == 's' && "avx2"@[0] == 'a' && "neon"@[0] == 'n'
                && "scalar"@[0] == 's' && "avx512"@[0] == 'a');
            assert("scalar"@ != "avx512"@);
            assert("sse2"@ != "avx2"@ && "sse2"@ != "neon"@ && "avx2"@ != "neon"@);
        }
        if str_eq(backend_type, "scalar") {
            Some(CountingBackend::Scalar(Private))
        } else if str_eq(backend_type, "sse2") {
            Some(CountingBackend::Sse2(Private))
        } else if str_eq(backend_type, "avx2") {
            Some(CountingBackend::Avx2(Private))
        } else if str_eq(backend_type, "avx512") {
            Some(CountingBackend::Avx512(Private))
        } else if str_eq(backend_type, "neon") {
            Some(CountingBackend::Neon(Private))
        } else if str_eq(backend_type, "sve") {
            Some(CountingBackend::Sve(Private))
        } else {
            None
        }
    }

    /// The chunk width this backend's schedule processes per step.
    pub fn chunk_width(&self) -> (w: usize)
        ensures
            w == 16 || w == 32 || w == 64,
    {
        match self {
            CountingBackend::Avx512(_) => 64,
            CountingBackend::Avx2(_) => 32,
            CountingBackend::Sse2(_) => 16,
            CountingBackend::Sve(_) => 16,
            CountingBackend::Neon(_) => 16,
            CountingBackend::Scalar(_) => 16,
        }
    }

    /// This backend's display name.
    pub fn name(&self) -> (r: &'static str)
        ensures
            self is Avx512 ==> r@ == "AVX-512"@,
            self is Avx2 ==> r@ == "AVX2"@,
            self is Sse2 ==> r@ == "SSE2"@,
            self is Sve ==> r@ == "SVE"@,
            self is Neon ==> r@ == "NEON"@,
            self is Scalar ==> r@ == "Scalar"@,
    {
        match self {
            CountingBackend::Avx512(_) => "AVX-512",
            CountingBackend::Avx2(_) => "AVX2",
            CountingBackend::Sse2(_) => "SSE2",
            CountingBackend::Sve(_) => "SVE",
            CountingBackend::Neon(_) => "NEON",
            CountingBackend::Scalar(_) => "Scalar",
        }
    }

    /// Count text statistics through this backend's path.
    ///
    /// Whatever the backend, the result is the scalar reference count: bytes
    /// is the input length, and lines, words and characters follow the
    /// locale's counting policy.
    pub fn count_text(&self, content: &[u8], locale: LocaleEncoding) -> (r: FileCounts)
        ensures
            model::tally_matches(r, model::locale_tally(content@, locale), content@.len()),
    {
        match self {
            CountingBackend::Avx512(_) => chunked::count_text_chunked(content, locale, 64),
            CountingBackend::Avx2(_) => chunked::count_text_chunked(content, locale, 32),
            CountingBackend::Sse2(_) => chunked::count_text_chunked(content, locale, 16),
            CountingBackend::Sve(_) => chunked::count_text_chunked(content, locale, 16),
            CountingBackend::Neon(_) => chunked::count_text_chunked(content, locale, 16),
            CountingBackend::Scalar(_) => scalar::word_count_scalar(content, locale),
        }
    }
}



} // verus!
