//! Binary/text classification and encoding detection on bounded prefixes.

use vstd::prelude::*;

verus! {

/// Longest prefix of a buffer that is looked at to classify or to guess an encoding.
pub const PREFIX_LIMIT: usize = 8192;

/// Longest prefix that is searched for a zero byte.
pub const ZERO_SCAN_LIMIT: usize = 1024;

/// Whether `s` starts with `p`.
pub open spec fn has_prefix(s: Seq<u8>, p: Seq<u8>) -> bool {
    p.len() <= s.len() && s.take(p.len() as int) == p
}

/// Whether `s` starts with a byte order mark of UTF-8, UTF-16 or UTF-32.
pub open spec fn starts_with_bom(s: Seq<u8>) -> bool {
    ||| has_prefix(s, seq![0xEFu8, 0xBBu8, 0xBFu8])
    ||| has_prefix(s, seq![0x00u8, 0x00u8, 0xFEu8, 0xFFu8])
    ||| has_prefix(s, seq![0xFEu8, 0xFFu8])
    ||| has_prefix(s, seq![0xFFu8, 0xFEu8])
}

/// Whether `s` starts with the magic number of a PDF or a PNG file.
pub open spec fn starts_with_magic(s: Seq<u8>) -> bool {
    ||| has_prefix(s, seq![0x25u8, 0x50u8, 0x44u8, 0x46u8])
    ||| has_prefix(s, seq![0x89u8, 0x50u8, 0x4Eu8, 0x47u8])
}

/// Whether a zero byte occurs among the first `ZERO_SCAN_LIMIT` bytes of `s`.
pub open spec fn has_early_zero(s: Seq<u8>) -> bool {
    exists|i: int| 0 <= i < s.len() && i < ZERO_SCAN_LIMIT && s[i] == 0u8
}

/// How the content inspector classifies `s`: binary unless a byte order mark comes first,
/// when an early zero byte or a binary magic number is seen.
pub open spec fn inspected_binary(s: Seq<u8>) -> bool {
    !starts_with_bom(s) && (has_early_zero(s) || starts_with_magic(s))
}

/// The prefix of `s` that classification and encoding detection look at.
pub open spec fn head(s: Seq<u8>) -> Seq<u8> {
    if s.len() <= PREFIX_LIMIT {
        s
    } else {
        s.take(PREFIX_LIMIT as int)
    }
}

/// Whether a buffer is classified binary from its bounded prefix.
pub open spec fn looks_binary(s: Seq<u8>) -> bool {
    inspected_binary(head(s))
}

/// Name of the encoding that chardetng guesses for a complete byte stream.
pub uninterp spec fn guessed_encoding(s: Seq<u8>) -> Seq<char>;

/// Text that the encoding guessed by chardetng decodes a byte stream to.
pub uninterp spec fn guessed_decoding(s: Seq<u8>) -> Seq<char>;

/// Relies on content_inspector::inspect and ContentType::is_binary: byte order marks
/// mean text; otherwise a zero byte in the first 1024 bytes, or a `%PDF` or
/// `\x89PNG` start, means binary.
#[verifier::external_body]
fn inspect_binary(data: &[u8]) -> (r: bool)
    ensures
        r == inspected_binary(data@),
{
    content_inspector::inspect(data).is_binary()
}

/// Relies on chardetng::EncodingDetector (one `feed` marked last, then `guess` with
/// no top-level domain and UTF-8 allowed) and encoding_rs::Encoding::name.
#[verifier::external_body]
fn guess_encoding(data: &[u8]) -> (r: String)
    ensures
        r@ == guessed_encoding(data@),
{
    let mut detector = chardetng::EncodingDetector::new();
    detector.feed(data, true);
    detector.guess(None, true).name().to_string()
}

/// Relies on the same chardetng guess as `guess_encoding`, then on
/// encoding_rs::Encoding::decode, which replaces malformed sequences.
#[verifier::external_body]
fn decode_guessed(data: &[u8]) -> (r: String)
    ensures
        r@ == guessed_decoding(data@),
{
    let mut detector = chardetng::EncodingDetector::new();
    detector.feed(data, true);
    detector.guess(None, true).decode(data).0.into_owned()
}

/// The bounded prefix of `data`.
pub fn head_of(data: &[u8]) -> (r: &[u8])
    ensures
        r@ == head(data@),
{
    if data.len() <= PREFIX_LIMIT {
        data
    } else {
        vstd::slice::slice_subrange(data, 0, PREFIX_LIMIT)
    }
}

/// Classifies `data` as binary from its first `PREFIX_LIMIT` bytes.
pub fn is_binary(data: &[u8]) -> (r: bool)
    ensures
        r == looks_binary(data@),
{
    inspect_binary(head_of(data))
}

/// Guesses the encoding of `data` from its first `PREFIX_LIMIT` bytes.
pub fn detect_encoding(data: &[u8]) -> (r: String)
    ensures
        r@ == guessed_encoding(head(data@)),
{
    guess_encoding(head_of(data))
}

/// Decodes a whole file for display: a binary buffer gives no text and the
/// encoding name `Binary`; otherwise the guessed decoding and the guessed
/// encoding's name.
pub fn decode_file(buffer: &[u8]) -> (r: (String, String))
    ensures
        inspected_binary(buffer@) ==> r.0@ == Seq::<char>::empty() && r.1@ == "Binary"@,
        !inspected_binary(buffer@) ==> r.0@ == guessed_decoding(buffer@) && r.1@
            == guessed_encoding(buffer@),
{
    if inspect_binary(buffer) {
        proof {
            reveal_strlit("Binary");
        }
        (String::new(), "Binary".to_owned())
    } else {
        (decode_guessed(buffer), guess_encoding(buffer))
    }
}

} // verus!
