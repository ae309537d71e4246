//! Best-effort decoding of stored names, done by the detector and the decoders
//! of two outside crates. What they compute is not proved here: each item says
//! what is taken on trust.

use chardetng::EncodingDetector;
use encoding_rs::Encoding;
use vstd::prelude::*;

verus! {

#[verifier::external_type_specification]
#[verifier::external_body]
pub struct ExEncodingDetector(EncodingDetector);

#[verifier::external_type_specification]
#[verifier::external_body]
pub struct ExEncoding(Encoding);

/// The buffers that a detector has been fed so far, one after the other as
/// they were handed to it.
pub uninterp spec fn detector_chunks(detector: EncodingDetector) -> Seq<Seq<u8>>;

/// Whether a detector has been told that its stream has ended.
pub uninterp spec fn detector_closed(detector: EncodingDetector) -> bool;

/// The name of the encoding that a detector guesses, without a top-level
/// domain, once it has been fed the given buffers one after the other.
pub uninterp spec fn guessed_label(chunks: Seq<Seq<u8>>, closed: bool, allow_utf8: bool) -> Seq<
    char,
>;

/// The name that an encoding carries.
pub uninterp spec fn encoding_label(encoding: Encoding) -> Seq<char>;

/// The text that the encoding of the given name decodes the bytes to, and the
/// name of the encoding that was used for it after looking for a byte order mark.
pub uninterp spec fn decoded(label: Seq<char>, bytes: Seq<u8>) -> (Seq<char>, Seq<char>);

/// `EncodingDetector::new`: a detector that has seen nothing yet.
#[verifier::external_body]
pub(crate) fn detector_new() -> (detector: EncodingDetector)
    ensures
        detector_chunks(detector) == Seq::<Seq<u8>>::empty(),
        !detector_closed(detector),
{
    EncodingDetector::new()
}

/// `EncodingDetector::feed`: the buffer is one more buffer that the detector
/// has seen, and `last` ends the stream. The outside function panics on a
/// stream that has ended, and on nothing else: the assertions inside its
/// candidates test a pending score that each of them has reset just before.
#[verifier::external_body]
pub(crate) fn detector_feed(detector: &mut EncodingDetector, buffer: &[u8], last: bool)
    requires
        !detector_closed(*old(detector)),
    ensures
        detector_chunks(*final(detector)) == detector_chunks(*old(detector)).push(buffer@),
        detector_closed(*final(detector)) == last,
{
    detector.feed(buffer, last);
}

/// `EncodingDetector::guess` without a top-level domain: the guess depends on
/// the buffers fed so far, as they were fed, on whether the stream has
/// ended, and on whether UTF-8 is an admissible answer. Nothing is claimed
/// of how the guess for one stream compares with the guess for the same
/// stream fed in other buffers.
#[verifier::external_body]
pub(crate) fn detector_guess(detector: &EncodingDetector, allow_utf8: bool) -> (encoding:
    &'static Encoding)
    ensures
        encoding_label(*encoding) == guessed_label(
            detector_chunks(*detector),
            detector_closed(*detector),
            allow_utf8,
        ),
{
    detector.guess(None, allow_utf8)
}

/// `Encoding::decode`: decodes the whole input, never fails, and reports the
/// encoding it used. The outside function panics when the size of its output
/// buffer overflows, which an input of at most a quarter of the address space
/// cannot cause.
#[verifier::external_body]
pub(crate) fn encoding_decode(encoding: &'static Encoding, bytes: &[u8]) -> (out: (
    String,
    &'static Encoding,
))
    requires
        bytes@.len() <= usize::MAX / 4,
    ensures
        (out.0@, encoding_label(*out.1)) == decoded(encoding_label(*encoding), bytes@),
{
    let (text, used, _) = encoding.decode(bytes);
    (text.into_owned(), used)
}

/// The static `encoding_rs::UTF_8`, the encoding whose name is `UTF-8`.
#[verifier::external_body]
pub(crate) fn utf_8() -> (encoding: &'static Encoding)
    ensures
        encoding_label(*encoding) == "UTF-8"@,
{
    encoding_rs::UTF_8
}

/// `Encoding::name`.
#[verifier::external_body]
pub(crate) fn encoding_name(encoding: &'static Encoding) -> (name: &'static str)
    ensures
        name@ == encoding_label(*encoding),
{
    encoding.name()
}

/// The text that a stored name stands for, under the encoding guessed for it.
pub open spec fn decoded_filename(bytes: Seq<u8>) -> Seq<char> {
    decoded(guessed_label(seq![bytes], true, true), bytes).0
}

/// The name of the encoding that a stored name was decoded with.
pub open spec fn filename_encoding(bytes: Seq<u8>) -> Seq<char> {
    decoded(guessed_label(seq![bytes], true, true), bytes).1
}

/// Decodes a stored name: the whole name is shown to a fresh detector in one
/// buffer, and its guess decodes the name. Decoding never fails.
pub fn decode_filename(bytes: &[u8]) -> (out: (String, &'static Encoding))
    requires
        bytes@.len() <= usize::MAX / 4,
    ensures
        out.0@ == decoded_filename(bytes@),
        encoding_label(*out.1) == filename_encoding(bytes@),
{
    let mut detector = detector_new();
    detector_feed(&mut detector, bytes, true);
    let encoding = detector_guess(&detector, true);
    encoding_decode(encoding, bytes)
}

} // verus!
