//! The three stages between a recorded history and its shareable string:
//! a binary layout, compression, and text that is safe in a URL.

use flate2::read::ZlibDecoder;
use flate2::write::ZlibEncoder;
use flate2::Compression;
use std::io::{Read, Write};
use vstd::prelude::*;

verus! {

/// Why `bincode` could not read bytes. Nothing is read from it.
#[verifier::external_type_specification]
#[verifier::external_body]
pub struct ExLayoutError(bincode::ErrorKind);

/// Why `flate2` could not unpack a stream. Nothing is read from it.
#[verifier::external_type_specification]
#[verifier::external_body]
pub struct ExStreamError(std::io::Error);

/// Why `base64` could not read text. Nothing is read from it.
#[verifier::external_type_specification]
#[verifier::external_body]
pub struct ExTextError(base64::DecodeError);

/// The bytes that the binary layout gives for the fields of a history.
pub uninterp spec fn record_bytes(
    alpha: Seq<(usize, u64)>,
    beta: Seq<(usize, u64)>,
    gamma: Seq<(usize, u64)>,
    alpha_rand: Seq<(usize, u64)>,
    seed: u64,
    size: (usize, usize),
    start_filled: Seq<(usize, usize)>,
) -> Seq<u8>;

/// The fields that the binary layout reads from bytes, if it reads any.
pub uninterp spec fn bytes_record(bytes: Seq<u8>) -> Option<
    (
        Seq<(usize, u64)>,
        Seq<(usize, u64)>,
        Seq<(usize, u64)>,
        Seq<(usize, u64)>,
        u64,
        (usize, usize),
        Seq<(usize, usize)>,
    ),
>;

/// Whether `stream` is the beginning of `whole` and not all of it.
pub open spec fn is_cut_short(stream: Seq<u8>, whole: Seq<u8>) -> bool {
    stream.len() < whole.len() && stream == whole.take(stream.len() as int)
}

/// The zlib stream that the strongest compression makes of bytes.
pub uninterp spec fn deflated(bytes: Seq<u8>) -> Seq<u8>;

/// The bytes that a zlib stream unpacks to, if it unpacks at all, and how
/// many bytes of the stream were taken for them.
pub uninterp spec fn inflated(stream: Seq<u8>) -> Option<(Seq<u8>, u64)>;

/// The unpadded URL-safe base64 text of bytes.
pub uninterp spec fn url_text(bytes: Seq<u8>) -> Seq<char>;

/// Whether a character is one of the 64 of the URL-safe alphabet: a letter
/// of either case, a digit, `-` or `_`.
pub open spec fn is_url_safe(c: char) -> bool {
    let code = c as int;
    ||| 0x41 <= code <= 0x5A
    ||| 0x61 <= code <= 0x7A
    ||| 0x30 <= code <= 0x39
    ||| code == 0x2D
    ||| code == 0x5F
}

/// How many characters the unpadded text of `n` bytes has: four for every
/// three bytes, two for one byte left over and three for two.
pub open spec fn text_len(n: nat) -> nat {
    ((4 * n + 2) / 3) as nat
}

/// The bytes that unpadded URL-safe base64 text stands for, if it is such
/// text.
pub uninterp spec fn text_bytes(text: Seq<char>) -> Option<Seq<u8>>;

/// The fields of a history as they are read, each list by its items.
pub open spec fn record_view(
    fields: (
        Vec<(usize, u64)>,
        Vec<(usize, u64)>,
        Vec<(usize, u64)>,
        Vec<(usize, u64)>,
        u64,
        (usize, usize),
        Vec<(usize, usize)>,
    ),
) -> (
    Seq<(usize, u64)>,
    Seq<(usize, u64)>,
    Seq<(usize, u64)>,
    Seq<(usize, u64)>,
    u64,
    (usize, usize),
    Seq<(usize, usize)>,
) {
    (fields.0@, fields.1@, fields.2@, fields.3@, fields.4, fields.5, fields.6@)
}

/// Lays the fields of a history out with `bincode::serialize`, as one tuple
/// in the order of the parameters. That layout writes the fields one after
/// the other with nothing between them, integers with their bytes in
/// little-endian order at their full width, a tick, a width, a height or a
/// coordinate as 64 bits, and a list as its length in 64 bits before its
/// items. Nothing is proved of the bytes.
/// Writing to memory without a size limit does not fail.
#[verifier::external_body]
pub(crate) fn encode_record(
    alpha: &Vec<(usize, u64)>,
    beta: &Vec<(usize, u64)>,
    gamma: &Vec<(usize, u64)>,
    alpha_rand: &Vec<(usize, u64)>,
    seed: u64,
    size: (usize, usize),
    start_filled: &Vec<(usize, usize)>,
) -> (r: Vec<u8>)
    ensures
        r@ == record_bytes(alpha@, beta@, gamma@, alpha_rand@, seed, size, start_filled@),
{
    bincode::serialize(&(alpha, beta, gamma, alpha_rand, seed, size, start_filled))
        .unwrap_or_default()
}

/// Reads the fields of a history back with `bincode::deserialize`, as the
/// tuple that [`encode_record`] writes. Which bytes are read as which fields
/// is not proved, but for this: the bytes that the layout gives for some
/// fields are read as those fields, which is what makes it a layout.
#[verifier::external_body]
pub(crate) fn decode_record(bytes: &Vec<u8>) -> (r: Result<
    (
        Vec<(usize, u64)>,
        Vec<(usize, u64)>,
        Vec<(usize, u64)>,
        Vec<(usize, u64)>,
        u64,
        (usize, usize),
        Vec<(usize, usize)>,
    ),
    Box<bincode::ErrorKind>,
>)
    ensures
        r is Ok <==> bytes_record(bytes@) is Some,
        r is Ok ==> bytes_record(bytes@) == Some(record_view(r.unwrap())),
        forall|
            alpha: Seq<(usize, u64)>,
            beta: Seq<(usize, u64)>,
            gamma: Seq<(usize, u64)>,
            alpha_rand: Seq<(usize, u64)>,
            seed: u64,
            size: (usize, usize),
            start_filled: Seq<(usize, usize)>,
        |
            bytes@ == #[trigger] record_bytes(
                alpha,
                beta,
                gamma,
                alpha_rand,
                seed,
                size,
                start_filled,
            ) ==> r is Ok && record_view(r.unwrap()) == (
                alpha,
                beta,
                gamma,
                alpha_rand,
                seed,
                size,
                start_filled,
            ),
{
    bincode::deserialize(bytes)
}

/// Compresses with `flate2::write::ZlibEncoder` at `Compression::best()`.
/// Nothing is proved of the stream. Writing to memory does not fail.
#[verifier::external_body]
pub(crate) fn compress(bytes: &Vec<u8>) -> (r: Vec<u8>)
    ensures
        r@ == deflated(bytes@),
{
    let mut encoder = ZlibEncoder::new(Vec::new(), Compression::best());
    match encoder.write_all(bytes) {
        Ok(()) => encoder.finish().unwrap_or_default(),
        Err(_) => Vec::new(),
    }
}

/// Unpacks with `flate2::read::ZlibDecoder`, read to its end, and asks it
/// with `total_in` how many bytes of the stream it took. Which streams
/// unpack, and to what, is not proved, but for two things that the decoder
/// is built for. The stream that [`compress`] makes of some bytes unpacks to
/// those bytes and is taken whole. And a stream that [`compress`] made and
/// that was cut short does not unpack: the decoder reports a stream that
/// ends before its end mark and checksum as incomplete.
#[verifier::external_body]
pub(crate) fn decompress(stream: &Vec<u8>) -> (r: Result<(Vec<u8>, u64), std::io::Error>)
    ensures
        r is Ok <==> inflated(stream@) is Some,
        r is Ok ==> inflated(stream@) == Some((r.unwrap().0@, r.unwrap().1)),
        forall|bytes: Seq<u8>|
            stream@ == #[trigger] deflated(bytes) ==> r is Ok && r.unwrap().0@ == bytes
                && r.unwrap().1 == stream@.len(),
        forall|bytes: Seq<u8>|
            is_cut_short(stream@, #[trigger] deflated(bytes)) ==> r is Err,
{
    let mut decoder = ZlibDecoder::new(&stream[..]);
    let mut bytes = Vec::new();
    match decoder.read_to_end(&mut bytes) {
        Ok(_) => Ok((bytes, decoder.total_in())),
        Err(error) => Err(error),
    }
}

/// Writes bytes as text with `base64::encode_config` and
/// `base64::URL_SAFE_NO_PAD`. Which characters stand for which bytes is not
/// proved. Claimed of the text is what that configuration documents: it is
/// written in the URL-safe alphabet, without padding, so it has four
/// characters for every three bytes and two or three for what is left over.
#[verifier::external_body]
pub(crate) fn to_text(bytes: &Vec<u8>) -> (r: String)
    ensures
        r@ == url_text(bytes@),
        r@.len() == text_len(bytes@.len()),
        forall|i: int| 0 <= i < r@.len() ==> is_url_safe(#[trigger] r@[i]),
{
    base64::encode_config(bytes, base64::URL_SAFE_NO_PAD)
}

/// Reads text as bytes with `base64::decode_config` and
/// `base64::URL_SAFE_NO_PAD`. Which text is read, and as what, is not proved,
/// but for this: the text that [`to_text`] writes for some bytes is read as
/// those bytes.
#[verifier::external_body]
pub(crate) fn from_text(text: &String) -> (r: Result<Vec<u8>, base64::DecodeError>)
    ensures
        r is Ok <==> text_bytes(text@) is Some,
        r is Ok ==> text_bytes(text@) == Some(r.unwrap()@),
        forall|bytes: Seq<u8>|
            text@ == #[trigger] url_text(bytes) ==> r is Ok && r.unwrap()@ == bytes,
{
    base64::decode_config(text, base64::URL_SAFE_NO_PAD)
}

} // verus!
