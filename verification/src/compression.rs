//! The codec: a batch of elements is serialized with postcard and the result
//! is compressed with brotli.

use vstd::prelude::*;
use std::io::Write;

verus! {

/// A length as postcard writes it: seven bits to a byte, the low bits first,
/// and the high bit of a byte set where another byte follows.
pub open spec fn varint(n: nat) -> Seq<u8>
    decreases n,
{
    if n < 128 {
        seq![n as u8]
    } else {
        seq![(n % 128 + 128) as u8] + varint(n / 128)
    }
}

/// The byte strings of a list as postcard writes them one after the other:
/// each behind its length.
pub open spec fn postcard_strings(items: Seq<Seq<u8>>) -> Seq<u8>
    decreases items.len(),
{
    if items.len() == 0 {
        Seq::empty()
    } else {
        postcard_strings(items.drop_last()) + varint(items.last().len()) + items.last()
    }
}

/// The bytes that postcard writes for a list of byte strings: the number of
/// strings, then each string behind its length.
pub open spec fn postcard_bytes(items: Seq<Seq<u8>>) -> Seq<u8> {
    varint(items.len()) + postcard_strings(items)
}

/// The list of byte strings that postcard reads from `bytes`, if it reads
/// one, on the target at hand: a length that the target's `usize` does not
/// hold is refused.
pub uninterp spec fn postcard_items(bytes: Seq<u8>) -> Option<Seq<Seq<u8>>>;

/// The data that the brotli decoder recovers from `stream`, if `stream`
/// starts with a complete brotli stream. Bytes that follow the stream are not
/// looked at.
pub uninterp spec fn brotli_content(stream: Seq<u8>) -> Option<Seq<u8>>;

/// The error type of postcard.
#[verifier::external_type_specification]
#[verifier::external_body]
pub struct ExPostcardError(postcard::Error);

/// Why a byte string could not be turned back into a batch of elements.
#[derive(Clone, Copy, Debug, PartialEq, Eq, Structural)]
pub enum DecodeError {
    /// The bytes are not a brotli stream that holds a postcard list.
    Malformed,
    /// The bytes hold a batch of `found` elements where `expected` were due.
    InvalidLength { found: usize, expected: usize },
}

/// A byte string is its own deep view.
pub broadcast proof fn lemma_bytes_deep_view(bytes: Vec<u8>)
    ensures
        #[trigger] bytes.deep_view() == bytes@,
{
}

/// The batch of elements that a compressed form stands for, if the bytes are
/// one: the list that postcard reads from the content of the brotli stream.
pub open spec fn decoded(bytes: Seq<u8>) -> Option<Seq<Seq<u8>>> {
    match brotli_content(bytes) {
        Some(raw) => postcard_items(raw),
        None => None,
    }
}

/// What a chunk of `chunk_elems` elements holds, or why `data` is not such a
/// chunk.
pub open spec fn chunk_line(data: Seq<u8>, chunk_elems: usize) -> Result<Seq<Seq<u8>>, DecodeError> {
    match decoded(data) {
        None => Err(DecodeError::Malformed),
        Some(items) => if items.len() == chunk_elems {
            Ok(items)
        } else {
            Err(DecodeError::InvalidLength { found: items.len() as usize, expected: chunk_elems })
        },
    }
}

/// Calls `postcard::to_stdvec` on a list of byte strings.
///
/// Trusted: the result is postcard's encoding of the list, which is the
/// number of strings as a varint and then each string behind its length as a
/// varint, and postcard reads the same list back from it. Serializing into a
/// growable vector cannot run out of room, and a list knows its length, so
/// postcard has no error to report here.
#[verifier::external_body]
pub(crate) fn postcard_to_stdvec(items: &Vec<Vec<u8>>) -> (out: Vec<u8>)
    ensures
        out@ == postcard_bytes(items.deep_view()),
        postcard_items(out@) == Some(items.deep_view()),
{
    postcard::to_stdvec(items).unwrap()
}

/// Calls `postcard::from_bytes` for a list of byte strings.
///
/// Trusted: the call succeeds exactly on the inputs from which postcard reads
/// a list, and returns that list.
#[verifier::external_body]
pub(crate) fn postcard_from_bytes(bytes: &[u8]) -> (out: Result<Vec<Vec<u8>>, postcard::Error>)
    ensures
        match out {
            Ok(items) => postcard_items(bytes@) == Some(items.deep_view()),
            Err(_) => postcard_items(bytes@) is None,
        },
{
    postcard::from_bytes(bytes)
}

/// Runs `data` through a `brotli::CompressorWriter` over an in-memory sink,
/// at the given quality, which brotli clamps to its range of 0 to 11.
///
/// Trusted: the result is a complete brotli stream, from which the decoder,
/// fed in pieces, recovers `data` whatever the length of the stream. Which of
/// the streams for `data` it is, is left open. The sink is a vector, so no
/// write to it fails, and the encoder reports an error only where its calls
/// come out of order, which they do not here.
#[verifier::external_body]
fn brotli_compress(data: &[u8], quality: i32) -> (out: Vec<u8>)
    ensures
        brotli_content(out@) == Some(data@),
{
    let params = brotli::enc::BrotliEncoderParams { quality, ..Default::default() };
    let mut writer = brotli::CompressorWriter::with_params(Vec::new(), 4096, &params);
    writer.write_all(data).unwrap();
    writer.flush().unwrap();
    writer.into_inner()
}

/// Calls `brotli::BrotliDecompress` with `stream` as the input and an
/// in-memory sink.
///
/// Trusted: the result is the data of the brotli stream with which `stream`
/// starts, or `None` where the decoder rejects the input or the input ends
/// before the stream does. The call hands the input to the decoder in pieces
/// of 4096 bytes, so a stream of any length is read.
#[verifier::external_body]
fn brotli_decompress(stream: &[u8]) -> (out: Option<Vec<u8>>)
    ensures
        match out {
            Some(data) => brotli_content(stream@) == Some(data@),
            None => brotli_content(stream@) is None,
        },
{
    let mut input = stream;
    let mut data = Vec::new();
    match brotli::BrotliDecompress(&mut input, &mut data) {
        Ok(()) => Some(data),
        Err(_) => None,
    }
}

/// Serializes a batch of elements and compresses the result at the brotli
/// quality `compression_level`. The result is a compressed form of the
/// batch: `decompress` reads the batch back from it.
pub fn compress(x: &Vec<Vec<u8>>, compression_level: i32) -> (out: Vec<u8>)
    ensures
        decoded(out@) == Some(x.deep_view()),
        brotli_content(out@) == Some(postcard_bytes(x.deep_view())),
{
    let serialized = postcard_to_stdvec(x);
    brotli_compress(serialized.as_slice(), compression_level)
}

/// Decompresses a byte string and reads a batch of elements from the result.
/// Bytes that are no compressed form of a batch are reported as malformed.
pub fn decompress(x: &[u8]) -> (out: Result<Vec<Vec<u8>>, DecodeError>)
    ensures
        match out {
            Ok(items) => decoded(x@) == Some(items.deep_view()),
            Err(e) => decoded(x@) is None && e == DecodeError::Malformed,
        },
{
    match brotli_decompress(x) {
        Some(raw) => match postcard_from_bytes(raw.as_slice()) {
            Ok(items) => Ok(items),
            Err(_) => Err(DecodeError::Malformed),
        },
        None => Err(DecodeError::Malformed),
    }
}

} // verus!
