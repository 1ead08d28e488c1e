//! Zlib streams, written and read by the `flate2` crate.

use flate2::read::ZlibDecoder;
use flate2::write::ZlibEncoder;
use flate2::Compression;
use std::io::{Read, Write};
use vstd::prelude::*;

verus! {

/// `std::io::Error`, the error of the encoder and the decoder. Opaque: it is
/// only ever dropped.
#[verifier::external_type_specification]
#[verifier::external_body]
pub struct ExIoError(std::io::Error);

/// The zlib stream that the encoder writes for `data` at the default
/// compression level, or `None` where the encoder reports an error.
pub uninterp spec fn zlib_deflated(data: Seq<u8>) -> Option<Seq<u8>>;

/// The bytes that the decoder reads out of `stream`, or `None` where `stream`
/// is not a complete zlib stream.
pub uninterp spec fn zlib_inflated(stream: Seq<u8>) -> Option<Seq<u8>>;

/// Runs `data` through `flate2::write::ZlibEncoder` at `Compression::default()`.
/// Trusted: the outcome depends on `data` alone, and a stream that the encoder
/// has written decodes to the bytes it was written from.
#[verifier::external_body]
pub(crate) fn zlib_compress(data: &[u8]) -> (out: Result<Vec<u8>, std::io::Error>)
    ensures
        match out {
            Ok(stream) => zlib_deflated(data@) == Some(stream@) && zlib_inflated(stream@) == Some(
                data@,
            ),
            Err(_) => zlib_deflated(data@) is None,
        },
{
    let mut encoder = ZlibEncoder::new(Vec::new(), Compression::default());
    encoder.write_all(data)?;
    encoder.finish()
}

/// Reads `stream` to its end through `flate2::read::ZlibDecoder`. Trusted: the
/// outcome depends on `stream` alone.
#[verifier::external_body]
pub(crate) fn zlib_decompress(stream: &[u8]) -> (out: Result<Vec<u8>, std::io::Error>)
    ensures
        match out {
            Ok(data) => zlib_inflated(stream@) == Some(data@),
            Err(_) => zlib_inflated(stream@) is None,
        },
{
    let mut decoder = ZlibDecoder::new(stream);
    let mut data = Vec::new();
    decoder.read_to_end(&mut data)?;
    Ok(data)
}

} // verus!
