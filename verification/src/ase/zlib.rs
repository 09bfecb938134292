//! Zlib compression of cel pixels, done by the `flate2` crate.

use std::io::{Read, Write};

use flate2::read::ZlibDecoder;
use flate2::write::ZlibEncoder;
use flate2::Compression;
use vstd::prelude::*;

verus! {

/// The zlib stream that `flate2`'s `ZlibEncoder` at the default compression
/// level writes for `data`.
pub uninterp spec fn zlib_stream(data: Seq<u8>) -> Seq<u8>;

/// The bytes that `flate2`'s `ZlibDecoder` reads out of the zlib stream
/// `stream`, or `None` when the decoder reports an error.
pub uninterp spec fn zlib_decoded(stream: Seq<u8>) -> Option<Seq<u8>>;

/// Compresses `data` with `flate2::write::ZlibEncoder` over a `Vec<u8>` at
/// `Compression::default()`: `write_all` of the data, then `finish`.
/// Trusted: writing into a `Vec<u8>` never fails, the result is the stream
/// `zlib_stream` names for `data`, and decoding that stream gives `data`
/// back. Which bytes the stream holds is left unsaid.
#[verifier::external_body]
pub(crate) fn zlib_compress(data: &[u8]) -> (r: Result<Vec<u8>, std::io::Error>)
    ensures
        r is Ok,
        r->Ok_0@ == zlib_stream(data@),
        zlib_decoded(r->Ok_0@) == Some(data@),
{
    let mut encoder = ZlibEncoder::new(Vec::new(), Compression::default());
    encoder.write_all(data)?;
    encoder.finish()
}

/// Decompresses the zlib stream `data` with `flate2::read::ZlibDecoder` and
/// `read_to_end` into a new `Vec<u8>`.
/// Trusted: the result is what `zlib_decoded` names for `data`, an error
/// exactly when that is `None`. On which streams the decoder fails, and what
/// it reads out of a stream that `flate2` did not write, is left unsaid.
#[verifier::external_body]
pub(crate) fn zlib_inflate(data: &[u8]) -> (r: Result<Vec<u8>, std::io::Error>)
    ensures
        match zlib_decoded(data@) {
            Some(x) => r matches Ok(v) && v@ == x,
            None => r is Err,
        },
{
    let mut out: Vec<u8> = Vec::new();
    ZlibDecoder::new(data).read_to_end(&mut out)?;
    Ok(out)
}

} // verus!
