//! Whole-buffer compression, done by the `flate2` crate.
//!
//! The codec does not know the compressed form. It is named here, so that
//! contracts can say which bytes were handed to the compressor and which
//! came back, and nothing more is claimed of it.

use flate2::read::ZlibDecoder;
use flate2::write::ZlibEncoder;
use flate2::Compression;
use std::io::{Read, Write};
use vstd::prelude::*;

verus! {

/// The error type of `std::io`, carried through and never looked into.
#[verifier::external_type_specification]
#[verifier::external_body]
pub struct ExIoError(std::io::Error);

/// The zlib stream that `flate2` writes for `data` at its best compression
/// level, or `None` where it reports an error instead.
pub uninterp spec fn zlib_deflated(data: Seq<u8>) -> Option<Seq<u8>>;

/// The bytes that `flate2` reads out of the zlib stream `data`, or `None`
/// where it reports an error on it.
pub uninterp spec fn zlib_inflated(data: Seq<u8>) -> Option<Seq<u8>>;

/// Feeds `data` to a `flate2::write::ZlibEncoder` over an empty vector, made
/// with `Compression::best()`, and takes the vector back with `finish`.
/// Trusted: whether the call succeeds, and what comes back if it does,
/// depends on `data` alone. That it succeeds on any given data is not
/// claimed.
#[verifier::external_body]
pub(crate) fn deflate(data: &[u8]) -> (r: Result<Vec<u8>, std::io::Error>)
    ensures
        r matches Ok(out) ==> zlib_deflated(data@) == Some(out@),
        r is Err ==> zlib_deflated(data@) is None,
{
    let mut encoder = ZlibEncoder::new(Vec::new(), Compression::best());
    encoder.write_all(data)?;
    encoder.finish()
}

/// Reads a `flate2::read::ZlibDecoder` over `data` to its end. Trusted:
/// whether the call succeeds, and what it reads if it does, depends on
/// `data` alone.
#[verifier::external_body]
pub(crate) fn inflate(data: &[u8]) -> (r: Result<Vec<u8>, std::io::Error>)
    ensures
        r matches Ok(out) ==> zlib_inflated(data@) == Some(out@),
        r is Err ==> zlib_inflated(data@) is None,
{
    let mut out = Vec::new();
    ZlibDecoder::new(data).read_to_end(&mut out)?;
    Ok(out)
}

} // verus!
