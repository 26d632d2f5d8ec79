use vstd::prelude::*;
use std::io::Read;
use std::io::Write;

verus! {

/// What decompressing a zlib stream gives: the bytes, or `None` where the
/// stream is broken.
pub uninterp spec fn zlib_inflate(data: Seq<u8>) -> Option<Seq<u8>>;

/// What compressing bytes at the default level gives, or `None` where the
/// compressor fails.
pub uninterp spec fn zlib_deflate(data: Seq<u8>) -> Option<Seq<u8>>;

/// Runs `flate2::read::ZlibDecoder` over `data` to its end. Trusted: the
/// outcome is the one that `zlib_inflate` names for these bytes.
#[verifier::external_body]
pub(crate) fn inflate(data: &[u8]) -> (r: Option<Vec<u8>>)
    ensures
        match r {
            Some(v) => zlib_inflate(data@) == Some(v@),
            None => zlib_inflate(data@) is None,
        },
{
    let mut out = Vec::new();
    match flate2::read::ZlibDecoder::new(data).read_to_end(&mut out) {
        Ok(_) => Some(out),
        Err(_) => None,
    }
}

/// Runs `flate2::write::ZlibEncoder` at the default level over `data` and
/// finishes it. Trusted: the outcome is the one that `zlib_deflate` names,
/// and a stream that it produced decompresses to `data` again.
#[verifier::external_body]
pub(crate) fn deflate(data: &[u8]) -> (r: Option<Vec<u8>>)
    ensures
        match r {
            Some(v) => zlib_deflate(data@) == Some(v@) && zlib_inflate(v@) == Some(data@),
            None => zlib_deflate(data@) is None,
        },
{
    let mut encoder = flate2::write::ZlibEncoder::new(Vec::new(), flate2::Compression::default());
    match encoder.write_all(data) {
        Ok(()) => match encoder.finish() {
            Ok(v) => Some(v),
            Err(_) => None,
        },
        Err(_) => None,
    }
}

} // verus!
