//! Deflate (zlib, RFC 1950) compression (Compression = 8) through `flate2`.
use crate::error::{Error, ErrorCode, Result};
use flate2::{read::ZlibDecoder, write::ZlibEncoder, Compression};
use std::io::{Read, Write};
use vstd::prelude::*;

verus! {

/// What `flate2` decompresses the zlib stream `input` to, reading at most
/// `cap` bytes of output; `None` when the stream is not valid zlib.
pub uninterp spec fn zlib_inflated(input: Seq<u8>, cap: nat) -> Option<Seq<u8>>;

/// What `flate2` compresses `input` to at compression level `level`.
pub uninterp spec fn zlib_compressed(input: Seq<u8>, level: u32) -> Seq<u8>;

/// The zlib level deflate data is written at: `flate2`'s default.
pub const DEFLATE_LEVEL: u32 = 6;

/// Decompresses `input` with `flate2::read::ZlibDecoder`, through
/// `std::io::Read::take(cap)` and `read_to_end`: the contract names the
/// output and says that it holds at most `cap` bytes, which is what `take`
/// documents.
#[verifier::external_body]
pub(crate) fn zlib_inflate_capped(input: &[u8], cap: u64) -> (r: Option<Vec<u8>>)
    ensures
        r matches Some(v) ==> zlib_inflated(input@, cap as nat) == Some(v@) && v@.len() <= cap,
        r is None ==> zlib_inflated(input@, cap as nat) is None,
{
    let mut output = Vec::new();
    match ZlibDecoder::new(input).take(cap).read_to_end(&mut output) {
        Ok(_) => Some(output),
        Err(_) => None,
    }
}

/// Compresses `input` with `flate2::write::ZlibEncoder` at
/// `Compression::new(level)` (`write_all`, then `finish`). The contract
/// names the output and states that it decompresses back to `input`: zlib
/// is lossless. It also states that the call succeeds: the encoder's
/// `write` and `finish` report only the errors of the inner writer, and the
/// inner writer here is a `Vec<u8>`, which appends and grows as needed.
#[verifier::external_body]
pub(crate) fn zlib_compress(input: &[u8], level: u32) -> (r: Option<Vec<u8>>)
    requires
        level <= 9,
    ensures
        r is Some,
        r matches Some(v) ==> v@ == zlib_compressed(input@, level) && zlib_inflated(
            v@,
            (input@.len() + 1) as nat,
        ) == Some(input@),
{
    let mut encoder = ZlibEncoder::new(Vec::new(), Compression::new(level));
    if encoder.write_all(input).is_err() {
        return None;
    }
    encoder.finish().ok()
}

/// Decompresses a zlib stream that must expand to exactly `expected_size`
/// bytes; reading stops one byte past it, so a hostile stream cannot make
/// the output grow further. [`ErrorCode::InvalidArgument`] when the stream
/// is not valid zlib or expands to another size.
pub fn decode_deflate(input: &[u8], expected_size: usize) -> (r: Result<Vec<u8>>)
    requires
        expected_size < usize::MAX,
    ensures
        r is Ok <==> (zlib_inflated(input@, (expected_size + 1) as nat) matches Some(v) && v.len()
            == expected_size),
        r matches Ok(v) ==> zlib_inflated(input@, (expected_size + 1) as nat) == Some(v@),
        r matches Err(e) ==> e.kind() == ErrorCode::InvalidArgument,
{
    let cap = expected_size as u64 + 1;
    match zlib_inflate_capped(input, cap) {
        None => Err(Error::invalid_argument("decode_deflate: zlib decompression failed")),
        Some(output) => {
            if output.len() != expected_size {
                Err(Error::invalid_argument("decode_deflate: decoded output does not match expectedSize"))
            } else {
                Ok(output)
            }
        },
    }
}

/// Compresses `input` as a zlib stream at [`DEFLATE_LEVEL`]:
/// [`ErrorCode::InvalidArgument`] exactly when the input is longer than
/// `u32::MAX` bytes; what it returns decompresses to `input`.
pub fn encode_deflate(input: &[u8]) -> (r: Result<Vec<u8>>)
    ensures
        r is Ok <==> input@.len() <= u32::MAX,
        r matches Ok(v) ==> v@ == zlib_compressed(input@, DEFLATE_LEVEL)
            && zlib_inflated(v@, (input@.len() + 1) as nat) == Some(input@),
        r matches Err(e) ==> e.kind() == ErrorCode::InvalidArgument,
{
    if input.len() as u64 > 0xFFFF_FFFFu64 {
        return Err(Error::invalid_argument("encode_deflate: input exceeds uint32 strip byte count"));
    }
    match zlib_compress(input, DEFLATE_LEVEL) {
        Some(bytes) => Ok(bytes),
        None => Err(Error::invalid_argument("encode_deflate: zlib compression failed")),
    }
}

} // verus!
