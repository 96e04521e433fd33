//! Chunk codecs of the Zarr container: raw, zstd (through `zstd`) or zlib
//! (through `flate2`), and the worst-case payload size of each.
use super::document::Compressor;
use crate::error::{Error, ErrorCode, Result};
use crate::io::backend::tiff::compression::deflate::{
    zlib_compress, zlib_compressed, zlib_inflate_capped, zlib_inflated, DEFLATE_LEVEL,
};
use vstd::prelude::*;

verus! {

/// What `zstd` compresses `data` to at compression level `level`.
pub uninterp spec fn zstd_compressed(data: Seq<u8>, level: i32) -> Seq<u8>;

/// The zstd level chunks are compressed at.
pub const ZSTD_LEVEL: i32 = 3;

/// What `zstd` decompresses `data` to into at most `cap` bytes; `None`
/// when it fails.
pub uninterp spec fn zstd_decompressed(data: Seq<u8>, cap: nat) -> Option<Seq<u8>>;

/// `zstd::bulk::compress(data, level)`. The contract names the output and
/// states that it decompresses back to `data` within `data.len()` bytes:
/// zstd is lossless. It also states that the call succeeds: for a level in
/// zstd's range, `Compressor::new` succeeds and `compress` writes into a
/// buffer of `compress_bound(data.len())` bytes, which always suffices.
#[verifier::external_body]
fn zstd_compress(data: &[u8], level: i32) -> (r: Option<Vec<u8>>)
    requires
        1 <= level <= 19,
    ensures
        r is Some,
        r matches Some(v) ==> v@ == zstd_compressed(data@, level) && zstd_decompressed(v@, data@.len())
            == Some(data@),
{
    zstd::bulk::compress(data, level).ok()
}

/// `zstd::bulk::decompress(data, cap)`: the contract names the output and
/// says it holds at most `cap` bytes, as the crate documents.
#[verifier::external_body]
fn zstd_decompress(data: &[u8], cap: usize) -> (r: Option<Vec<u8>>)
    ensures
        r matches Some(v) ==> zstd_decompressed(data@, cap as nat) == Some(v@) && v@.len() <= cap,
        r is None ==> zstd_decompressed(data@, cap as nat) is None,
{
    zstd::bulk::decompress(data, cap).ok()
}

/// The worst-case payload size of `n` raw bytes: zstd's and zlib's
/// compress bounds, or `n` itself for raw chunks.
pub open spec fn payload_bound_of(compressor: Compressor, n: nat) -> nat {
    match compressor {
        Compressor::Zstd => n + n / 128 + 128 + 3,
        Compressor::Zlib => n + n / 4096 + n / 16384 + n / 33554432 + 13,
        Compressor::NoCompression => n,
    }
}

/// The worst-case on-disk payload size for `n` raw bytes under
/// `compressor` (before the 4-byte length prefix).
pub fn payload_bound(compressor: Compressor, n: usize) -> (r: usize)
    requires
        payload_bound_of(compressor, n as nat) <= usize::MAX,
    ensures
        r == payload_bound_of(compressor, n as nat),
{
    match compressor {
        Compressor::Zstd => n + n / 128 + 128 + 3,
        Compressor::Zlib => n + n / 4096 + n / 16384 + n / 33554432 + 13,
        Compressor::NoCompression => n,
    }
}

fn copy_slice(data: &[u8]) -> (r: Vec<u8>)
    ensures
        r@ == data@,
{
    let mut out: Vec<u8> = Vec::new();
    out.extend_from_slice(data);
    assert(out@ =~= data@);
    out
}

/// Compresses a chunk: raw chunks are copied, zstd and zlib ones go
/// through their crates (each of which decompresses back to `data`).
/// Neither crate fails on a chunk, so this always succeeds; a failure would
/// be reported as [`ErrorCode::InvalidArgument`].
pub fn compress(compressor: Compressor, data: &[u8]) -> (r: Result<Vec<u8>>)
    ensures
        r matches Ok(v) && match compressor {
            Compressor::NoCompression => v@ == data@,
            Compressor::Zstd => v@ == zstd_compressed(data@, ZSTD_LEVEL) && zstd_decompressed(
                v@,
                data@.len(),
            ) == Some(data@),
            Compressor::Zlib => v@ == zlib_compressed(data@, DEFLATE_LEVEL) && zlib_inflated(
                v@,
                data@.len() + 1,
            ) == Some(data@),
        },
{
    match compressor {
        Compressor::NoCompression => Ok(copy_slice(data)),
        Compressor::Zstd => match zstd_compress(data, ZSTD_LEVEL) {
            Some(v) => Ok(v),
            None => Err(Error::invalid_argument("zarr: zstd compress failed")),
        },
        Compressor::Zlib => match zlib_compress(data, DEFLATE_LEVEL) {
            Some(v) => Ok(v),
            None => Err(Error::invalid_argument("zarr: zlib compress failed")),
        },
    }
}

/// What decompressing `data` gives when it must come to `expected` bytes:
/// the raw bytes, or the crate's output, when of that length.
pub open spec fn decompressed(compressor: Compressor, data: Seq<u8>, expected: nat) -> Option<Seq<u8>> {
    let out = match compressor {
        Compressor::NoCompression => Some(data),
        Compressor::Zstd => zstd_decompressed(data, expected),
        Compressor::Zlib => zlib_inflated(data, expected + 1),
    };
    match out {
        Some(v) => if v.len() == expected {
            Some(v)
        } else {
            None
        },
        None => None,
    }
}

/// Decompresses a chunk that must come to exactly `expected_bytes`
/// ([`decompressed`]); [`ErrorCode::InvalidArgument`] otherwise.
pub fn decompress(compressor: Compressor, data: &[u8], expected_bytes: usize) -> (r: Result<Vec<u8>>)
    requires
        expected_bytes < usize::MAX,
    ensures
        r is Ok <==> decompressed(compressor, data@, expected_bytes as nat) is Some,
        r matches Ok(v) ==> decompressed(compressor, data@, expected_bytes as nat) == Some(v@),
        r matches Err(e) ==> e.kind() == ErrorCode::InvalidArgument,
{
    match compressor {
        Compressor::NoCompression => {
            if data.len() != expected_bytes {
                return Err(Error::invalid_argument("zarr: raw chunk size mismatch"));
            }
            Ok(copy_slice(data))
        },
        Compressor::Zstd => {
            let out = match zstd_decompress(data, expected_bytes) {
                Some(v) => v,
                None => {
                    return Err(Error::invalid_argument("zarr: zstd decompress failed"));
                },
            };
            if out.len() != expected_bytes {
                return Err(Error::invalid_argument("zarr: zstd decompress failed"));
            }
            Ok(out)
        },
        Compressor::Zlib => {
            let out = match zlib_inflate_capped(data, expected_bytes as u64 + 1) {
                Some(v) => v,
                None => {
                    return Err(Error::invalid_argument("zarr: zlib decompress failed"));
                },
            };
            if out.len() != expected_bytes {
                return Err(Error::invalid_argument("zarr: zlib decompress failed"));
            }
            Ok(out)
        },
    }
}

} // verus!
