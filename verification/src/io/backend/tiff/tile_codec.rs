//! One tile's bytes through the image's predictor and compression: raw
//! pixels to stored bytes on the write side, stored bytes to raw pixels on
//! the read side.
use super::compression::deflate::{decode_deflate, encode_deflate, zlib_compressed, zlib_inflated, DEFLATE_LEVEL};
use super::compression::jpeg::{decode_jpeg, encode_jpeg, encoder_quality, jpeg_encoded, JPEG_SAMPLING_H, JPEG_SAMPLING_V};
use super::compression::lzw::{decode_lzw, encode_lzw, lemma_lzw_decode_len, lzw_codes, lzw_decode, lzw_pack};
use super::compression::packbits::{decode_pack_bits, encode_pack_bits, lemma_unpack_len, pack_from, unpack};
use super::compression::predictor::{
    apply_horizontal_differencing, apply_samples, geometry_ok, sample_order, samples_of,
    undo_horizontal_differencing, undo_samples,
};
use super::directory::TiffCompression;
use super::endian::pow256;
use crate::error::{Error, ErrorCode, Result};
use vstd::prelude::*;

verus! {

/// What encoding one tile needs from its image: the tile size, samples per
/// pixel and sample bytes, the predictor and byte order, the compression
/// and the JPEG quality.
#[derive(Debug, Clone, Copy)]
pub struct TileEncodeParams {
    /// Tile width in pixels.
    pub width: u32,
    /// Tile height in pixels.
    pub height: u32,
    /// Samples per pixel.
    pub samples_per_pixel: u32,
    /// Bytes per sample.
    pub bytes_per_sample: u8,
    /// Whether horizontal differencing is applied.
    pub predictor_horizontal: bool,
    /// Whether samples are big-endian.
    pub big_endian: bool,
    /// The compression scheme.
    pub compression: TiffCompression,
    /// JPEG quality.
    pub jpeg_quality: u32,
}

/// What decoding one tile needs from its image.
#[derive(Debug, Clone, Copy)]
pub struct TileDecodeParams {
    /// Tile width in pixels.
    pub width: u32,
    /// Tile height in pixels.
    pub height: u32,
    /// Samples per pixel.
    pub samples_per_pixel: u32,
    /// Bytes per sample.
    pub bytes_per_sample: u8,
    /// Whether horizontal differencing was applied.
    pub predictor_horizontal: bool,
    /// Whether samples are big-endian.
    pub big_endian: bool,
    /// The compression scheme.
    pub compression: TiffCompression,
}

/// Whether `payload` is `raw` after the predictor: differenced sample by
/// sample along each row when it is on, `raw` itself when it is off.
pub open spec fn predicted(raw: Seq<u8>, width: u32, spp: u32, bps: u8, big_endian: bool, on: bool, payload: Seq<u8>) -> bool {
    if on {
        &&& payload.len() == raw.len()
        &&& samples_of(payload, bps as nat, sample_order(big_endian)) == apply_samples(
            samples_of(raw, bps as nat, sample_order(big_endian)),
            (width * spp) as nat,
            spp as nat,
            pow256(bps as nat),
        )
    } else {
        payload == raw
    }
}

/// Whether `out` is `decoded` with the predictor undone: summed back
/// sample by sample along each row when it is on, `decoded` itself when
/// it is off.
pub open spec fn unpredicted(decoded: Seq<u8>, width: u32, spp: u32, bps: u8, big_endian: bool, on: bool, out: Seq<u8>) -> bool {
    if on {
        &&& out.len() == decoded.len()
        &&& samples_of(out, bps as nat, sample_order(big_endian)) == undo_samples(
            samples_of(decoded, bps as nat, sample_order(big_endian)),
            (width * spp) as nat,
            spp as nat,
            pow256(bps as nat),
        )
    } else {
        out == decoded
    }
}

/// The stored bytes of a predicted tile payload under the compression of
/// `p` (for JPEG, those of the encoder's output).
pub open spec fn compressed_as(p: TileEncodeParams, payload: Seq<u8>, out: Seq<u8>) -> bool {
    match p.compression {
        TiffCompression::Lzw => out == lzw_pack(lzw_codes(payload)),
        TiffCompression::PackBits => out == pack_from(payload, 0),
        TiffCompression::Deflate => out == zlib_compressed(payload, DEFLATE_LEVEL),
        TiffCompression::Jpeg => out == jpeg_encoded(
            payload,
            p.width as u16,
            p.height as u16,
            p.samples_per_pixel == 1,
            encoder_quality(p.jpeg_quality),
            (JPEG_SAMPLING_H, JPEG_SAMPLING_V),
        ),
        TiffCompression::NoCompression => out == payload,
    }
}

/// Encodes one tile's raw pixels: horizontal differencing when the
/// predictor is on, then the compression. For LZW, PackBits and Deflate
/// this succeeds exactly when the predictor (if on) accepts the geometry
/// and the tile is at most `u32::MAX` bytes; errors are those of the
/// codecs.
pub fn encode_tile_bytes(raw: &[u8], p: TileEncodeParams) -> (r: Result<Vec<u8>>)
    requires
        p.compression != TiffCompression::NoCompression,
    ensures
        (p.compression == TiffCompression::Lzw || p.compression == TiffCompression::PackBits || p.compression
            == TiffCompression::Deflate) ==> (r is Ok
            <==> ((!p.predictor_horizontal || geometry_ok(
            raw@.len(),
            p.width,
            p.samples_per_pixel,
            p.bytes_per_sample,
        )) && raw@.len() <= u32::MAX)),
        r matches Ok(v) ==> exists|payload: Seq<u8>|
            predicted(
                raw@,
                p.width,
                p.samples_per_pixel,
                p.bytes_per_sample,
                p.big_endian,
                p.predictor_horizontal,
                payload,
            ) && #[trigger] compressed_as(p, payload, v@),
        p.predictor_horizontal && !geometry_ok(raw@.len(), p.width, p.samples_per_pixel, p.bytes_per_sample)
            ==> r is Err,
        r matches Err(e) ==> e.kind() == ErrorCode::InvalidArgument,
{
    let mut payload: Vec<u8> = Vec::new();
    payload.extend_from_slice(raw);
    assert(payload@ =~= raw@);
    if p.predictor_horizontal {
        apply_horizontal_differencing(
            payload.as_mut_slice(),
            p.width,
            p.samples_per_pixel,
            p.bytes_per_sample,
            p.big_endian,
        )?;
    }
    let ghost pl = payload@;
    assert(predicted(
        raw@,
        p.width,
        p.samples_per_pixel,
        p.bytes_per_sample,
        p.big_endian,
        p.predictor_horizontal,
        pl,
    ));
    let out = match p.compression {
        TiffCompression::Lzw => encode_lzw(payload.as_slice()),
        TiffCompression::PackBits => encode_pack_bits(payload.as_slice()),
        TiffCompression::Deflate => encode_deflate(payload.as_slice()),
        TiffCompression::Jpeg => encode_jpeg(
            payload.as_slice(),
            p.width,
            p.height,
            p.samples_per_pixel,
            p.jpeg_quality,
        ),
        TiffCompression::NoCompression => Ok(payload),
    };
    match out {
        Ok(v) => {
            assert(compressed_as(p, pl, v@));
            Ok(v)
        },
        Err(e) => Err(e),
    }
}

/// The payload a deterministic codec decodes `raw` to when it must come
/// to `expected` bytes (`None` for JPEG, whose output the decoder picks).
pub open spec fn decoded_payload(c: TiffCompression, raw: Seq<u8>, expected: nat) -> Option<Seq<u8>> {
    match c {
        TiffCompression::NoCompression => if raw.len() == expected {
            Some(raw)
        } else {
            None
        },
        TiffCompression::Lzw => lzw_decode(raw, expected),
        TiffCompression::PackBits => unpack(raw, 0, Seq::empty(), expected),
        TiffCompression::Deflate => match zlib_inflated(raw, expected + 1) {
            Some(v) => if v.len() == expected {
                Some(v)
            } else {
                None
            },
            None => None,
        },
        TiffCompression::Jpeg => None,
    }
}

/// Decodes one tile's stored bytes into raw pixels: the compression's
/// decoder (wanting exactly `expected_size` bytes), then the predictor
/// undone when it is on. For the codecs other than JPEG the result is
/// [`decoded_payload`] with the predictor undone, and this succeeds
/// exactly when that payload exists and the predictor (if on) accepts the
/// geometry; a JPEG tile gives `width * height * samples` bytes, whose
/// values the JPEG decoder picks.
pub fn decode_tile_bytes(raw: &[u8], expected_size: usize, p: TileDecodeParams) -> (r: Result<Vec<u8>>)
    requires
        expected_size < usize::MAX,
    ensures
        p.compression != TiffCompression::Jpeg ==> (r is Ok <==> (decoded_payload(
            p.compression,
            raw@,
            expected_size as nat,
        ) is Some && (!p.predictor_horizontal || geometry_ok(
            expected_size as nat,
            p.width,
            p.samples_per_pixel,
            p.bytes_per_sample,
        )))),
        p.compression != TiffCompression::Jpeg ==> (r matches Ok(v) ==> unpredicted(
            decoded_payload(p.compression, raw@, expected_size as nat)->0,
            p.width,
            p.samples_per_pixel,
            p.bytes_per_sample,
            p.big_endian,
            p.predictor_horizontal,
            v@,
        )),
        p.compression == TiffCompression::Jpeg ==> (r matches Ok(v) ==> v@.len() == p.width * p.height
            * p.samples_per_pixel),
        r matches Err(e) ==> e.kind() == ErrorCode::InvalidArgument,
{
    let mut decoded = match p.compression {
        TiffCompression::NoCompression => {
            if raw.len() != expected_size {
                return Err(
                    Error::invalid_argument(
                        "TiffImageSource::readTile: uncompressed tile size does not match the expected size",
                    ),
                );
            }
            let mut v: Vec<u8> = Vec::new();
            v.extend_from_slice(raw);
            assert(v@ =~= raw@);
            v
        },
        TiffCompression::Lzw => decode_lzw(raw, expected_size)?,
        TiffCompression::PackBits => decode_pack_bits(raw, expected_size)?,
        TiffCompression::Deflate => decode_deflate(raw, expected_size)?,
        TiffCompression::Jpeg => decode_jpeg(raw, p.width, p.height, p.samples_per_pixel)?,
    };
    let ghost d = decoded@;
    let ghost jpeg_len = p.width * p.height * p.samples_per_pixel;
    proof {
        lemma_lzw_decode_len(raw@, 0, super::compression::lzw::initial_dict(), None, Seq::empty(), expected_size as nat);
        lemma_unpack_len(raw@, 0, Seq::empty(), expected_size as nat);
        if p.compression != TiffCompression::Jpeg {
            assert(decoded_payload(p.compression, raw@, expected_size as nat) == Some(d));
        } else {
            assert(d.len() == jpeg_len);
        }
    }
    if p.predictor_horizontal {
        undo_horizontal_differencing(
            decoded.as_mut_slice(),
            p.width,
            p.samples_per_pixel,
            p.bytes_per_sample,
            p.big_endian,
        )?;
    }
    assert(unpredicted(
        d,
        p.width,
        p.samples_per_pixel,
        p.bytes_per_sample,
        p.big_endian,
        p.predictor_horizontal,
        decoded@,
    ));
    Ok(decoded)
}

/// The byte size of a decoded tile: width * height * samples * sample
/// bytes. [`ErrorCode::InvalidArgument`] exactly when a product step
/// overflows `u64` or the size exceeds `usize`.
pub fn tile_decoded_size(width: u32, height: u32, samples_per_pixel: u32, bytes_per_sample: u8) -> (r: Result<usize>)
    ensures
        r is Ok <==> (width * height <= u64::MAX && width * height * samples_per_pixel <= u64::MAX && width
            * height * samples_per_pixel * bytes_per_sample <= u64::MAX && width * height
            * samples_per_pixel * bytes_per_sample <= usize::MAX),
        r matches Ok(n) ==> n == width * height * samples_per_pixel * bytes_per_sample,
        r matches Err(e) ==> e.kind() == ErrorCode::InvalidArgument,
{
    let s1 = match (width as u64).checked_mul(height as u64) {
        Some(v) => v,
        None => {
            return Err(Error::invalid_argument("TiffImageSource::readTile: tile size computation overflows"));
        },
    };
    let s2 = match s1.checked_mul(samples_per_pixel as u64) {
        Some(v) => v,
        None => {
            return Err(Error::invalid_argument("TiffImageSource::readTile: tile size computation overflows"));
        },
    };
    let s3 = match s2.checked_mul(bytes_per_sample as u64) {
        Some(v) => v,
        None => {
            return Err(Error::invalid_argument("TiffImageSource::readTile: tile size computation overflows"));
        },
    };
    if s3 > usize::MAX as u64 {
        return Err(Error::invalid_argument("TiffImageSource::readTile: tile size computation overflows"));
    }
    Ok(s3 as usize)
}

} // verus!
