//! Baseline JPEG (Compression = 7) through `jpeg-encoder` and
//! `jpeg-decoder`: 8-bit, one (gray) or three (RGB) samples per pixel,
//! no chroma subsampling.
use crate::error::{Error, ErrorCode, Result};
use jpeg_decoder::{Decoder, PixelFormat};
use std::io::Cursor;
use vstd::prelude::*;

verus! {

/// The pixel format code of an 8-bit grayscale stream.
pub const JPEG_FORMAT_GRAY: u8 = 1;

/// The pixel format code of a 16-bit grayscale stream.
pub const JPEG_FORMAT_GRAY16: u8 = 2;

/// The pixel format code of an 8-bit RGB stream.
pub const JPEG_FORMAT_RGB: u8 = 3;

/// The pixel format code of an 8-bit CMYK stream.
pub const JPEG_FORMAT_CMYK: u8 = 4;

/// The frame header that `jpeg-decoder` reads from `input` (width, height,
/// pixel format code), with `cap` as its decoding buffer limit; `None` when
/// it cannot read one.
pub uninterp spec fn jpeg_header(input: Seq<u8>, cap: nat) -> Option<(u16, u16, u8)>;

/// The baseline JPEG that `jpeg-encoder` makes of `pixels` (`width` by
/// `height`, gray when `gray`, else RGB) at `quality`, with chroma sampling
/// factors `sampling` (horizontal, vertical).
pub uninterp spec fn jpeg_encoded(
    pixels: Seq<u8>,
    width: u16,
    height: u16,
    gray: bool,
    quality: u8,
    sampling: (u8, u8),
) -> Seq<u8>;

/// The chroma sampling factors tiles are encoded with: none (1x1).
pub const JPEG_SAMPLING_H: u8 = 1;

/// The vertical chroma sampling factor (see [`JPEG_SAMPLING_H`]).
pub const JPEG_SAMPLING_V: u8 = 1;

/// Reads the frame header with `jpeg_decoder::Decoder` (`new`,
/// `set_max_decoding_buffer_size`, `read_info`, `info`) and gives its
/// width, height and pixel format code; the contract only names it.
#[verifier::external_body]
fn jpeg_read_header(input: &[u8], cap: usize) -> (r: Option<(u16, u16, u8)>)
    ensures
        r == jpeg_header(input@, cap as nat),
{
    let mut decoder = Decoder::new(Cursor::new(input));
    decoder.set_max_decoding_buffer_size(cap);
    decoder.read_info().ok()?;
    let info = decoder.info()?;
    let code = match info.pixel_format {
        PixelFormat::L8 => JPEG_FORMAT_GRAY,
        PixelFormat::L16 => JPEG_FORMAT_GRAY16,
        PixelFormat::RGB24 => JPEG_FORMAT_RGB,
        PixelFormat::CMYK32 => JPEG_FORMAT_CMYK,
    };
    Some((info.width, info.height, code))
}

/// Decodes the pixels with `jpeg_decoder::Decoder::decode` under the buffer
/// limit `cap`. Nothing is stated of the pixels: the crate picks SIMD code
/// by the machine it runs on.
#[verifier::external_body]
fn jpeg_decode_pixels(input: &[u8], cap: usize) -> (r: Option<Vec<u8>>) {
    let mut decoder = Decoder::new(Cursor::new(input));
    decoder.set_max_decoding_buffer_size(cap);
    decoder.decode().ok()
}

/// Encodes with `jpeg_encoder::Encoder` (`new`, `set_sampling_factor` of
/// `SamplingFactor::from_factors(h, v)`, `encode`); the contract names the
/// output. Nothing is stated of when the encoder reports an error.
#[verifier::external_body]
fn jpeg_encode(pixels: &[u8], width: u16, height: u16, gray: bool, quality: u8, h: u8, v: u8) -> (r: Option<
    Vec<u8>,
>)
    ensures
        r matches Some(out) ==> out@ == jpeg_encoded(pixels@, width, height, gray, quality, (h, v)),
{
    let color_type = if gray { jpeg_encoder::ColorType::Luma } else { jpeg_encoder::ColorType::Rgb };
    let sampling = jpeg_encoder::SamplingFactor::from_factors(h, v)?;
    let mut out = Vec::new();
    let mut encoder = jpeg_encoder::Encoder::new(&mut out, quality);
    encoder.set_sampling_factor(sampling);
    encoder.encode(pixels, width, height, color_type).ok()?;
    Some(out)
}

/// The quality handed to the encoder: `quality` raised to at least 1.
pub open spec fn encoder_quality(quality: u32) -> u8 {
    if quality < 1 {
        1
    } else {
        quality as u8
    }
}

/// Encodes `pixels` (`width * height * samples_per_pixel` bytes, row-major)
/// as a baseline JPEG at `quality`. [`ErrorCode::InvalidArgument`] when the
/// quality is above 100, the samples per pixel are neither 1 nor 3, the
/// pixel count does not match, a side exceeds 65535, or the encoder fails.
pub fn encode_jpeg(pixels: &[u8], width: u32, height: u32, samples_per_pixel: u32, quality: u32) -> (r:
    Result<Vec<u8>>)
    ensures
        (quality > 100 || (samples_per_pixel != 1 && samples_per_pixel != 3) || pixels@.len() != width
            * height * samples_per_pixel || width > 65535 || height > 65535) ==> r is Err,
        r matches Ok(v) ==> v@ == jpeg_encoded(
            pixels@,
            width as u16,
            height as u16,
            samples_per_pixel == 1,
            encoder_quality(quality),
            (JPEG_SAMPLING_H, JPEG_SAMPLING_V),
        ),
        r matches Err(e) ==> e.kind() == ErrorCode::InvalidArgument,
{
    if quality > 100 {
        return Err(Error::invalid_argument("encode_jpeg: quality must be in [0, 100]"));
    }
    if samples_per_pixel != 1 && samples_per_pixel != 3 {
        return Err(Error::invalid_argument("encode_jpeg: samplesPerPixel must be 1 or 3"));
    }
    assert(width as u64 * height as u64 <= u64::MAX) by (nonlinear_arith)
        requires
            width <= u32::MAX,
            height <= u32::MAX,
    ;
    let wh = width as u64 * height as u64;
    let expected = wh.checked_mul(samples_per_pixel as u64);
    match expected {
        None => {
            return Err(Error::invalid_argument("encode_jpeg: dimensions overflow"));
        },
        Some(size) => {
            if pixels.len() as u64 != size {
                return Err(
                    Error::invalid_argument(
                        "encode_jpeg: pixels size does not match width * height * samplesPerPixel",
                    ),
                );
            }
        },
    }
    if width > 65535 || height > 65535 {
        return Err(Error::invalid_argument("encode_jpeg: width/height exceed u16 (JPEG SOF limit)"));
    }
    let q: u8 = if quality < 1 {
        1
    } else {
        quality as u8
    };
    match jpeg_encode(pixels, width as u16, height as u16, samples_per_pixel == 1, q, JPEG_SAMPLING_H, JPEG_SAMPLING_V) {
        Some(out) => Ok(out),
        None => Err(Error::invalid_argument("encode_jpeg: JPEG encoding failed")),
    }
}

/// Decodes a baseline JPEG that must be `width` by `height` with
/// `samples_per_pixel` samples (1: gray, 3: RGB), giving exactly
/// `width * height * samples_per_pixel` bytes. The header is checked before
/// the pixels are decoded. [`ErrorCode::InvalidArgument`] when the samples
/// per pixel are neither 1 nor 3, the header cannot be read or disagrees,
/// or the decoder fails or gives another byte count.
pub fn decode_jpeg(input: &[u8], width: u32, height: u32, samples_per_pixel: u32) -> (r: Result<
    Vec<u8>,
>)
    ensures
        r matches Ok(v) ==> {
            &&& samples_per_pixel == 1 || samples_per_pixel == 3
            &&& width * height * samples_per_pixel <= usize::MAX
            &&& jpeg_header(input@, (width * height * samples_per_pixel) as nat) == Some(
                (
                    width as u16,
                    height as u16,
                    if samples_per_pixel == 1 {
                        JPEG_FORMAT_GRAY
                    } else {
                        JPEG_FORMAT_RGB
                    },
                ),
            )
            &&& width <= 65535 && height <= 65535
            &&& v@.len() == width * height * samples_per_pixel
        },
        (samples_per_pixel != 1 && samples_per_pixel != 3) ==> r is Err,
        r matches Err(e) ==> e.kind() == ErrorCode::InvalidArgument,
{
    if samples_per_pixel != 1 && samples_per_pixel != 3 {
        return Err(Error::invalid_argument("decode_jpeg: samplesPerPixel must be 1 or 3"));
    }
    assert(width as u64 * height as u64 <= u64::MAX) by (nonlinear_arith)
        requires
            width <= u32::MAX,
            height <= u32::MAX,
    ;
    let wh = width as u64 * height as u64;
    let size = match wh.checked_mul(samples_per_pixel as u64) {
        None => {
            return Err(Error::invalid_argument("decode_jpeg: dimensions overflow"));
        },
        Some(s) => s,
    };
    if size > usize::MAX as u64 {
        return Err(Error::invalid_argument("decode_jpeg: decoded size exceeds host address space"));
    }
    let expected = size as usize;
    let header = jpeg_read_header(input, expected);
    let (stream_width, stream_height, format) = match header {
        None => {
            return Err(Error::invalid_argument("decode_jpeg: JPEG header read failed"));
        },
        Some(h) => h,
    };
    if stream_width as u32 != width || stream_height as u32 != height {
        return Err(
            Error::invalid_argument("decode_jpeg: JPEG stream dimensions do not match expected width/height"),
        );
    }
    let decoded_spp: u32 = if format == JPEG_FORMAT_GRAY {
        1
    } else if format == JPEG_FORMAT_RGB {
        3
    } else {
        return Err(
            Error::invalid_argument("decode_jpeg: unsupported JPEG pixel format (expect 8-bit gray/RGB)"),
        );
    };
    if decoded_spp != samples_per_pixel {
        return Err(
            Error::invalid_argument("decode_jpeg: decoded component count does not match expected samplesPerPixel"),
        );
    }
    match jpeg_decode_pixels(input, expected) {
        None => Err(Error::invalid_argument("decode_jpeg: JPEG decoding failed")),
        Some(decoded) => {
            if decoded.len() != expected {
                Err(
                    Error::invalid_argument(
                        "decode_jpeg: decoded output does not match width * height * samplesPerPixel",
                    ),
                )
            } else {
                Ok(decoded)
            }
        },
    }
}

} // verus!
