use flate2::read::ZlibDecoder;
use ptiff_core::io::backend::tiff::compression::{
    apply_horizontal_differencing, decode_deflate, decode_jpeg, decode_lzw, decode_pack_bits,
    encode_deflate, encode_jpeg, encode_lzw, encode_pack_bits, undo_horizontal_differencing,
};
use ptiff_core::ErrorCode;
use std::io::Read;

// ---- PackBits ---------------------------------------------------------

#[test]
fn decode_handles_literal_repeat_and_noop() {
    let input = vec![2, b'a', b'b', b'c', -3i8 as u8, 0x41, 0x80, 0, 0x00];
    let decoded = decode_pack_bits(&input, 3 + 4 + 1).unwrap();
    assert_eq!(decoded, vec![b'a', b'b', b'c', 0x41, 0x41, 0x41, 0x41, 0x00]);
}

#[test]
fn decode_rejects_input_exhausted() {
    let input = vec![1, b'a', b'b', -3i8 as u8];
    let err = decode_pack_bits(&input, 100).unwrap_err();
    assert_eq!(err.code(), ErrorCode::InvalidArgument);
}

#[test]
fn packbits_encode_then_decode_round_trips() {
    let data: Vec<u8> = vec![1, 2, 3, 0xAA, 0xAA, 0xAA, 0xAA, 5, 6, 7, 8];
    let encoded = encode_pack_bits(&data).unwrap();
    let decoded = decode_pack_bits(&encoded, data.len()).unwrap();
    assert_eq!(decoded, data);
}

#[test]
fn encode_handles_long_runs_in_chunks() {
    let data = vec![0x7Fu8; 300];
    let encoded = encode_pack_bits(&data).unwrap();
    let decoded = decode_pack_bits(&encoded, data.len()).unwrap();
    assert_eq!(decoded, data);
}

#[test]
fn packbits_encodes_runs_and_literals_exactly() {
    // A run of three becomes (-2, byte); two distinct bytes become a literal of two.
    let encoded = encode_pack_bits(&[9, 9, 9, 1, 2]).unwrap();
    assert_eq!(encoded, vec![0xFE, 9, 1, 1, 2]);
    // 130 equal bytes: a chunk of 128 then a chunk of 2.
    let encoded = encode_pack_bits(&vec![4u8; 130]).unwrap();
    assert_eq!(encoded, vec![0x81, 4, 0xFF, 4]);
}

#[test]
fn packbits_round_trips_many_shapes() {
    let mut data = Vec::new();
    for i in 0..1000u32 {
        data.push(if i % 7 < 3 { 0x55 } else { (i * 31 % 256) as u8 });
    }
    let encoded = encode_pack_bits(&data).unwrap();
    assert_eq!(decode_pack_bits(&encoded, data.len()).unwrap(), data);
    assert!(decode_pack_bits(&encoded, data.len() - 1).is_err());
    assert!(decode_pack_bits(&encoded, data.len() + 1).is_err());
}

// ---- LZW --------------------------------------------------------------

#[test]
fn lzw_encode_then_decode_round_trips() {
    let data: Vec<u8> = b"abcabcabcabcXYZXYZXYZ".to_vec();
    let encoded = encode_lzw(&data).unwrap();
    let decoded = decode_lzw(&encoded, data.len()).unwrap();
    assert_eq!(decoded, data);
}

#[test]
fn encode_then_decode_round_trips_binary() {
    let mut data = vec![0u8; 128];
    for i in 0..64 {
        data[i] = 0xAB;
        data[64 + i] = (i * 7) as u8;
    }
    let encoded = encode_lzw(&data).unwrap();
    let decoded = decode_lzw(&encoded, data.len()).unwrap();
    assert_eq!(decoded, data);
}

#[test]
fn encode_single_byte() {
    let data = vec![0x42u8];
    let encoded = encode_lzw(&data).unwrap();
    let decoded = decode_lzw(&encoded, data.len()).unwrap();
    assert_eq!(decoded, data);
}

#[test]
fn decode_rejects_expected_size_bomb() {
    let data: Vec<u8> = b"hello".to_vec();
    let encoded = encode_lzw(&data).unwrap();
    assert!(decode_lzw(&encoded, 10_000).is_err());
}

#[test]
fn lzw_encoding_of_a_single_byte_is_exact() {
    // Codes 256, 0x42, 257 at nine bits each, MSB first, zero padded:
    // 100000000 001000010 100000001 -> 0x80 0x10 0xA0 0x20.
    assert_eq!(encode_lzw(&[0x42]).unwrap(), vec![0x80, 0x10, 0xA0, 0x20]);
}

#[test]
fn lzw_round_trips_past_a_dictionary_reset() {
    // Enough varied data to fill the 12-bit dictionary and force a clear code.
    let mut data = Vec::new();
    let mut x: u32 = 12345;
    for _ in 0..40_000 {
        x = x.wrapping_mul(1103515245).wrapping_add(12345);
        data.push((x >> 16) as u8);
    }
    let encoded = encode_lzw(&data).unwrap();
    assert_eq!(decode_lzw(&encoded, data.len()).unwrap(), data);
}

#[test]
fn lzw_rejects_undefined_code() {
    // A clear code, then code 300, not yet defined.
    // 100000000 100101100 -> 0x80 0x4B 0x00.
    let err = decode_lzw(&[0x80, 0x4B, 0x00], 4).unwrap_err();
    assert_eq!(err.code(), ErrorCode::InvalidArgument);
}

// ---- Predictor --------------------------------------------------------

#[test]
fn undo_reverses_apply_uint16_little() {
    let original: Vec<u8> = vec![10, 0, 20, 0, 30, 0, 5, 0];
    let mut data = original.clone();
    apply_horizontal_differencing(&mut data, 2, 2, 2, false).unwrap();
    undo_horizontal_differencing(&mut data, 2, 2, 2, false).unwrap();
    assert_eq!(data, original);
}

#[test]
fn apply_wraps_modulo() {
    let mut data = vec![255u8, 0u8];
    apply_horizontal_differencing(&mut data, 2, 1, 1, false).unwrap();
    undo_horizontal_differencing(&mut data, 2, 1, 1, false).unwrap();
    assert_eq!(data, vec![255u8, 0u8]);
}

#[test]
fn rejects_bad_sample_size() {
    let mut data = vec![0u8; 8];
    let err = undo_horizontal_differencing(&mut data, 2, 1, 3, false).unwrap_err();
    assert_eq!(err.code(), ErrorCode::InvalidArgument);
}

#[test]
fn rejects_mismatched_data_length() {
    let mut data = vec![0u8; 7];
    let err = undo_horizontal_differencing(&mut data, 2, 1, 2, false).unwrap_err();
    assert_eq!(err.code(), ErrorCode::InvalidArgument);
}

#[test]
fn apply_stores_exact_differences() {
    let mut data = vec![255u8, 0u8];
    apply_horizontal_differencing(&mut data, 2, 1, 1, false).unwrap();
    assert_eq!(data, vec![255u8, 1u8]);
    let mut wide = vec![0x00, 0x10, 0x00, 0x30];
    apply_horizontal_differencing(&mut wide, 2, 1, 2, true).unwrap();
    assert_eq!(wide, vec![0x00, 0x10, 0x00, 0x20]);
}

// ---- Deflate ----------------------------------------------------------

#[test]
fn round_trip() {
    let input: Vec<u8> = (0..4096).map(|i| (i % 251) as u8).collect();
    let encoded = encode_deflate(&input).unwrap();
    let decoded = decode_deflate(&encoded, input.len()).unwrap();
    assert_eq!(decoded, input);
}

#[test]
fn empty_input_round_trips() {
    let encoded = encode_deflate(&[]).unwrap();
    let decoded = decode_deflate(&encoded, 0).unwrap();
    assert!(decoded.is_empty());
}

#[test]
fn encode_matches_reference_zlib_wrapper() {
    let input = b"hello deflate world".to_vec();
    let encoded = encode_deflate(&input).unwrap();
    let mut decoder = ZlibDecoder::new(&encoded[..]);
    let mut out = Vec::new();
    decoder.read_to_end(&mut out).unwrap();
    assert_eq!(out, input);
    assert_eq!(encoded[0] & 0x0F, 8, "zlib CMF must be deflate method 8");
}

#[test]
fn decode_is_exact_size_bomb_guard() {
    let input = b"compressible compressible compressible".to_vec();
    let encoded = encode_deflate(&input).unwrap();
    assert!(decode_deflate(&encoded, 1000).is_err());
    assert!(decode_deflate(&encoded, input.len() + 1).is_err());
    assert!(decode_deflate(&encoded, input.len()).is_ok());
}

#[test]
fn decode_rejects_truncated_input() {
    let input = b"some data to be truncated during transmission".to_vec();
    let encoded = encode_deflate(&input).unwrap();
    let truncated = &encoded[..encoded.len() / 2];
    let result = decode_deflate(truncated, input.len());
    assert!(result.is_err());
}

#[test]
fn decode_bomb_guard_limits_allocation() {
    let big: Vec<u8> = vec![0u8; 100_000];
    let encoded = encode_deflate(&big).unwrap();
    assert!(encoded.len() < big.len());
    let result = decode_deflate(&encoded, 10);
    assert!(result.is_err(), "bomb guard must reject oversized inflation");
}

#[test]
fn deflate_decode_changes_the_bytes() {
    let input = vec![7u8; 64];
    let encoded = encode_deflate(&input).unwrap();
    assert_ne!(encoded, input);
    let err = decode_deflate(b"not zlib at all", 4).unwrap_err();
    assert_eq!(err.code(), ErrorCode::InvalidArgument);
}

// ---- JPEG -------------------------------------------------------------

fn grayscale(w: u32, h: u32) -> Vec<u8> {
    (0..(w * h) as usize).map(|i| ((i as u32 / w) * 8) as u8).collect()
}

#[test]
fn grayscale_round_trip_is_approximately_lossless() {
    let (w, h) = (32u32, 32u32);
    let px = grayscale(w, h);
    let enc = encode_jpeg(&px, w, h, 1, 90).unwrap();
    let dec = decode_jpeg(&enc, w, h, 1).unwrap();
    assert_eq!(dec.len(), px.len());
    for (a, b) in dec.iter().zip(px.iter()) {
        let d = i32::from(*a) - i32::from(*b);
        assert!(d.abs() <= 30, "lossy offset {d}");
    }
}

#[test]
fn rgb_round_trip_is_approximately_lossless() {
    let (w, h) = (16u32, 16u32);
    let mut px = Vec::new();
    for i in 0..(w * h) {
        let x = i % w;
        let y = i / w;
        px.push(((x * 16) % 256) as u8);
        px.push(((y * 16) % 256) as u8);
        px.push(((((x + y) / 2) * 16) % 256) as u8);
    }
    let enc = encode_jpeg(&px, w, h, 3, 90).unwrap();
    let dec = decode_jpeg(&enc, w, h, 3).unwrap();
    assert_eq!(dec.len(), px.len());
    for (a, b) in dec.iter().zip(px.iter()) {
        let d = i32::from(*a) - i32::from(*b);
        assert!(d.abs() <= 40, "lossy offset {d}");
    }
}

#[test]
fn quality_bounds_are_validated() {
    let (w, h) = (8u32, 8u32);
    let px = grayscale(w, h);
    assert!(encode_jpeg(&px, w, h, 1, 101).is_err());
    assert!(encode_jpeg(&px, w, h, 1, 100).is_ok());
    assert!(encode_jpeg(&px, w, h, 1, 0).is_ok());
}

#[test]
fn samples_per_pixel_must_be_1_or_3() {
    let (w, h) = (8u32, 8u32);
    let px = grayscale(w, h);
    assert!(encode_jpeg(&px, w, h, 2, 80).is_err());
    assert!(decode_jpeg(&[], w, h, 2).is_err());
    assert!(decode_jpeg(&[], w, h, 4).is_err());
}

#[test]
fn encode_validates_pixel_byte_count() {
    let (w, h) = (8u32, 8u32);
    let too_small = grayscale(w, h - 1);
    assert!(encode_jpeg(&too_small, w, h, 1, 80).is_err());
}

#[test]
fn decode_rejects_dimension_mismatch() {
    let (w, h) = (16u32, 16u32);
    let px = grayscale(w, h);
    let enc = encode_jpeg(&px, w, h, 1, 80).unwrap();
    assert!(decode_jpeg(&enc, w + 1, h, 1).is_err());
    assert!(decode_jpeg(&enc, w, h + 1, 1).is_err());
}

#[test]
fn decode_rejects_malformed_input() {
    assert!(decode_jpeg(b"not a jpeg", 4, 4, 1).is_err());
    assert!(decode_jpeg(&[], 4, 4, 1).is_err());
}

#[test]
fn packbits_literal_stops_before_a_run() {
    let data: Vec<u8> = vec![1, 2, 3, 0xAA, 0xAA, 0xAA, 0xAA, 5, 6, 7, 8];
    let encoded = encode_pack_bits(&data).unwrap();
    assert_eq!(encoded, vec![0x02, 1, 2, 3, 0xFD, 0xAA, 0x03, 5, 6, 7, 8]);
}
