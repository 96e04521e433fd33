use ptiff_core::io::backend::zarr::codec::{compress, decompress};
use ptiff_core::io::backend::zarr::document::MAX_HEADER_BYTES;
use ptiff_core::io::backend::zarr::{
    build_layout, parse_compressor, parse_header, payload_bound, read_document, Compressor,
};
use ptiff_core::io::{MemoryBinaryReader, StorageModel};
use ptiff_core::tile::TileExtent;
use ptiff_core::ErrorCode;

fn image_model(compression: &str) -> StorageModel {
    let mut m = StorageModel::new();
    m.set_field("imageWidth", "32");
    m.set_field("imageHeight", "32");
    m.set_field("tileWidth", "16");
    m.set_field("tileHeight", "16");
    m.set_field("samplesPerPixel", "1");
    m.set_field("pixelType", "UInt8");
    m.set_field("compression", compression);
    m
}

#[test]
fn parse_compressor_accepts_storage_and_json_spellings() {
    assert!(matches!(parse_compressor("None"), Ok(Compressor::NoCompression)));
    assert!(matches!(parse_compressor("none"), Ok(Compressor::NoCompression)));
    assert!(matches!(parse_compressor("zstd"), Ok(Compressor::Zstd)));
    assert!(matches!(parse_compressor("zlib"), Ok(Compressor::Zlib)));
}

#[test]
fn parse_compressor_rejects_unknown() {
    let err = parse_compressor("lz4").unwrap_err();
    assert_eq!(err.code(), ErrorCode::InvalidArgument);
}

#[test]
fn build_layout_derives_geometry_and_header() {
    let model = image_model("zstd");
    let layout = build_layout(&model).expect("build_layout");
    assert_eq!(layout.layout.image_width, 32);
    assert_eq!(layout.layout.image_height, 32);
    assert_eq!(layout.layout.tile_size, TileExtent::new(16, 16));
    assert_eq!(layout.compressor, Compressor::Zstd);
    assert_eq!(layout.chunk_bytes, 16 * 16);
    assert!(layout.slot_size >= 4 + layout.chunk_bytes);
    assert!(!layout.header.is_empty());
}

#[test]
fn build_layout_writes_the_expected_json() {
    let layout = build_layout(&image_model("None")).expect("build_layout");
    assert_eq!(
        String::from_utf8(layout.header).unwrap(),
        r#"{"chunks":[16,16],"compressor":"none","dtype":"|u1","shape":[32,32]}"#
    );
    assert_eq!(layout.slot_size, 4 + 256);
}

#[test]
fn build_layout_missing_field_is_invalid_argument() {
    let mut m = StorageModel::new();
    m.set_field("imageWidth", "32");
    let err = build_layout(&m).unwrap_err();
    assert_eq!(err.code(), ErrorCode::InvalidArgument);
    assert_eq!(err.message(), "zarr: missing geometry/frame fields");
}

#[test]
fn build_layout_unsupported_pixel_type_is_invalid_argument() {
    let mut m = image_model("None");
    m.set_field("pixelType", "Int8");
    let err = build_layout(&m).unwrap_err();
    assert_eq!(err.code(), ErrorCode::InvalidArgument);
    assert_eq!(err.message(), "zarr: unsupported pixelType");
}

#[test]
fn build_layout_unsupported_compression_is_invalid_argument() {
    let m = image_model("brotli");
    let err = build_layout(&m).unwrap_err();
    assert_eq!(err.code(), ErrorCode::InvalidArgument);
}

#[test]
fn parse_header_round_trips_build_layout() {
    let model = image_model("zlib");
    let built = build_layout(&model).expect("build_layout");
    let parsed = parse_header(&built.header).expect("parse_header");
    assert_eq!(parsed.image.field("imageWidth").unwrap(), "32");
    assert_eq!(parsed.image.field("tileWidth").unwrap(), "16");
    assert_eq!(parsed.image.field("pixelType").unwrap(), "UInt8");
    assert_eq!(parsed.image.field("compression").unwrap(), "zlib");
    assert_eq!(parsed.compressor, Compressor::Zlib);
    assert_eq!(parsed.chunk_bytes, built.chunk_bytes);
    assert_eq!(parsed.slot_size, built.slot_size);
}

#[test]
fn parse_header_round_trips_a_multi_band_float_layout() {
    let mut model = image_model("zstd");
    model.set_field("samplesPerPixel", "3");
    model.set_field("pixelType", "Float32");
    let built = build_layout(&model).expect("build_layout");
    let parsed = parse_header(&built.header).expect("parse_header");
    assert_eq!(parsed.image.field("samplesPerPixel").unwrap(), "3");
    assert_eq!(parsed.image.field("pixelType").unwrap(), "Float32");
    assert_eq!(parsed.chunk_bytes, 16 * 16 * 3 * 4);
    assert_eq!(parsed.chunk_bytes, built.chunk_bytes);
}

#[test]
fn parse_header_rejects_malformed_json() {
    let err = parse_header(b"not json").unwrap_err();
    assert_eq!(err.code(), ErrorCode::InvalidArgument);
}

#[test]
fn parse_header_rejects_missing_keys() {
    let err = parse_header(br#"{"dtype":"|u1"}"#).unwrap_err();
    assert_eq!(err.code(), ErrorCode::InvalidArgument);
    assert_eq!(err.message(), "zarr: header missing shape/chunks/dtype");
}

#[test]
fn parse_header_rejects_unsupported_rank() {
    let err = parse_header(br#"{"shape":[1],"chunks":[1],"dtype":"|u1"}"#).unwrap_err();
    assert_eq!(err.code(), ErrorCode::InvalidArgument);
    assert_eq!(err.message(), "zarr: unsupported shape rank");
}

#[test]
fn parse_header_rejects_unrecognized_dtype() {
    let err = parse_header(br#"{"shape":[2,2],"chunks":[2,2],"dtype":"<i8"}"#).unwrap_err();
    assert_eq!(err.code(), ErrorCode::InvalidArgument);
    assert_eq!(err.message(), "zarr: unrecognized dtype");
}

#[test]
fn parse_header_names_the_malformed_array() {
    let err = parse_header(br#"{"shape":[2,"x"],"chunks":[2,2],"dtype":"|u1"}"#).unwrap_err();
    assert_eq!(err.message(), "zarr: malformed shape");
    let err = parse_header(br#"{"shape":[2,2],"chunks":[2],"dtype":"|u1"}"#).unwrap_err();
    assert_eq!(err.message(), "zarr: malformed chunks");
}

#[test]
fn read_document_round_trips_written_header() {
    let model = image_model("None");
    let built = build_layout(&model).expect("build_layout");
    let mut bytes = (built.header.len() as u64).to_le_bytes().to_vec();
    bytes.extend_from_slice(&built.header);
    let mut reader = MemoryBinaryReader::from_vec(bytes);
    let doc = read_document(&mut reader).expect("read_document");
    assert_eq!(doc.image.field("imageWidth").unwrap(), "32");
    assert_eq!(doc.header, built.header);
}

#[test]
fn read_document_truncated_seek_header_is_invalid_argument() {
    let mut reader = MemoryBinaryReader::from_vec(vec![1, 2, 3]);
    let err = read_document(&mut reader).unwrap_err();
    assert_eq!(err.code(), ErrorCode::InvalidArgument);
    assert_eq!(err.message(), "zarr: truncated seek header");
}

#[test]
fn read_document_zero_header_length_is_invalid_argument() {
    let bytes = 0u64.to_le_bytes().to_vec();
    let mut reader = MemoryBinaryReader::from_vec(bytes);
    let err = read_document(&mut reader).unwrap_err();
    assert_eq!(err.code(), ErrorCode::InvalidArgument);
    assert_eq!(err.message(), "zarr: implausible header length");
}

#[test]
fn read_document_implausible_header_length_is_invalid_argument() {
    let bytes = (MAX_HEADER_BYTES + 1).to_le_bytes().to_vec();
    let mut reader = MemoryBinaryReader::from_vec(bytes);
    let err = read_document(&mut reader).unwrap_err();
    assert_eq!(err.code(), ErrorCode::InvalidArgument);
    assert_eq!(err.message(), "zarr: implausible header length");
}

#[test]
fn read_document_truncated_header_is_invalid_argument() {
    let mut bytes = 100u64.to_le_bytes().to_vec();
    bytes.extend_from_slice(b"{\"shape\":");
    let mut reader = MemoryBinaryReader::from_vec(bytes);
    let err = read_document(&mut reader).unwrap_err();
    assert_eq!(err.code(), ErrorCode::InvalidArgument);
    assert_eq!(err.message(), "zarr: truncated header");
}

// ---- chunk codecs -----------------------------------------------------

const SAMPLE: &[u8] = b"the quick brown fox jumps over the lazy dog. the quick brown fox";

#[test]
fn none_is_a_pass_through() {
    assert_eq!(payload_bound(Compressor::NoCompression, SAMPLE.len()), SAMPLE.len());
    assert_eq!(compress(Compressor::NoCompression, SAMPLE).unwrap(), SAMPLE);
    assert_eq!(decompress(Compressor::NoCompression, SAMPLE, SAMPLE.len()).unwrap(), SAMPLE);
}

#[test]
fn compressed_chunks_round_trip() {
    for compressor in [Compressor::Zstd, Compressor::Zlib] {
        let compressed = compress(compressor, SAMPLE).unwrap();
        assert!(compressed.len() <= payload_bound(compressor, SAMPLE.len()));
        let decompressed = decompress(compressor, &compressed, SAMPLE.len()).unwrap();
        assert_eq!(decompressed, SAMPLE);
    }
}

#[test]
fn payload_bound_is_strict() {
    for compressor in [Compressor::Zstd, Compressor::Zlib] {
        let compressed = compress(compressor, SAMPLE).unwrap();
        assert!(payload_bound(compressor, SAMPLE.len()) >= 4 + compressed.len());
    }
}

#[test]
fn zlib_is_real_rfc1950_stream() {
    let compressed = compress(Compressor::Zlib, SAMPLE).unwrap();
    assert_eq!(compressed[0], 0x78);
}

#[test]
fn payload_bounds_follow_the_formulas() {
    assert_eq!(payload_bound(Compressor::Zstd, 1000), 1000 + 7 + 131);
    assert_eq!(payload_bound(Compressor::Zlib, 100_000), 100_000 + 24 + 6 + 13);
    let err = decompress(Compressor::NoCompression, SAMPLE, 3).unwrap_err();
    assert_eq!(err.code(), ErrorCode::InvalidArgument);
}
