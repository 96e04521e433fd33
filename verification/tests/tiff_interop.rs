use ptiff_core::io::backend::tiff::{plan_tiff_write, write_tiff_header, write_tiff_ifd, TiffImageSink};
use ptiff_core::io::{MemoryBinaryWriter, StorageModel};
use ptiff_core::tile::{Tile, TileExtent, TileId, TileIndex, TileRegion};
use tiff::decoder::{Decoder, DecodingResult};

fn strip_model(width: u32, height: u32, compression: &str, predictor: &str) -> StorageModel {
    let mut m = StorageModel::new();
    m.set_field("imageWidth", &width.to_string());
    m.set_field("imageHeight", &height.to_string());
    m.set_field("samplesPerPixel", "1");
    m.set_field("pixelType", "UInt8");
    m.set_field("compression", compression);
    m.set_field("predictor", predictor);
    m
}

/// Decodes a TIFF byte stream with the independent `tiff` crate, returning
/// the raw sample bytes in row-major order.
fn tiff_oracle_decode(file: &[u8]) -> (u32, u32, Vec<u8>) {
    let mut dec = Decoder::new(std::io::Cursor::new(file)).expect("tiff crate opens stream");
    let (w, h) = dec.dimensions().expect("tiff crate reads dimensions");
    let img = dec.read_image().expect("tiff crate decodes image");
    let bytes = match img {
        DecodingResult::U8(v) => v,
        other => panic!("tiff oracle: expected U8 samples, got {other:?}"),
    };
    (w, h, bytes)
}

/// Serializes a single-IFD file (header + IFD + one strip) and returns the
/// bytes.
fn write_file(model: &StorageModel, payload: &[u8]) -> Vec<u8> {
    let plan = plan_tiff_write(model).unwrap();
    let is_big = plan.is_big_tiff;
    let header_size = if is_big { 16u64 } else { 8u64 };
    let mut w = MemoryBinaryWriter::new();
    write_tiff_header(&mut w, header_size, is_big).unwrap();
    write_tiff_ifd(&mut w, plan.entries.clone(), is_big, 0).unwrap();
    let mut sink = TiffImageSink::new(w, plan.directory);
    let tile = Tile::new(TileId::new(0), TileIndex::new(0, 0, 0), TileRegion::new(0, 0, TileExtent::new(16, 16)), payload);
    sink.write_tile(&tile).unwrap();
    sink.into_writer().take_buffer()
}

fn ramp(width: u32, height: u32) -> Vec<u8> {
    (0..(width * height) as usize).map(|i| (i % 251) as u8).collect()
}

#[test]
fn interop_tiff_crate_uncompressed_gray() {
    let (width, height) = (32u32, 16u32);
    let payload = ramp(width, height);
    let file = write_file(&strip_model(width, height, "None", "None"), &payload);
    let (w, h, samples) = tiff_oracle_decode(&file);
    assert_eq!((w, h), (width, height));
    assert_eq!(samples, payload);
}

#[test]
fn interop_tiff_crate_uncompressed_rgb() {
    let (width, height) = (16u32, 8u32);
    let mut model = strip_model(width, height, "None", "None");
    model.set_field("samplesPerPixel", "3");
    let payload: Vec<u8> = (0..(width * height * 3) as usize).map(|i| ((i % 3) * 80 + (i / 3) % 4 * 40) as u8).collect();
    let file = write_file(&model, &payload);
    let (w, h, samples) = tiff_oracle_decode(&file);
    assert_eq!((w, h), (width, height));
    assert_eq!(samples.len(), (width * height * 3) as usize);
    assert_eq!(samples, payload);
}

#[test]
fn interop_tiff_crate_deflate() {
    let (width, height) = (32u32, 16u32);
    let payload = ramp(width, height);
    let file = write_file(&strip_model(width, height, "Deflate", "None"), &payload);
    let (w, h, samples) = tiff_oracle_decode(&file);
    assert_eq!((w, h), (width, height));
    assert_eq!(samples, payload);
}

#[test]
fn interop_tiff_crate_lzw() {
    let (width, height) = (32u32, 16u32);
    let payload = ramp(width, height);
    let file = write_file(&strip_model(width, height, "LZW", "None"), &payload);
    let (w, h, samples) = tiff_oracle_decode(&file);
    assert_eq!((w, h), (width, height));
    assert_eq!(samples, payload);
}

#[test]
fn interop_tiff_crate_bigtiff_gray() {
    let (width, height) = (32u32, 16u32);
    let payload = ramp(width, height);
    let mut model = strip_model(width, height, "None", "None");
    model.set_field("container", "BigTiff");
    let file = write_file(&model, &payload);
    let (w, h, samples) = tiff_oracle_decode(&file);
    assert_eq!((w, h), (width, height));
    assert_eq!(samples, payload);
}

#[test]
fn interop_tiff_crate_packbits() {
    let (width, height) = (32u32, 16u32);
    let payload = ramp(width, height);
    let file = write_file(&strip_model(width, height, "PackBits", "None"), &payload);
    let (w, h, samples) = tiff_oracle_decode(&file);
    assert_eq!((w, h), (width, height));
    assert_eq!(samples, payload);
}

#[test]
fn interop_tiff_crate_jpeg_gray() {
    let (width, height) = (32u32, 32u32);
    let payload: Vec<u8> = (0..(width * height) as usize).map(|i| ((i as u32 % width) * 8) as u8).collect();
    let file = write_file(&strip_model(width, height, "Jpeg", "None"), &payload);
    let (w, h, samples) = tiff_oracle_decode(&file);
    assert_eq!((w, h), (width, height));
    assert_eq!(samples.len(), payload.len());
    for (a, b) in samples.iter().zip(payload.iter()) {
        let diff = i32::from(*a) - i32::from(*b);
        assert!(diff.abs() <= 40, "tiff-oracle JPEG sample off by {diff}");
    }
}
