use ptiff_core::io::backend::memory_image_sink::MemoryImageSink;
use ptiff_core::io::backend::memory_image_source::MemoryImageSource;
use ptiff_core::io::backend::memory_layout::{image_info_from_model, image_pixel_offset, MemoryImageInfo};
use ptiff_core::io::{BinaryWriter, MemoryBinaryReader, MemoryBinaryWriter, StorageModel};
use ptiff_core::tile::{Tile, TileExtent, TileId, TileIndex, TileRegion};
use ptiff_core::{ErrorCode, PixelType};

fn tiled_model() -> StorageModel {
    let mut m = StorageModel::new();
    m.set_field("imageWidth", "64");
    m.set_field("imageHeight", "32");
    m.set_field("tileWidth", "16");
    m.set_field("tileHeight", "16");
    m.set_field("samplesPerPixel", "1");
    m.set_field("pixelType", "UInt8");
    m
}

fn info() -> MemoryImageInfo {
    image_info_from_model(&tiled_model()).unwrap()
}

fn tile(index: TileIndex, bytes: &[u8]) -> Tile<'_> {
    Tile::new(TileId::new(0), index, TileRegion::new(0, 0, TileExtent::new(16, 16)), bytes)
}

// ---- layout ------------------------------------------------------------

#[test]
fn derives_layout_and_geometry() {
    let info = image_info_from_model(&tiled_model()).expect("valid");
    assert_eq!(info.layout.image_width, 64);
    assert_eq!(info.layout.image_height, 32);
    assert_eq!(info.layout.tile_size, TileExtent::new(16, 16));
    assert_eq!(info.samples_per_pixel, 1);
    assert_eq!(info.pixel_type, PixelType::UInt8);
    assert_eq!(info.tile_bytes, 256);
    assert_eq!(info.image_pixel_bytes, 2048);
}

#[test]
fn memory_layout_missing_field_is_invalid_argument() {
    let mut clean = StorageModel::new();
    clean.set_field("imageWidth", "64");
    clean.set_field("imageHeight", "32");
    let err = image_info_from_model(&clean).unwrap_err();
    assert_eq!(err.code(), ErrorCode::InvalidArgument);
    assert_eq!(err.message(), "memory: missing required field \"tileWidth\"");
}

#[test]
fn non_tiled_is_rejected() {
    let mut m = tiled_model();
    m.set_field("tileWidth", "0");
    let err = image_info_from_model(&m).unwrap_err();
    assert_eq!(err.code(), ErrorCode::InvalidArgument);
    assert_eq!(err.message(), "memory: non-tiled images are not supported");
}

#[test]
fn compressed_is_rejected() {
    let mut m = tiled_model();
    m.set_field("compression", "LZW");
    let err = image_info_from_model(&m).unwrap_err();
    assert_eq!(err.message(), "memory: only uncompressed (compression==None) images are supported");
}

#[test]
fn samples_and_bytes_per_sample_scale_tile_bytes() {
    let mut m = tiled_model();
    m.set_field("samplesPerPixel", "3");
    m.set_field("pixelType", "UInt16");
    let info = image_info_from_model(&m).expect("valid");
    assert_eq!(info.tile_bytes, 1536);
    assert_eq!(info.image_pixel_bytes, 4 * 2 * 1536);
}

#[test]
fn pixel_offset_skips_prior_images() {
    let a = tiled_model();
    let mut b = tiled_model();
    b.set_field("imageWidth", "128");
    let infos = vec![image_info_from_model(&a).unwrap(), image_info_from_model(&b).unwrap()];
    assert_eq!(image_pixel_offset(&infos, 0, 12), 12);
    assert_eq!(image_pixel_offset(&infos, 1, 12), 12 + infos[0].image_pixel_bytes);
}

// ---- sink ----------------------------------------------------------------

#[test]
fn writes_tile_at_layout_offset() {
    let info = info();
    let mut writer = MemoryBinaryWriter::new();
    let total = 12u64 + info.image_pixel_bytes;
    let zeros = vec![0u8; total as usize];
    writer.seek(0).unwrap();
    writer.write(&zeros).unwrap();

    let mut sink = MemoryImageSink::new(writer, info, 12);
    let mut payload = vec![0u8; 256];
    payload[0] = 0x11;
    payload[255] = 0xFF;
    sink.write_tile(&tile(TileIndex::new(2, 0, 0), &payload)).expect("write");

    let buf = sink.into_writer().take_buffer();
    assert_eq!(buf[12 + 2 * 256], 0x11);
    assert_eq!(buf[12 + 2 * 256 + 255], 0xFF);
}

#[test]
fn memory_image_sink_mismatched_tile_bytes_is_invalid_argument() {
    let mut sink = MemoryImageSink::new(MemoryBinaryWriter::new(), info(), 12);
    let small = vec![0u8; 10];
    let err = sink.write_tile(&tile(TileIndex::new(0, 0, 0), &small)).unwrap_err();
    assert_eq!(err.code(), ErrorCode::InvalidArgument);
    assert_eq!(err.message(), "MemoryImageSink::writeTile: tile byte count does not match the layout");
}

#[test]
fn memory_image_sink_out_of_range_tile_is_rejected() {
    let mut sink = MemoryImageSink::new(MemoryBinaryWriter::new(), info(), 12);
    let payload = vec![0u8; 256];
    let err = sink.write_tile(&tile(TileIndex::new(99, 0, 0), &payload)).unwrap_err();
    assert_eq!(err.code(), ErrorCode::OutOfRange);
}

// ---- source --------------------------------------------------------------

#[test]
fn reads_tile_zero_offset() {
    let info = info();
    let mut bytes = vec![0u8; 12 + info.image_pixel_bytes as usize];
    for (i, b) in bytes[12..12 + 256].iter_mut().enumerate() {
        *b = (i % 251) as u8;
    }
    let mut source = MemoryImageSource::new(MemoryBinaryReader::from_vec(bytes), info, 12);
    let tile = source.read_tile(TileIndex::new(0, 0, 0)).expect("read tile");
    assert_eq!(tile.region().extent.width, 16);
    assert_eq!(tile.data().len(), 256);
    assert_eq!(tile.data()[0], 0);
    assert_eq!(tile.data()[255], 255 % 251);
}

#[test]
fn reads_tile_at_linear_offset() {
    let info = info();
    let start = 12usize;
    let mut bytes = vec![0u8; start + info.image_pixel_bytes as usize];
    let tile_off = start + 256;
    bytes[tile_off] = 0xAB;
    bytes[tile_off + 1] = 0xCD;
    let mut source = MemoryImageSource::new(MemoryBinaryReader::from_vec(bytes), info, start as u64);
    let tile = source.read_tile(TileIndex::new(1, 0, 0)).expect("tile 1,0");
    assert_eq!(tile.data()[0], 0xAB);
    assert_eq!(tile.data()[1], 0xCD);
    assert_eq!(tile.id().value(), 1);
}

#[test]
fn memory_image_source_out_of_range_tile_is_rejected() {
    let mut source = MemoryImageSource::new(MemoryBinaryReader::from_vec(vec![0u8; 4096]), info(), 12);
    let err = source.read_tile(TileIndex::new(99, 0, 0)).unwrap_err();
    assert_eq!(err.code(), ErrorCode::OutOfRange);
}

#[test]
fn truncated_data_is_invalid_argument() {
    let mut source = MemoryImageSource::new(MemoryBinaryReader::from_vec(vec![0u8; 12 + 128]), info(), 12);
    let err = source.read_tile(TileIndex::new(0, 0, 0)).unwrap_err();
    assert_eq!(err.code(), ErrorCode::InvalidArgument);
    assert_eq!(err.message(), "MemoryImageSource::readTile: tile byte range exceeds reader size");
}

#[test]
fn sink_then_source_round_trips_every_tile() {
    let info = info();
    let total = 7u64 + info.image_pixel_bytes;
    let mut writer = MemoryBinaryWriter::new();
    writer.write(&vec![0u8; total as usize]).unwrap();
    let mut sink = MemoryImageSink::new(writer, info.clone(), 7);
    for row in 0..2u32 {
        for col in 0..4u32 {
            let payload = vec![(row * 4 + col) as u8 + 1; 256];
            sink.write_tile(&tile(TileIndex::new(col, row, 0), &payload)).unwrap();
        }
    }
    let bytes = sink.into_writer().take_buffer();
    let mut source = MemoryImageSource::new(MemoryBinaryReader::from_vec(bytes), info, 7);
    for row in 0..2u32 {
        for col in 0..4u32 {
            let t = source.read_tile(TileIndex::new(col, row, 0)).unwrap();
            assert!(t.data().iter().all(|b| *b == (row * 4 + col) as u8 + 1));
        }
    }
}
