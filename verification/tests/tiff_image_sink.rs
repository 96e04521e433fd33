use ptiff_core::io::backend::tiff::{
    bytes_per_sample, interpret_tiff_ifd, plan_tiff_write, read_tiff_header, read_tiff_ifd, write_tiff_header,
    write_tiff_ifd, Endian, TagId, TiffImageSink, TiffImageSource,
};
use ptiff_core::io::{MemoryBinaryReader, MemoryBinaryWriter, StorageModel};
use ptiff_core::ErrorCode;
use ptiff_core::tile::{Tile, TileExtent, TileId, TileIndex, TileRegion};

fn strip_model(width: u32, height: u32, compression: &str, predictor: &str) -> StorageModel {
    let mut m = StorageModel::new();
    m.set_field("imageWidth", &width.to_string());
    m.set_field("imageHeight", &height.to_string());
    m.set_field("samplesPerPixel", "1");
    m.set_field("pixelType", "UInt8");
    m.set_field("compression", compression);
    m.set_field("predictor", predictor);
    m
}

fn tile(index: TileIndex, bytes: &[u8]) -> Tile<'_> {
    Tile::new(
        TileId::new(u64::from(index.row) * 4 + u64::from(index.column)),
        index,
        TileRegion::new(0, 0, TileExtent::new(16, 16)),
        bytes,
    )
}

/// Serializes a single-IFD file (header + IFD + pixel data) and returns the
/// bytes.
fn write_file(model: &StorageModel, payload: &[u8]) -> Vec<u8> {
    let plan = plan_tiff_write(model).unwrap();
    let is_big = plan.is_big_tiff;
    let header_size = if is_big { 16u64 } else { 8u64 };
    let mut w = MemoryBinaryWriter::new();
    write_tiff_header(&mut w, header_size, is_big).unwrap();
    write_tiff_ifd(&mut w, plan.entries.clone(), is_big, 0).unwrap();
    let mut sink = TiffImageSink::new(w, plan.directory);
    sink.write_tile(&tile(TileIndex::new(0, 0, 0), payload)).unwrap();
    sink.into_writer().take_buffer()
}

fn read_pixel(file: &[u8]) -> Vec<u8> {
    let mut r = MemoryBinaryReader::from_slice(file);
    let header = read_tiff_header(&mut r).unwrap();
    let ifd = read_tiff_ifd(&mut r, header.first_ifd_offset, Endian::Little, header.is_big_tiff).unwrap();
    let directory = interpret_tiff_ifd(&ifd).unwrap();
    let mut source = TiffImageSource::new(r, directory);
    let tile = source.read_tile(TileIndex::new(0, 0, 0)).unwrap();
    tile.data().to_vec()
}

fn tiled_model(width: u32, height: u32, compression: &str, predictor: &str) -> StorageModel {
    let mut m = StorageModel::new();
    m.set_field("imageWidth", &width.to_string());
    m.set_field("imageHeight", &height.to_string());
    m.set_field("samplesPerPixel", "1");
    m.set_field("pixelType", "UInt8");
    m.set_field("tileWidth", "16");
    m.set_field("tileHeight", "16");
    m.set_field("compression", compression);
    m.set_field("predictor", predictor);
    m
}

/// Serializes a tiled single-IFD file, writing each 16x16 tile in row-major
/// order through the sink.
fn write_tiled_file(model: &StorageModel, payload: &[u8]) -> Vec<u8> {
    let plan = plan_tiff_write(model).unwrap();
    let is_big = plan.is_big_tiff;
    let header_size = if is_big { 16u64 } else { 8u64 };
    let mut w = MemoryBinaryWriter::new();
    write_tiff_header(&mut w, header_size, is_big).unwrap();
    write_tiff_ifd(&mut w, plan.entries.clone(), is_big, 0).unwrap();

    let layout = plan.directory.layout;
    let cols = layout.columns(0);
    let rows = layout.rows(0);
    let tile_bytes = (layout.tile_size.width as u64
        * layout.tile_size.height as u64
        * plan.directory.samples_per_pixel as u64
        * u64::from(bytes_per_sample(plan.directory.pixel_type))) as usize;
    let mut sink = TiffImageSink::new(w, plan.directory);
    for row in 0..rows {
        for col in 0..cols {
            let linear = (row * cols + col) as usize;
            let start = linear * tile_bytes;
            let end = start + tile_bytes;
            let tile = Tile::new(
                TileId::new(linear as u64),
                TileIndex::new(col, row, 0),
                TileRegion::new(0, 0, TileExtent::new(16, 16)),
                &payload[start..end],
            );
            sink.write_tile(&tile).unwrap();
        }
    }
    sink.into_writer().take_buffer()
}

/// Reads every tile through the image source, concatenated row-major.
fn read_tile_grid(file: &[u8], level: u32) -> Vec<u8> {
    let mut r = MemoryBinaryReader::from_slice(file);
    let header = read_tiff_header(&mut r).unwrap();
    let ifd = read_tiff_ifd(&mut r, header.first_ifd_offset, Endian::Little, header.is_big_tiff).unwrap();
    let directory = interpret_tiff_ifd(&ifd).unwrap();
    let mut source = TiffImageSource::new(r, directory);
    let layout = source.layout();
    let cols = layout.columns(level);
    let rows = layout.rows(level);
    let mut out = Vec::new();
    for row in 0..rows {
        for col in 0..cols {
            let t = source.read_tile(TileIndex::new(col, row, level)).unwrap();
            out.extend_from_slice(t.data());
        }
    }
    out
}

#[test]
fn e2e_uncompressed_round_trip() {
    let width = 16u32;
    let height = 16u32;
    let payload: Vec<u8> = (0..(width * height) as usize).map(|i| (i % 251) as u8).collect();
    let model = strip_model(width, height, "None", "None");
    let file = write_file(&model, &payload);
    let decoded = read_pixel(&file);
    assert_eq!(decoded, payload);
}

#[test]
fn e2e_six_band_multispectral_round_trip() {
    let width = 4u32;
    let height = 4u32;
    let samples_per_pixel = 6u32;
    let mut model = strip_model(width, height, "None", "None");
    model.set_field("samplesPerPixel", &samples_per_pixel.to_string());
    let payload: Vec<u8> = (0..(width * height * samples_per_pixel) as usize).map(|i| (i % 251) as u8).collect();

    let file = write_file(&model, &payload);
    let decoded = read_pixel(&file);
    assert_eq!(decoded, payload);

    let mut r = MemoryBinaryReader::from_slice(&file);
    let header = read_tiff_header(&mut r).unwrap();
    let ifd = read_tiff_ifd(&mut r, header.first_ifd_offset, Endian::Little, header.is_big_tiff).unwrap();
    let directory = interpret_tiff_ifd(&ifd).unwrap();
    assert_eq!(directory.samples_per_pixel, samples_per_pixel);
    let extra = ifd.tag(TagId::ExtraSamples.as_u16()).unwrap().to_vec();
    assert_eq!(extra, vec![0u64; 5]);
}

#[test]
fn e2e_lzw_with_predictor_round_trip() {
    let width = 16u32;
    let height = 16u32;
    let payload: Vec<u8> = (0..(width * height) as usize).map(|i| (((i as u32) / width) % 32) as u8).collect();
    let model = strip_model(width, height, "LZW", "HorizontalDifferencing");
    let file = write_file(&model, &payload);
    let decoded = read_pixel(&file);
    assert_eq!(decoded, payload);
}

#[test]
fn e2e_packbits_round_trip() {
    let width = 16u32;
    let height = 16u32;
    let payload = vec![0xAAu8; (width * height) as usize];
    let model = strip_model(width, height, "PackBits", "None");
    let file = write_file(&model, &payload);
    let decoded = read_pixel(&file);
    assert_eq!(decoded, payload);
}

#[test]
fn e2e_deflate_round_trip() {
    let width = 16u32;
    let height = 16u32;
    let payload: Vec<u8> = (0..(width * height) as usize).map(|i| (i % 251) as u8).collect();
    let model = strip_model(width, height, "Deflate", "None");
    let file = write_file(&model, &payload);
    let decoded = read_pixel(&file);
    assert_eq!(decoded, payload);
}

#[test]
fn e2e_jpeg_round_trip() {
    let width = 16u32;
    let height = 16u32;
    let payload: Vec<u8> = (0..(width * height) as usize).map(|i| ((i as u32 % width) * 16) as u8).collect();
    let model = strip_model(width, height, "Jpeg", "None");
    let file = write_file(&model, &payload);
    let decoded = read_pixel(&file);
    assert_eq!(decoded.len(), payload.len());
    for (a, b) in decoded.iter().zip(payload.iter()) {
        let diff = i32::from(*a) - i32::from(*b);
        assert!(diff.abs() <= 30, "JPEG lossy sample off by {diff}");
    }
}

#[test]
fn e2e_tiled_lzw_with_predictor_round_trip() {
    let width = 32u32;
    let height = 48u32;
    let payload: Vec<u8> = (0..(width * height) as usize).map(|i| (((i as u32) / width) % 17) as u8).collect();
    let model = tiled_model(width, height, "LZW", "HorizontalDifferencing");
    let file = write_tiled_file(&model, &payload);
    let decoded = read_tile_grid(&file, 0);
    assert_eq!(decoded, payload);
}

#[test]
fn e2e_tiled_deflate_round_trip() {
    let width = 48u32;
    let height = 32u32;
    let payload: Vec<u8> = (0..(width * height) as usize).map(|i| (i % 251) as u8).collect();
    let model = tiled_model(width, height, "Deflate", "None");
    let file = write_tiled_file(&model, &payload);
    let decoded = read_tile_grid(&file, 0);
    assert_eq!(decoded, payload);
}

#[test]
fn e2e_tiled_packbits_round_trip() {
    let width = 32u32;
    let height = 32u32;
    let payload: Vec<u8> = (0..(width * height) as usize).map(|i| if (i % 64) < 32 { 0xAA } else { 0x55 }).collect();
    let model = tiled_model(width, height, "PackBits", "None");
    let file = write_tiled_file(&model, &payload);
    let decoded = read_tile_grid(&file, 0);
    assert_eq!(decoded, payload);
}

#[test]
fn e2e_tiled_jpeg_tolerance_round_trip() {
    let width = 32u32;
    let height = 48u32;
    let payload: Vec<u8> = (0..(width * height) as usize).map(|i| ((i as u32 % width) * 8) as u8).collect();
    let model = tiled_model(width, height, "Jpeg", "None");
    let file = write_tiled_file(&model, &payload);
    let decoded = read_tile_grid(&file, 0);
    assert_eq!(decoded.len(), payload.len());
    for (a, b) in decoded.iter().zip(payload.iter()) {
        let diff = i32::from(*a) - i32::from(*b);
        assert!(diff.abs() <= 40, "tiled JPEG sample off by {diff}");
    }
}

#[test]
fn tiled_compressed_rejects_out_of_order_tiles() {
    let width = 32u32;
    let height = 32u32;
    let plan = plan_tiff_write(&tiled_model(width, height, "LZW", "None")).unwrap();
    let mut w = MemoryBinaryWriter::new();
    write_tiff_header(&mut w, 8, false).unwrap();
    write_tiff_ifd(&mut w, plan.entries.clone(), false, 0).unwrap();
    let mut sink = TiffImageSink::new(w, plan.directory);
    let bytes = vec![0u8; 16 * 16];
    let tile = tile(TileIndex::new(1, 0, 0), &bytes);
    assert!(sink.write_tile(&tile).is_err());
}

#[test]
fn uncompressed_strip_lands_at_its_planned_offset() {
    let model = strip_model(4, 2, "None", "None");
    let payload: Vec<u8> = (1..=8).collect();
    let file = write_file(&model, &payload);
    let plan = plan_tiff_write(&model).unwrap();
    let offset = plan.directory.tile_byte_ranges[0].offset as usize;
    assert_eq!(&file[offset..offset + 8], &payload[..]);
    assert_eq!(file.len(), offset + 8);
}

#[test]
fn mismatched_tile_size_is_invalid_argument() {
    let plan = plan_tiff_write(&strip_model(4, 4, "None", "None")).unwrap();
    let mut sink = TiffImageSink::new(MemoryBinaryWriter::new(), plan.directory);
    let bytes = vec![0u8; 15];
    let err = sink.write_tile(&tile(TileIndex::new(0, 0, 0), &bytes)).unwrap_err();
    assert_eq!(err.code(), ptiff_core::ErrorCode::InvalidArgument);
    let outside = sink.write_tile(&tile(TileIndex::new(0, 1, 0), &bytes)).unwrap_err();
    assert_eq!(outside.code(), ptiff_core::ErrorCode::OutOfRange);
}

#[test]
fn read_all_tiles_gives_every_tile_in_row_major_order() {
    let width = 32u32;
    let height = 32u32;
    let payload: Vec<u8> = (0..(width * height) as usize).map(|i| (i % 251) as u8).collect();
    let model = tiled_model(width, height, "LZW", "None");
    let file = write_tiled_file(&model, &payload);
    let mut r = MemoryBinaryReader::from_slice(&file);
    let header = read_tiff_header(&mut r).unwrap();
    let ifd = read_tiff_ifd(&mut r, header.first_ifd_offset, Endian::Little, header.is_big_tiff).unwrap();
    let directory = interpret_tiff_ifd(&ifd).unwrap();
    let mut source = TiffImageSource::new(r, directory);
    let tiles = source.read_all_tiles().unwrap();
    assert_eq!(tiles.len(), 4);
    let concatenated: Vec<u8> = tiles.concat();
    assert_eq!(concatenated, read_tile_grid(&file, 0));
}

#[test]
fn read_all_tiles_rejects_a_truncated_file() {
    let width = 32u32;
    let height = 32u32;
    let payload: Vec<u8> = vec![7u8; (width * height) as usize];
    let model = tiled_model(width, height, "PackBits", "None");
    let file = write_tiled_file(&model, &payload);
    let mut r = MemoryBinaryReader::from_slice(&file);
    let header = read_tiff_header(&mut r).unwrap();
    let ifd = read_tiff_ifd(&mut r, header.first_ifd_offset, Endian::Little, header.is_big_tiff).unwrap();
    let directory = interpret_tiff_ifd(&ifd).unwrap();
    let truncated = &file[..file.len() - 1];
    let mut source = TiffImageSource::new(MemoryBinaryReader::from_slice(truncated), directory);
    let err = source.read_all_tiles().unwrap_err();
    assert_eq!(err.code(), ErrorCode::InvalidArgument);
}

#[test]
fn packed_tiles_out_of_row_major_order_are_refused() {
    let model = tiled_model(32, 32, "LZW", "None");
    let plan = plan_tiff_write(&model).unwrap();
    let mut w = MemoryBinaryWriter::new();
    write_tiff_header(&mut w, 8, plan.is_big_tiff).unwrap();
    write_tiff_ifd(&mut w, plan.entries.clone(), plan.is_big_tiff, 0).unwrap();
    let mut sink = TiffImageSink::new(w, plan.directory);
    let bytes = vec![1u8; 256];
    let second = Tile::new(
        TileId::new(1),
        TileIndex::new(1, 0, 0),
        TileRegion::new(16, 0, TileExtent::new(16, 16)),
        &bytes,
    );
    let err = sink.write_tile(&second).unwrap_err();
    assert_eq!(err.code(), ErrorCode::InvalidArgument);
}
