use ptiff_core::io::backend::zarr::document::HEADER_SIZE;
use ptiff_core::io::backend::zarr::{build_layout, Compressor, ZarrBackend, ZarrImageSink, ZarrImageSource, ZarrLayout};
use ptiff_core::io::{BinaryWriter, MemoryBinaryReader, MemoryBinaryWriter, StorageBackend, StorageModel};
use ptiff_core::tile::{Tile, TileExtent, TileId, TileIndex, TileLayout, TileRegion};
use ptiff_core::ErrorCode;

fn image_model(compression: &str) -> StorageModel {
    let mut m = StorageModel::new();
    m.set_field("imageWidth", "32");
    m.set_field("imageHeight", "32");
    m.set_field("tileWidth", "16");
    m.set_field("tileHeight", "16");
    m.set_field("samplesPerPixel", "1");
    m.set_field("pixelType", "UInt8");
    m.set_field("compression", compression);
    m
}

/// Writes a grid of pattern tiles: each tile repeats its row-major index.
fn write_pattern<W: BinaryWriter>(sink: &mut ZarrImageSink<W>) {
    let layout: TileLayout = sink.layout();
    let tile_bytes = (layout.tile_size.width * layout.tile_size.height) as usize;
    for level in 0..layout.level_count {
        for row in 0..layout.rows(level) {
            for column in 0..layout.columns(level) {
                let index = TileIndex::new(column, row, level);
                let linear = u64::from(row) * u64::from(layout.columns(level)) + u64::from(column);
                let payload = vec![(linear % 256) as u8; tile_bytes];
                let region = layout.region_for(index).unwrap();
                let tile = Tile::new(TileId::new(linear), index, region, &payload);
                sink.write_tile(&tile).unwrap();
            }
        }
    }
}

fn read_all<R: ptiff_core::io::BinaryReader>(source: &mut ZarrImageSource<R>) -> Vec<u8> {
    let layout: TileLayout = source.layout();
    let mut out = Vec::new();
    for level in 0..layout.level_count {
        for row in 0..layout.rows(level) {
            for column in 0..layout.columns(level) {
                let tile = source.read_tile(TileIndex::new(column, row, level)).expect("read_tile");
                out.extend_from_slice(tile.data());
            }
        }
    }
    out
}

#[test]
fn mod_name_and_capabilities() {
    let backend = ZarrBackend;
    assert_eq!(backend.name(), "zarr");
    let caps = backend.capabilities();
    assert!(caps.supports_tiling);
    assert!(caps.supports_streaming);
    assert!(!caps.supports_random_access);
    assert!(!caps.supports_cloud_streaming);
}

#[test]
fn mod_serialize_then_deserialize_round_trips_model() {
    let backend = ZarrBackend;
    let model = image_model("zstd");
    let mut writer = MemoryBinaryWriter::new();
    backend.serialize_model(&model, &mut writer).expect("serialize");
    let bytes = writer.take_buffer();
    let mut reader = MemoryBinaryReader::from_vec(bytes);
    let parsed = backend.deserialize_model(&mut reader).expect("deserialize");
    assert_eq!(parsed.child_count(), 1);
    assert_eq!(parsed.children()[0].field("imageWidth").unwrap(), "32");
    assert_eq!(parsed.children()[0].field("tileWidth").unwrap(), "16");
    assert_eq!(parsed.children()[0].field("pixelType").unwrap(), "UInt8");
    assert_eq!(parsed.children()[0].field("compression").unwrap(), "zstd");
}

#[test]
fn round_trips_uncompressed_chunks_byte_for_byte() {
    let backend = ZarrBackend;
    let model = image_model("None");
    let mut writer = MemoryBinaryWriter::new();
    backend.serialize_model(&model, &mut writer).expect("serialize");
    let mut sink = backend.open_image_sink(writer, &model).expect("sink");
    write_pattern(&mut sink);
    let bytes = sink.into_writer().take_buffer();

    let mut source = backend.open_image_source(MemoryBinaryReader::from_vec(bytes)).expect("source");
    let out = read_all(&mut source);
    assert_eq!(out.len(), 32 * 32);
    assert_eq!(out[0], 0);
    assert_eq!(out[16 * 16], 1);
    assert_eq!(out[2 * 16 * 16], 2);
}

#[test]
fn round_trips_compressed_chunks_byte_for_byte() {
    for compression in ["zstd", "zlib"] {
        let backend = ZarrBackend;
        let model = image_model(compression);
        let mut writer = MemoryBinaryWriter::new();
        backend.serialize_model(&model, &mut writer).expect("serialize");
        let mut sink = backend.open_image_sink(writer, &model).expect("sink");
        write_pattern(&mut sink);
        let bytes = sink.into_writer().take_buffer();

        let mut source = backend.open_image_source(MemoryBinaryReader::from_vec(bytes)).expect("source");
        let out = read_all(&mut source);
        assert_eq!(out.len(), 32 * 32, "{compression}");
        for (tile, chunk) in out.chunks(256).enumerate() {
            assert!(chunk.iter().all(|b| *b == tile as u8), "{compression}: tile {tile}");
        }
    }
}

#[test]
fn serialize_model_uses_the_first_child_image() {
    let mut root = StorageModel::new();
    root.add_child(image_model("None"));
    let mut a = MemoryBinaryWriter::new();
    ZarrBackend.serialize_model(&root, &mut a).unwrap();
    let mut b = MemoryBinaryWriter::new();
    ZarrBackend.serialize_model(&image_model("None"), &mut b).unwrap();
    assert_eq!(a.take_buffer(), b.take_buffer());
}

#[test]
fn serialize_model_without_geometry_is_invalid_argument() {
    let mut writer = MemoryBinaryWriter::new();
    let err = ZarrBackend.serialize_model(&StorageModel::new(), &mut writer).unwrap_err();
    assert_eq!(err.code(), ErrorCode::InvalidArgument);
    assert!(writer.is_empty());
}

// ---- sink and source -------------------------------------------------------

fn layout(compression: &str) -> ZarrLayout {
    build_layout(&image_model(compression)).expect("build_layout")
}

fn tile(index: TileIndex, bytes: &[u8]) -> Tile<'_> {
    Tile::new(TileId::new(0), index, TileRegion::new(0, 0, TileExtent::new(16, 16)), bytes)
}

fn pre_sized_writer(pixel_region: u64, slot_count: u64, slot_size: u64) -> MemoryBinaryWriter {
    let mut writer = MemoryBinaryWriter::new();
    let zeros = vec![0u8; (pixel_region + slot_count * slot_size) as usize];
    writer.seek(0).unwrap();
    writer.write(&zeros).unwrap();
    writer
}

#[test]
fn writes_tile_into_its_slot() {
    let layout = layout("None");
    let prefix = HEADER_SIZE + layout.header.len() as u64;
    let slot_size = u64::from(layout.slot_size);
    let writer = pre_sized_writer(prefix, 2, slot_size);
    let mut sink = ZarrImageSink::new(writer, layout, prefix);
    let mut payload = vec![0u8; 256];
    payload[0] = 0x11;
    payload[255] = 0xFF;
    sink.write_tile(&tile(TileIndex::new(1, 0, 0), &payload)).expect("write");
    let buf = sink.into_writer().take_buffer();
    let start = prefix as usize + slot_size as usize;
    assert_eq!(&buf[start..start + 4], &256u32.to_le_bytes());
    assert_eq!(buf[start + 4], 0x11);
    assert_eq!(buf[start + 4 + 255], 0xFF);
}

#[test]
fn image_sink_mismatched_tile_bytes_is_invalid_argument() {
    let layout = layout("None");
    let prefix = HEADER_SIZE + layout.header.len() as u64;
    let slot_size = u64::from(layout.slot_size);
    let mut sink = ZarrImageSink::new(pre_sized_writer(prefix, 2, slot_size), layout, prefix);
    let err = sink.write_tile(&tile(TileIndex::new(0, 0, 0), &[0u8; 10])).unwrap_err();
    assert_eq!(err.code(), ErrorCode::InvalidArgument);
    assert_eq!(err.message(), "zarr: tile byte count does not match the chunk size");
}

#[test]
fn image_sink_out_of_range_tile_is_rejected() {
    let layout = layout("None");
    let prefix = HEADER_SIZE + layout.header.len() as u64;
    let slot_size = u64::from(layout.slot_size);
    let mut sink = ZarrImageSink::new(pre_sized_writer(prefix, 2, slot_size), layout, prefix);
    let err = sink.write_tile(&tile(TileIndex::new(99, 0, 0), &[0u8; 256])).unwrap_err();
    assert_eq!(err.code(), ErrorCode::OutOfRange);
}

/// A raw-chunk document with two fixed slots, the one at `offset` holding a
/// payload filled with `marker`.
fn doc_with_tile(marker: u8, offset: u64) -> Vec<u8> {
    let mut doc = layout("None");
    doc.compressor = Compressor::NoCompression;
    let prefix = HEADER_SIZE + doc.header.len() as u64;
    let slot = u64::from(doc.slot_size);
    let mut bytes = vec![0u8; prefix as usize + (slot * 2) as usize];
    let start = (prefix + offset * slot) as usize;
    bytes[start..start + 4].copy_from_slice(&(doc.chunk_bytes).to_le_bytes());
    for b in bytes[start + 4..start + 4 + doc.chunk_bytes as usize].iter_mut() {
        *b = marker;
    }
    bytes
}

#[test]
fn reads_tile_from_its_slot() {
    let doc = layout("None");
    let prefix = HEADER_SIZE + doc.header.len() as u64;
    let bytes = doc_with_tile(0xAB, 1);
    let mut source = ZarrImageSource::new(MemoryBinaryReader::from_vec(bytes), doc, prefix);
    let tile = source.read_tile(TileIndex::new(1, 0, 0)).expect("read");
    assert_eq!(tile.data().len(), 256);
    assert_eq!(tile.data()[0], 0xAB);
    assert_eq!(tile.id().value(), 1);
}

#[test]
fn image_source_out_of_range_tile_is_rejected() {
    let doc = layout("None");
    let prefix = HEADER_SIZE + doc.header.len() as u64;
    let bytes = doc_with_tile(1, 0);
    let mut source = ZarrImageSource::new(MemoryBinaryReader::from_vec(bytes), doc, prefix);
    let err = source.read_tile(TileIndex::new(99, 0, 0)).unwrap_err();
    assert_eq!(err.code(), ErrorCode::OutOfRange);
}

#[test]
fn empty_slot_is_invalid_argument() {
    let doc = layout("None");
    let prefix = HEADER_SIZE + doc.header.len() as u64;
    let bytes = doc_with_tile(1, 0);
    let mut source = ZarrImageSource::new(MemoryBinaryReader::from_vec(bytes), doc, prefix);
    let err = source.read_tile(TileIndex::new(1, 0, 0)).unwrap_err();
    assert_eq!(err.code(), ErrorCode::InvalidArgument);
    assert_eq!(err.message(), "zarr: invalid chunk payload length");
}
