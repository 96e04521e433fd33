use ptiff_core::io::backend::tiff::TiffBackend;
use ptiff_core::io::{BackendCapabilities, MemoryBinaryReader, MemoryBinaryWriter, StorageBackend, StorageModel};
use ptiff_core::tile::{Tile, TileExtent, TileId, TileIndex, TileRegion};
use ptiff_core::ErrorCode;

fn strip_uint8_model(width: u32, height: u32) -> StorageModel {
    let mut m = StorageModel::new();
    m.set_field("imageWidth", &width.to_string());
    m.set_field("imageHeight", &height.to_string());
    m.set_field("samplesPerPixel", "1");
    m.set_field("pixelType", "UInt8");
    m
}

/// Writes one strip's payload through a sink after `serialize_model`,
/// handing the writer back.
fn write_single_into(backend: &TiffBackend, writer: MemoryBinaryWriter, model: &StorageModel, payload: &[u8]) -> MemoryBinaryWriter {
    let mut sink = backend.open_image_sink(writer, model).expect("openImageSink");
    let layout = sink.layout();
    let region = TileRegion::new(0, 0, TileExtent::new(layout.tile_size.width, layout.tile_size.height));
    let tile = Tile::new(TileId::new(0), TileIndex::new(0, 0, 0), region, payload);
    sink.write_tile(&tile).expect("writeTile");
    sink.into_writer()
}

/// Reads a single-image file and returns the decoded tile bytes.
fn read_single_into(backend: &TiffBackend, bytes: &[u8]) -> Vec<u8> {
    let reader = MemoryBinaryReader::from_slice(bytes);
    let mut source = backend.open_image_source(reader).expect("openImageSource");
    let tile = source.read_tile(TileIndex::new(0, 0, 0)).expect("readTile").data().to_vec();
    tile
}

#[test]
fn tiff_backend_name_and_capabilities() {
    let backend = TiffBackend;
    assert_eq!(backend.name(), "tiff");
    let caps = backend.capabilities();
    assert!(caps.supports_tiling);
    assert!(caps.supports_random_access);
    assert!(caps.supports_cloud_streaming);
    assert!(!caps.supports_streaming);
}

#[test]
fn single_image_uncompressed_round_trip() {
    let model = strip_uint8_model(16, 16);
    let payload: Vec<u8> = (0..(16 * 16)).map(|i| (i % 251) as u8).collect();

    let mut writer = MemoryBinaryWriter::new();
    TiffBackend.serialize_model(&model, &mut writer).expect("serializeModel");
    let mut writer = write_single_into(&TiffBackend, writer, &model, &payload);
    let bytes = writer.take_buffer();

    let decoded = read_single_into(&TiffBackend, &bytes);
    assert_eq!(decoded, payload);
}

#[test]
fn deserialize_model_reads_single_image() {
    let model = strip_uint8_model(4, 4);
    let payload = vec![0u8; 16];
    let mut writer = MemoryBinaryWriter::new();
    TiffBackend.serialize_model(&model, &mut writer).expect("serializeModel");
    let mut writer = write_single_into(&TiffBackend, writer, &model, &payload);
    let bytes = writer.take_buffer();

    let mut reader = MemoryBinaryReader::from_slice(&bytes);
    let root = TiffBackend.deserialize_model(&mut reader).expect("deserializeModel");
    assert_eq!(root.child_count(), 1);
    let image = &root.children()[0];
    assert_eq!(image.field("imageWidth").unwrap(), "4");
    assert_eq!(image.field("imageHeight").unwrap(), "4");
    assert_eq!(image.field("samplesPerPixel").unwrap(), "1");
    assert_eq!(image.field("pixelType").unwrap(), "UInt8");
}

#[test]
fn multi_image_strips_round_trip() {
    let m0 = strip_uint8_model(8, 8);
    let m1 = strip_uint8_model(4, 4);
    let models = [strip_uint8_model(8, 8), strip_uint8_model(4, 4)];
    let _ = (&m0, &m1);
    let payload0: Vec<u8> = (0..(8 * 8)).map(|i| (i % 251) as u8).collect();
    let payload1: Vec<u8> = (0..(4 * 4)).map(|i| (255 - (i % 200)) as u8).collect();

    let mut writer = MemoryBinaryWriter::new();
    TiffBackend.serialize_model_list(&models, &mut writer).expect("serializeModelList");
    for (i, payload) in [&payload0, &payload1].iter().enumerate() {
        let mut sink = TiffBackend.open_image_sink_at(writer, &models, i).expect("openImageSinkAt");
        let layout = sink.layout();
        let region = TileRegion::new(0, 0, TileExtent::new(layout.tile_size.width, layout.tile_size.height));
        let tile = Tile::new(TileId::new(0), TileIndex::new(0, 0, 0), region, payload);
        sink.write_tile(&tile).expect("writeTile");
        writer = sink.into_writer();
    }
    let bytes = writer.take_buffer();

    for i in 0..2 {
        let reader = MemoryBinaryReader::from_slice(&bytes);
        let mut source = TiffBackend.open_image_source_at(reader, i).expect("openImageSourceAt");
        let decoded = source.read_tile(TileIndex::new(0, 0, 0)).expect("readTile").data().to_vec();
        let expected = if i == 0 { &payload0 } else { &payload1 };
        assert_eq!(decoded, *expected);
    }

    let mut reader = MemoryBinaryReader::from_slice(&bytes);
    let root = TiffBackend.deserialize_model(&mut reader).expect("deserializeModel");
    assert_eq!(root.child_count(), 2);
}

#[test]
fn single_image_packbits_round_trip() {
    let mut model = strip_uint8_model(16, 16);
    model.set_field("compression", "PackBits");
    let payload = vec![9u8; 16 * 16];
    let mut writer = MemoryBinaryWriter::new();
    TiffBackend.serialize_model(&model, &mut writer).expect("serializeModel");
    let mut writer = write_single_into(&TiffBackend, writer, &model, &payload);
    let bytes = writer.take_buffer();

    let decoded = read_single_into(&TiffBackend, &bytes);
    assert_eq!(decoded, payload);
}

#[test]
fn open_image_source_at_past_the_last_image_is_not_found() {
    let model = strip_uint8_model(2, 2);
    let mut writer = MemoryBinaryWriter::new();
    TiffBackend.serialize_model(&model, &mut writer).expect("serializeModel");
    let mut writer = write_single_into(&TiffBackend, writer, &model, &[1, 2, 3, 4]);
    let bytes = writer.take_buffer();
    let err = TiffBackend.open_image_source_at(MemoryBinaryReader::from_slice(&bytes), 1).err().unwrap();
    assert_eq!(err.code(), ErrorCode::NotFound);
}

#[test]
fn open_image_sink_at_past_the_last_image_is_out_of_range() {
    let models = [strip_uint8_model(2, 2)];
    let err = TiffBackend.open_image_sink_at(MemoryBinaryWriter::new(), &models, 1).err().unwrap();
    assert_eq!(err.code(), ErrorCode::OutOfRange);
}

#[test]
fn serialize_model_writes_header_then_ifd() {
    let model = strip_uint8_model(2, 2);
    let mut writer = MemoryBinaryWriter::new();
    TiffBackend.serialize_model(&model, &mut writer).expect("serializeModel");
    let bytes = writer.take_buffer();
    assert_eq!(&bytes[0..8], &[0x49, 0x49, 42, 0, 8, 0, 0, 0]);
    let entry_count = u16::from_le_bytes([bytes[8], bytes[9]]) as usize;
    assert!(entry_count > 0);
    // The only IFD links to no other.
    let next_at = 10 + 12 * entry_count;
    assert_eq!(&bytes[next_at..next_at + 4], &[0, 0, 0, 0]);
}

#[test]
fn serialize_model_rejects_unplannable_model() {
    let mut model = strip_uint8_model(2, 2);
    model.set_field("pixelType", "Bogus");
    let mut writer = MemoryBinaryWriter::new();
    let err = TiffBackend.serialize_model(&model, &mut writer).unwrap_err();
    assert_eq!(err.code(), ErrorCode::InvalidArgument);
    assert!(writer.is_empty());
}

#[test]
fn deserialize_garbage_is_rejected() {
    let mut reader = MemoryBinaryReader::from_slice(&[1, 2, 3, 4, 5, 6, 7, 8, 9]);
    assert!(TiffBackend.deserialize_model(&mut reader).is_err());
}

#[test]
fn default_capabilities_advertise_nothing() {
    let b = BackendCapabilities::default();
    assert_eq!(
        b,
        BackendCapabilities {
            supports_tiling: false,
            supports_streaming: false,
            supports_random_access: false,
            supports_cloud_streaming: false,
        }
    );
}
