use ptiff_core::io::backend::memory_image_sink::MemoryImageSink;
use ptiff_core::io::backend::pds4::document::MAX_LABEL_BYTES;
use ptiff_core::io::backend::pds4::label::HEADER_SIZE;
use ptiff_core::io::backend::pds4::{parse_label, pixel_origin, read_document, write_label, Pds4Backend};
use ptiff_core::io::{BinaryWriter, MemoryBinaryReader, MemoryBinaryWriter, StorageBackend, StorageModel};
use ptiff_core::tile::{Tile, TileId, TileIndex, TileLayout};
use ptiff_core::ErrorCode;

fn image_model() -> StorageModel {
    let mut m = StorageModel::new();
    m.set_field("imageWidth", "32");
    m.set_field("imageHeight", "32");
    m.set_field("tileWidth", "16");
    m.set_field("tileHeight", "16");
    m.set_field("samplesPerPixel", "1");
    m.set_field("pixelType", "UInt8");
    m.set_field("compression", "None");
    m
}

fn encode_document(label: &[u8], pixels: &[u8]) -> Vec<u8> {
    let mut bytes = Vec::new();
    bytes.extend_from_slice(&(label.len() as u64).to_le_bytes());
    bytes.extend_from_slice(label);
    bytes.extend_from_slice(pixels);
    bytes
}

// ---- document --------------------------------------------------------------

#[test]
fn pds4_document_reads_label_then_reports_pixel_origin() {
    let label = write_label(&image_model()).expect("write_label");
    let label_len = label.len() as u64;
    let bytes = encode_document(&label, &[0u8; 32 * 32]);
    let mut reader = MemoryBinaryReader::from_vec(bytes);
    let doc = read_document(&mut reader).expect("read_document");
    assert_eq!(doc.label_bytes, label_len);
    assert_eq!(pixel_origin(doc.label_bytes), HEADER_SIZE + label_len);
    assert_eq!(doc.image.field("imageWidth").unwrap(), "32");
}

#[test]
fn truncated_seek_header_is_invalid_argument() {
    let mut reader = MemoryBinaryReader::from_vec(vec![1, 2, 3]);
    let err = read_document(&mut reader).expect_err("must fail");
    assert_eq!(err.code(), ErrorCode::InvalidArgument);
}

#[test]
fn zero_label_length_is_invalid_argument() {
    let mut reader = MemoryBinaryReader::from_vec(0u64.to_le_bytes().to_vec());
    let err = read_document(&mut reader).expect_err("must fail");
    assert_eq!(err.code(), ErrorCode::InvalidArgument);
}

#[test]
fn implausible_label_length_is_invalid_argument() {
    let mut reader = MemoryBinaryReader::from_vec((MAX_LABEL_BYTES + 1).to_le_bytes().to_vec());
    let err = read_document(&mut reader).expect_err("must fail");
    assert_eq!(err.code(), ErrorCode::InvalidArgument);
}

#[test]
fn truncated_label_is_invalid_argument() {
    let mut bytes = 100u64.to_le_bytes().to_vec();
    bytes.extend_from_slice(b"<Product_Observational>");
    let mut reader = MemoryBinaryReader::from_vec(bytes);
    let err = read_document(&mut reader).expect_err("must fail");
    assert_eq!(err.code(), ErrorCode::InvalidArgument);
}

// ---- label -----------------------------------------------------------------

#[test]
fn pds4_write_label_contains_expected_structure() {
    let label = write_label(&image_model()).expect("write_label");
    let text = String::from_utf8(label).expect("utf8");
    assert!(text.starts_with("<Product_Observational><Array_2D_Image>"));
    assert!(text.contains("<imageWidth>32</imageWidth>"));
    assert!(text.contains("<imageHeight>32</imageHeight>"));
    assert!(text.contains("<pixelType>UInt8</pixelType>"));
    assert!(text.ends_with("</Array_2D_Image></Product_Observational>"));
}

#[test]
fn write_label_does_not_validate_fields() {
    let label = write_label(&StorageModel::new()).expect("write_label must not fail on an empty model");
    let text = String::from_utf8(label).expect("utf8");
    assert_eq!(text, "<Product_Observational><Array_2D_Image></Array_2D_Image></Product_Observational>");
}

#[test]
fn pds4_label_round_trips_through_parse_and_write() {
    let model = image_model();
    let label = write_label(&model).expect("write_label");
    let parsed = parse_label(&label).expect("parse_label");
    assert_eq!(parsed.field("imageWidth").unwrap(), "32");
    assert_eq!(parsed.field("imageHeight").unwrap(), "32");
    assert_eq!(parsed.field("samplesPerPixel").unwrap(), "1");
    assert_eq!(parsed.field("pixelType").unwrap(), "UInt8");
    assert_eq!(parsed.field("tileWidth").unwrap(), "16");
    assert_eq!(parsed.field("tileHeight").unwrap(), "16");
    assert_eq!(parsed.field("compression").unwrap(), "None");
}

#[test]
fn parse_label_rejects_empty_bytes() {
    let err = parse_label(&[]).expect_err("must fail");
    assert_eq!(err.code(), ErrorCode::InvalidArgument);
}

#[test]
fn parse_label_rejects_malformed_xml() {
    let err = parse_label(b"<Product_Observational><Array_2D_Image></Product_Observational></Array_2D_Image>")
        .expect_err("must fail");
    assert_eq!(err.code(), ErrorCode::InvalidArgument);
}

#[test]
fn parse_label_rejects_missing_product_root() {
    let err = parse_label(b"<NotAProduct/>").expect_err("must fail");
    assert_eq!(err.code(), ErrorCode::InvalidArgument);
}

#[test]
fn parse_label_rejects_missing_array_element() {
    let err = parse_label(b"<Product_Observational></Product_Observational>").expect_err("must fail");
    assert_eq!(err.code(), ErrorCode::InvalidArgument);
}

#[test]
fn parse_label_accepts_empty_field_value() {
    let bytes = b"<Product_Observational><Array_2D_Image><container/></Array_2D_Image></Product_Observational>";
    let parsed = parse_label(bytes).expect("parse_label");
    assert_eq!(parsed.field("container").unwrap(), "");
}

#[test]
fn escaped_values_round_trip_through_the_label() {
    let mut model = StorageModel::new();
    model.set_field("note", "a<b & \"c\"");
    let label = write_label(&model).unwrap();
    let text = String::from_utf8(label.clone()).unwrap();
    assert!(text.contains("<note>a&lt;b &amp; &quot;c&quot;</note>"));
    let parsed = parse_label(&label).unwrap();
    assert_eq!(parsed.field("note").unwrap(), "a<b & \"c\"");
}

#[test]
fn parse_label_rejects_invalid_utf8() {
    let err = parse_label(&[0x3c, 0xff, 0x3e]).unwrap_err();
    assert_eq!(err.code(), ErrorCode::InvalidArgument);
    assert_eq!(err.message(), "pds4: label is not valid UTF-8");
}

// ---- backend ---------------------------------------------------------------

#[test]
fn pds4_name_and_capabilities() {
    let backend = Pds4Backend;
    assert_eq!(backend.name(), "pds4");
    let caps = backend.capabilities();
    assert!(caps.supports_tiling);
    assert!(!caps.supports_streaming);
    assert!(caps.supports_random_access);
    assert!(!caps.supports_cloud_streaming);
}

#[test]
fn pds4_serialize_then_deserialize_round_trips_model() {
    let backend = Pds4Backend;
    let model = image_model();
    let mut writer = MemoryBinaryWriter::new();
    backend.serialize_model(&model, &mut writer).expect("serialize");
    let bytes = writer.take_buffer();
    let mut reader = MemoryBinaryReader::from_vec(bytes);
    let parsed = backend.deserialize_model(&mut reader).expect("deserialize");
    assert_eq!(parsed.child_count(), 1);
    assert_eq!(parsed.children()[0].field("imageWidth").unwrap(), "32");
    assert_eq!(parsed.children()[0].field("tileWidth").unwrap(), "16");
    assert_eq!(parsed.children()[0].field("pixelType").unwrap(), "UInt8");
}

fn write_grid<W: BinaryWriter>(sink: &mut MemoryImageSink<W>) {
    let layout: TileLayout = sink.layout();
    let tile_bytes = (layout.tile_size.width * layout.tile_size.height) as usize;
    for level in 0..layout.level_count {
        for row in 0..layout.rows(level) {
            for column in 0..layout.columns(level) {
                let index = TileIndex::new(column, row, level);
                let linear = u64::from(row) * u64::from(layout.columns(level)) + u64::from(column);
                let payload = vec![(linear % 256) as u8; tile_bytes];
                let region = layout.region_for(index).expect("region");
                let tile = Tile::new(TileId::new(linear), index, region, &payload);
                sink.write_tile(&tile).expect("write_tile");
            }
        }
    }
}

#[test]
fn round_trips_a_2x2_grid_of_tiles_byte_for_byte() {
    let backend = Pds4Backend;
    let model = image_model();
    let mut writer = MemoryBinaryWriter::new();
    backend.serialize_model(&model, &mut writer).expect("serialize");
    let mut sink = backend.open_image_sink(writer, &model).expect("sink");
    write_grid(&mut sink);
    let bytes = sink.into_writer().take_buffer();

    let mut source = backend.open_image_source(MemoryBinaryReader::from_vec(bytes)).expect("source");
    let layout: TileLayout = source.layout();
    let mut out = Vec::new();
    for level in 0..layout.level_count {
        for row in 0..layout.rows(level) {
            for column in 0..layout.columns(level) {
                let tile = source.read_tile(TileIndex::new(column, row, level)).expect("read_tile");
                out.extend_from_slice(tile.data());
            }
        }
    }
    assert_eq!(out.len(), 32 * 32);
    assert_eq!(out[0], 0);
    assert_eq!(out[16 * 16], 1);
    assert_eq!(out[2 * 16 * 16], 2);
}

#[test]
fn serialize_model_rejects_oversized_label() {
    let backend = Pds4Backend;
    let mut model = image_model();
    model.set_field("oversized", &"x".repeat((1usize << 24) + 1));
    let mut writer = MemoryBinaryWriter::new();
    let err = backend.serialize_model(&model, &mut writer).expect_err("must fail");
    assert_eq!(err.code(), ErrorCode::InvalidArgument);
}

#[test]
fn pds4_text_segments_are_trimmed_one_by_one() {
    let label = b"<Product_Observational><Array_2D_Image><a> x <!--c--> y </a><b>p &amp; q</b></Array_2D_Image></Product_Observational>";
    let m = parse_label(label).unwrap();
    assert_eq!(m.field("a").unwrap(), "xy");
    assert_eq!(m.field("b").unwrap(), "p & q");
}

#[test]
fn pds4_special_characters_round_trip_through_the_label() {
    let mut m = StorageModel::new();
    m.set_field("note", "a<b & c>'d\"");
    let label = write_label(&m).unwrap();
    let back = parse_label(&label).unwrap();
    assert_eq!(back.field("note").unwrap(), "a<b & c>'d\"");
}

#[test]
fn pds4_a_reference_to_white_space_is_kept() {
    let label = b"<Product_Observational><Array_2D_Image><k>a&#32;</k><r>x&#13;</r></Array_2D_Image></Product_Observational>";
    let m = parse_label(label).unwrap();
    assert_eq!(m.field("k").unwrap(), "a ");
    assert_eq!(m.field("r").unwrap(), "x\r");
    assert_eq!(m.child_count(), 0);
}
