use ptiff_core::io::backend::isis::{parse_label, pixel_origin, read_document, write_label};
use ptiff_core::io::{MemoryBinaryReader, StorageModel};
use ptiff_core::ErrorCode;

fn image_model() -> StorageModel {
    let mut m = StorageModel::new();
    m.set_field("imageWidth", "32");
    m.set_field("imageHeight", "32");
    m.set_field("tileWidth", "16");
    m.set_field("tileHeight", "16");
    m.set_field("samplesPerPixel", "1");
    m.set_field("pixelType", "UInt8");
    m.set_field("compression", "None");
    m
}

#[test]
fn label_write_label_contains_expected_structure() {
    let label = write_label(&image_model()).expect("write_label");
    let text = String::from_utf8(label).expect("utf8");
    assert!(text.starts_with("Object = IsisCube\n"));
    assert!(text.contains("Samples = 32"));
    assert!(text.contains("Lines = 32"));
    assert!(text.contains("Bands = 1"));
    assert!(text.contains("Type = UnsignedByte"));
    assert!(text.contains("Compression = \"None\""));
    assert!(text.ends_with("End_Object\nEnd_Object\nEnd\n"));
}

#[test]
fn write_label_rejects_missing_required_field() {
    let m = StorageModel::new();
    let err = write_label(&m).expect_err("must fail");
    assert_eq!(err.code(), ErrorCode::InvalidArgument);
}

#[test]
fn write_label_rejects_unsupported_pixel_type() {
    let mut m = image_model();
    m.set_field("pixelType", "Bogus");
    let err = write_label(&m).expect_err("must fail");
    assert_eq!(err.code(), ErrorCode::InvalidArgument);
}

#[test]
fn label_label_round_trips_through_parse_and_write() {
    let model = image_model();
    let label = write_label(&model).expect("write_label");
    let parsed = parse_label(&label).expect("parse_label");
    assert_eq!(parsed.field("imageWidth").unwrap(), "32");
    assert_eq!(parsed.field("imageHeight").unwrap(), "32");
    assert_eq!(parsed.field("samplesPerPixel").unwrap(), "1");
    assert_eq!(parsed.field("pixelType").unwrap(), "UInt8");
    assert_eq!(parsed.field("tileWidth").unwrap(), "16");
    assert_eq!(parsed.field("tileHeight").unwrap(), "16");
    assert_eq!(parsed.field("compression").unwrap(), "None");
}

#[test]
fn parse_label_rejects_non_isis_text() {
    let err = parse_label(b"not a label").expect_err("must fail");
    assert_eq!(err.code(), ErrorCode::InvalidArgument);
}

#[test]
fn parse_label_rejects_unrecognized_pixel_type() {
    let mut model = image_model();
    model.set_field("pixelType", "Float32");
    let label = write_label(&model).expect("write_label");
    let mut text = String::from_utf8(label).unwrap();
    text = text.replace("Type = Real", "Type = Weird");
    let err = parse_label(text.as_bytes()).expect_err("must fail");
    assert_eq!(err.code(), ErrorCode::InvalidArgument);
}

#[test]
fn compression_defaults_to_none_when_absent_from_label() {
    let text = "Object = IsisCube\n  Object = Core\n    Group = Dimensions\n      Samples = 4\n      Lines = 4\n      Bands = 1\n    End_Group\n    Group = Pixels\n      Type = UnsignedByte\n      ByteOrder = Lsb\n    End_Group\n  End_Object\nEnd_Object\nEnd\n";
    let parsed = parse_label(text.as_bytes()).expect("parse_label");
    assert_eq!(parsed.field("compression").unwrap(), "None");
}

#[test]
fn parse_label_trims_unquotes_and_lets_the_last_assignment_win() {
    let text = "Object = IsisCube\r\n Samples =\t\"8\" \r\nSamples = 9\nLines=2\nBands = 3\nType = Double\nno assignment here\n = orphan\n";
    let parsed = parse_label(text.as_bytes()).expect("parse_label");
    assert_eq!(parsed.field("imageWidth").unwrap(), "9");
    assert_eq!(parsed.field("imageHeight").unwrap(), "2");
    assert_eq!(parsed.field("samplesPerPixel").unwrap(), "3");
    assert_eq!(parsed.field("pixelType").unwrap(), "Float64");
    assert!(parsed.field("tileWidth").is_err());
}

#[test]
fn parse_label_rejects_invalid_utf8_and_missing_dimensions() {
    assert_eq!(parse_label(&[0xFF, 0xFE]).unwrap_err().code(), ErrorCode::InvalidArgument);
    let err = parse_label(b"Object = IsisCube\nSamples = 1\n").unwrap_err();
    assert_eq!(err.code(), ErrorCode::InvalidArgument);
}

#[test]
fn document_reads_label_then_reports_pixel_origin() {
    let label = write_label(&image_model()).expect("write_label");
    let label_len = label.len() as u64;
    let mut bytes = label;
    bytes.extend_from_slice(&[0u8; 32 * 32]);
    let mut reader = MemoryBinaryReader::from_vec(bytes);
    let doc = read_document(&mut reader).expect("read_document");
    assert_eq!(doc.label_bytes, label_len);
    assert_eq!(pixel_origin(doc.label_bytes), label_len);
    assert_eq!(doc.image.field("imageWidth").unwrap(), "32");
}

#[test]
fn missing_end_marker_is_invalid_argument() {
    let mut reader = MemoryBinaryReader::from_vec(b"not a label".to_vec());
    let err = read_document(&mut reader).expect_err("must fail");
    assert_eq!(err.code(), ErrorCode::InvalidArgument);
}
