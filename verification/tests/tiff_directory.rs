use ptiff_core::io::backend::tiff::directory::{
    interpret_tiff_ifd, to_storage_model, TiffCompression, TiffDirectory, TiffPredictor,
};
use ptiff_core::io::backend::tiff::directory_writer::{plan_tiff_write, plan_tiff_write_multi};
use ptiff_core::io::backend::tiff::ifd::read_tiff_ifd;
use ptiff_core::io::backend::tiff::ifd_writer::{tiff_ifd_byte_size, write_tiff_ifd, TiffIfdEntryToWrite};
use ptiff_core::io::backend::tiff::ptiff_metadata::{
    decode_metadata_payload, encode_metadata_payload, records_from_storage_model, MetadataRecord,
};
use ptiff_core::io::backend::tiff::{Endian, FieldType, TagId};
use ptiff_core::io::{MemoryBinaryReader, MemoryBinaryWriter, StorageModel};
use ptiff_core::{ErrorCode, PixelType, Result};

// ---- directory interpretation ------------------------------------------

fn long(tag: u16, values: Vec<u32>) -> TiffIfdEntryToWrite {
    TiffIfdEntryToWrite::new(tag, FieldType::Long, values)
}

fn short(tag: u16, values: Vec<u32>) -> TiffIfdEntryToWrite {
    TiffIfdEntryToWrite::new(tag, FieldType::Short, values)
}

fn build_and_interpret_strip_ifd(
    pixel_type: PixelType,
    width: u32,
    height: u32,
    offsets: Vec<u32>,
    byte_counts: Vec<u32>,
) -> Result<TiffDirectory> {
    let (bpp, sfmt) = match pixel_type {
        PixelType::UInt8 => (8u32, 1u32),
        PixelType::UInt16 => (16, 1),
        PixelType::UInt32 => (32, 1),
        PixelType::Float32 => (32, 3),
        PixelType::Float64 => (64, 3),
    };
    let mut entries = vec![
        long(256, vec![width]),
        long(257, vec![height]),
        short(258, vec![bpp]),
        long(259, vec![1]),
        long(262, vec![1]),
        long(277, vec![1]),
        long(278, vec![height]),
        long(279, byte_counts.clone()),
        short(339, vec![sfmt]),
        long(273, offsets.clone()),
    ];
    entries.sort_by_key(|e| e.tag_id);
    let mut w = MemoryBinaryWriter::new();
    write_tiff_ifd(&mut w, entries, false, 0).unwrap();
    let buf = w.take_buffer();
    let mut r = MemoryBinaryReader::from_vec(buf);
    let ifd = read_tiff_ifd(&mut r, 0, Endian::Little, false)?;
    interpret_tiff_ifd(&ifd)
}

#[test]
fn interprets_stripped_grayscale_uint8() {
    let d = build_and_interpret_strip_ifd(PixelType::UInt8, 64, 32, vec![1024], vec![64 * 32]).unwrap();
    assert_eq!(d.image_width, 64);
    assert_eq!(d.image_height, 32);
    assert_eq!(d.pixel_type, PixelType::UInt8);
    assert_eq!(d.samples_per_pixel, 1);
    assert_eq!(d.compression, TiffCompression::NoCompression);
    assert_eq!(d.predictor, TiffPredictor::NoPredictor);
    assert_eq!(d.tile_byte_ranges.len(), 1);
    assert_eq!(d.tile_byte_ranges[0].offset, 1024);
    assert_eq!(d.tile_byte_ranges[0].byte_count, 64 * 32);
    assert_eq!(d.layout.tile_size.width, 64);
    assert_eq!(d.layout.tile_size.height, 32);
}

#[test]
fn to_storage_model_round_trip_fields() {
    let d = build_and_interpret_strip_ifd(PixelType::Float32, 16, 16, vec![64], vec![16 * 16 * 4]).unwrap();
    let m = to_storage_model(&d);
    assert_eq!(m.field("imageWidth").unwrap(), "16");
    assert_eq!(m.field("pixelType").unwrap(), "Float32");
    assert_eq!(m.field("compression").unwrap(), "None");
    assert_eq!(m.field("predictor").unwrap(), "None");
}

#[test]
fn interpret_rejects_missing_image_width() {
    let mut w = MemoryBinaryWriter::new();
    write_tiff_ifd(&mut w, vec![long(257, vec![4])], false, 0).unwrap();
    let mut r = MemoryBinaryReader::from_vec(w.take_buffer());
    let ifd = read_tiff_ifd(&mut r, 0, Endian::Little, false).unwrap();
    let e = interpret_tiff_ifd(&ifd).unwrap_err();
    assert_eq!(e.code(), ErrorCode::InvalidArgument);
}

// ---- write planning ----------------------------------------------------

fn strip_model(width: u32, height: u32) -> StorageModel {
    let mut m = StorageModel::new();
    m.set_field("imageWidth", &width.to_string());
    m.set_field("imageHeight", &height.to_string());
    m.set_field("samplesPerPixel", "1");
    m.set_field("pixelType", "UInt8");
    m
}

fn gray_model() -> StorageModel {
    strip_model(2, 2)
}

fn nband_model(samples: u32) -> StorageModel {
    let mut m = StorageModel::new();
    m.set_field("imageWidth", "2");
    m.set_field("imageHeight", "2");
    m.set_field("samplesPerPixel", &samples.to_string());
    m.set_field("pixelType", "UInt8");
    m
}

fn tiled_model(width: u32, height: u32, compression: &str, predictor: &str) -> StorageModel {
    let mut m = StorageModel::new();
    m.set_field("imageWidth", &width.to_string());
    m.set_field("imageHeight", &height.to_string());
    m.set_field("samplesPerPixel", "1");
    m.set_field("pixelType", "UInt8");
    m.set_field("tileWidth", "16");
    m.set_field("tileHeight", "16");
    m.set_field("compression", compression);
    m.set_field("predictor", predictor);
    m
}

#[test]
fn plans_tiled_compressed_with_patch_addresses() {
    let plan = plan_tiff_write(&tiled_model(32, 48, "LZW", "HorizontalDifferencing")).unwrap();
    assert_eq!(plan.directory.compression, TiffCompression::Lzw);
    assert_eq!(plan.directory.predictor, TiffPredictor::HorizontalDifferencing);
    assert_eq!(plan.directory.tile_byte_ranges.len(), 6);
    assert_eq!(plan.directory.tile_offsets_value_addresses.len(), 6);
    assert_eq!(plan.directory.tile_byte_counts_value_addresses.len(), 6);
}

#[test]
fn rejects_tiled_predictor_without_compression() {
    let err = plan_tiff_write(&tiled_model(32, 32, "None", "HorizontalDifferencing")).unwrap_err();
    assert_eq!(err.code(), ErrorCode::InvalidArgument);
}

#[test]
fn multi_plan_rejects_tiled_compressed() {
    let models = vec![strip_model(16, 16), tiled_model(32, 32, "PackBits", "None")];
    let err = plan_tiff_write_multi(&models).unwrap_err();
    assert_eq!(err.code(), ErrorCode::InvalidArgument);
}

#[test]
fn plans_simple_grayscale_strip() {
    let plan = plan_tiff_write(&strip_model(64, 32)).unwrap();
    assert_eq!(plan.directory.image_width, 64);
    assert_eq!(plan.directory.image_height, 32);
    assert_eq!(plan.directory.pixel_type, PixelType::UInt8);
    assert_eq!(plan.directory.compression, TiffCompression::NoCompression);
    assert_eq!(plan.directory.tile_byte_ranges.len(), 1);
    assert!(!plan.is_big_tiff);
}

#[test]
fn multi_plan_with_two_images_chains_ifds() {
    let models = vec![strip_model(16, 16), strip_model(8, 8)];
    let plan = plan_tiff_write_multi(&models).unwrap();
    assert_eq!(plan.images.len(), 2);
    assert!(!plan.is_big_tiff);
    let ifd0_size = tiff_ifd_byte_size(&plan.images[0].entries, false);
    assert!(
        plan.images[1].directory.tile_byte_ranges[0].offset
            > plan.images[0].directory.tile_byte_ranges[0].offset
    );
    let _ = ifd0_size;
}

#[test]
fn multi_plan_places_ifds_back_to_back_then_data() {
    let models = vec![strip_model(16, 16), strip_model(8, 8)];
    let plan = plan_tiff_write_multi(&models).unwrap();
    let ifd0 = tiff_ifd_byte_size(&plan.images[0].entries, false);
    let ifd1 = tiff_ifd_byte_size(&plan.images[1].entries, false);
    let first_data = 8 + ifd0 + ifd1;
    assert_eq!(plan.images[0].directory.tile_byte_ranges[0].offset, first_data);
    assert_eq!(plan.images[1].directory.tile_byte_ranges[0].offset, first_data + 256);
}

#[test]
fn accepts_five_band_multispectral_image() {
    let plan = plan_tiff_write(&nband_model(5)).unwrap();
    assert_eq!(plan.directory.samples_per_pixel, 5);
    assert_eq!(plan.directory.tile_byte_ranges[0].byte_count, 20);
}

#[test]
fn emits_extra_samples_for_multispectral_but_not_rgb_or_gray() {
    let extra = TagId::ExtraSamples.as_u16();
    let plan = plan_tiff_write(&nband_model(5)).unwrap();
    assert!(plan.entries.iter().any(|e| e.tag_id == extra), "5-band must emit an ExtraSamples tag");
    let rgb_plan = plan_tiff_write(&nband_model(3)).unwrap();
    assert!(!rgb_plan.entries.iter().any(|e| e.tag_id == extra), "RGB must not emit an ExtraSamples tag");
    let gray_plan = plan_tiff_write(&gray_model()).unwrap();
    assert!(
        !gray_plan.entries.iter().any(|e| e.tag_id == extra),
        "grayscale must not emit an ExtraSamples tag"
    );
}

#[test]
fn rejects_zero_samples_per_pixel() {
    let err = plan_tiff_write(&nband_model(0)).unwrap_err();
    assert_eq!(err.code(), ErrorCode::InvalidArgument);
}

#[test]
fn rejects_samples_per_pixel_above_defensive_cap() {
    let err = plan_tiff_write(&nband_model(513)).unwrap_err();
    assert_eq!(err.code(), ErrorCode::InvalidArgument);
}

fn huge_strip_model(container: &str) -> StorageModel {
    let mut m = StorageModel::new();
    m.set_field("imageWidth", "100000");
    m.set_field("imageHeight", "100000");
    m.set_field("samplesPerPixel", "1");
    m.set_field("pixelType", "UInt8");
    m.set_field("container", container);
    m
}

#[test]
fn classic_rejects_strip_byte_count_beyond_4gib() {
    let err = plan_tiff_write(&huge_strip_model("Classic")).unwrap_err();
    assert_eq!(err.code(), ErrorCode::InvalidArgument);
    assert!(
        err.message().contains("classic TIFF"),
        "error must name the classic container: {}",
        err.message()
    );
}

#[test]
fn bigtiff_strip_plan_uses_long8_offsets_and_counts() {
    let plan = plan_tiff_write(&huge_strip_model("BigTiff")).unwrap();
    assert!(plan.is_big_tiff);
    assert_eq!(plan.directory.offset_value_bytes, 8);
    assert_eq!(plan.directory.tile_byte_ranges[0].byte_count, 10_000_000_000);
    let offsets_tag = TagId::StripOffsets.as_u16();
    let counts_tag = TagId::StripByteCounts.as_u16();
    for entry in &plan.entries {
        if entry.tag_id == offsets_tag || entry.tag_id == counts_tag {
            assert_eq!(entry.field_type, FieldType::Long8, "BigTIFF offset/count tags must be LONG8");
        }
    }
    let counts = plan.entries.iter().find(|e| e.tag_id == counts_tag).expect("StripByteCounts entry");
    assert_eq!(counts.values, vec![10_000_000_000]);
}

#[test]
fn classic_small_strip_plan_keeps_long_offsets_and_four_byte_slots() {
    let plan = plan_tiff_write(&strip_model(64, 32)).unwrap();
    assert!(!plan.is_big_tiff);
    assert_eq!(plan.directory.offset_value_bytes, 4);
    let offsets_tag = TagId::StripOffsets.as_u16();
    let offsets = plan.entries.iter().find(|e| e.tag_id == offsets_tag).expect("StripOffsets entry");
    assert_eq!(offsets.field_type, FieldType::Long);
    assert_eq!(offsets.values, vec![plan.directory.tile_byte_ranges[0].offset]);
}

#[test]
fn planned_ifd_reads_back_as_the_planned_directory() {
    let plan = plan_tiff_write(&strip_model(64, 32)).unwrap();
    let mut w = MemoryBinaryWriter::new();
    write_tiff_ifd(&mut w, plan.entries.clone(), false, 0).unwrap();
    let mut r = MemoryBinaryReader::from_vec(w.take_buffer());
    let ifd = read_tiff_ifd(&mut r, 0, Endian::Little, false).unwrap();
    let d = interpret_tiff_ifd(&ifd).unwrap();
    assert_eq!(d.image_width, 64);
    assert_eq!(d.image_height, 32);
    assert_eq!(d.tile_byte_ranges, plan.directory.tile_byte_ranges);
}

// ---- PTIFF metadata payloads --------------------------------------------

fn rec(key: &str, value: &str) -> MetadataRecord {
    MetadataRecord::new(key.to_string(), value.to_string())
}

fn le_u16(b: &[u8]) -> u16 {
    u16::from_le_bytes([b[0], b[1]])
}

fn le_u32(b: &[u8]) -> u32 {
    u32::from_le_bytes([b[0], b[1], b[2], b[3]])
}

fn to_values(payload: &[u8]) -> Vec<u64> {
    payload.iter().map(|&b| u64::from(b)).collect()
}

#[test]
fn encode_is_canonical_and_sorted() {
    let payload = encode_metadata_payload(&[rec("b", "2"), rec("a", "1"), rec("c", "3")]).unwrap();
    assert_eq!(payload.len(), 35);
    assert_eq!(&payload[0..5], b"PTIFF");
    assert_eq!(le_u16(&payload[5..7]), 1);
    assert_eq!(le_u32(&payload[7..11]), 3);
    assert_eq!(le_u16(&payload[11..13]), 1);
    assert_eq!(payload[13], b'a');
}

#[test]
fn encode_rejects_oversized_key() {
    let long_key = "k".repeat(65536);
    let err = encode_metadata_payload(&[rec(&long_key, "v")]).unwrap_err();
    assert_eq!(err.code(), ErrorCode::InvalidArgument);
}

#[test]
fn decode_round_trip() {
    let records = vec![rec("frame", "MOUNT_SPACECRAFT"), rec("target", "MARS")];
    let payload = encode_metadata_payload(&records).unwrap();
    let decoded = decode_metadata_payload(&to_values(&payload)).unwrap();
    assert_eq!(decoded, vec![rec("frame", "MOUNT_SPACECRAFT"), rec("target", "MARS")]);
}

#[test]
fn decode_round_trip_sorts_unsorted_records() {
    let records = vec![rec("z", "last"), rec("m", ""), rec("a", "first")];
    let payload = encode_metadata_payload(&records).unwrap();
    let decoded = decode_metadata_payload(&to_values(&payload)).unwrap();
    assert_eq!(decoded, vec![rec("a", "first"), rec("m", ""), rec("z", "last")]);
}

#[test]
fn decode_rejects_non_byte_value() {
    let err = decode_metadata_payload(&[0, 0x100]).unwrap_err();
    assert_eq!(err.code(), ErrorCode::InvalidArgument);
}

#[test]
fn decode_rejects_missing_magic() {
    let err = decode_metadata_payload(&[0, 1, 2, 3, 4, 5]).unwrap_err();
    assert_eq!(err.code(), ErrorCode::InvalidArgument);
}

#[test]
fn decode_rejects_future_version() {
    let mut payload = b"PTIFF".to_vec();
    payload.extend_from_slice(&99u16.to_le_bytes());
    payload.extend_from_slice(&0u32.to_le_bytes());
    let err = decode_metadata_payload(&to_values(&payload)).unwrap_err();
    assert_eq!(err.code(), ErrorCode::InvalidArgument);
}

#[test]
fn decode_rejects_truncated() {
    let records = vec![rec("a", "longvalue")];
    let payload = encode_metadata_payload(&records).unwrap();
    let byte_values = to_values(&payload);
    let err = decode_metadata_payload(&byte_values[..byte_values.len() - 3]).unwrap_err();
    assert_eq!(err.code(), ErrorCode::InvalidArgument);
}

#[test]
fn records_from_storage_model_strips_prefix() {
    let mut m = StorageModel::new();
    m.set_field("ptiff.spice.frame", "MOUNT");
    m.set_field("ptiff.spice.target", "MARS");
    m.set_field("imageWidth", "64");
    let records = records_from_storage_model(&m, "spice");
    assert_eq!(records, vec![rec("frame", "MOUNT"), rec("target", "MARS")]);
}

#[test]
fn records_from_storage_model_ignores_other_domains() {
    let mut m = StorageModel::new();
    m.set_field("ptiff.camera.k", "fx");
    let records = records_from_storage_model(&m, "spice");
    assert!(records.is_empty());
}

#[test]
fn multi_plan_rejects_a_single_column_of_compressed_tiles() {
    let models = vec![strip_model(16, 16), tiled_model(16, 32, "PackBits", "None")];
    assert!(plan_tiff_write(&models[1]).is_ok());
    let err = plan_tiff_write_multi(&models).unwrap_err();
    assert_eq!(err.code(), ErrorCode::InvalidArgument);
}

#[test]
fn metadata_payload_does_not_depend_on_record_order() {
    let a = encode_metadata_payload(&[rec("b", "2"), rec("a", "1"), rec("c", "3")]).unwrap();
    let b = encode_metadata_payload(&[rec("c", "3"), rec("b", "2"), rec("a", "1")]).unwrap();
    assert_eq!(a, b);
}
