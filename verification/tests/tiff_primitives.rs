use ptiff_core::io::backend::tiff::checked_arithmetic::{checked_add_size, checked_mul_size};
use ptiff_core::io::backend::tiff::{
    bits_per_sample_for, bytes_per_sample, checked_add_u64, checked_mul_u64, field_type_size,
    pixel_type_field_value, pixel_type_from_field_value, read_u16, read_u32, read_u64,
    require_uniform_bits_per_sample, resolve_pixel_type, sample_format_for, write_u16, write_u32,
    write_u64, Endian, FieldType, TagId, K_MAX_TAG_COUNT, K_PRIVATE_TAG_BASE,
};
use ptiff_core::{ErrorCode, PixelType};

// ---- byte order -------------------------------------------------------

#[test]
fn read_u16_honors_byte_order() {
    assert_eq!(read_u16(&[0x34, 0x12], Endian::Little), 0x1234);
    assert_eq!(read_u16(&[0x12, 0x34], Endian::Big), 0x1234);
}

#[test]
fn read_u32_honors_byte_order() {
    assert_eq!(read_u32(&[0x78, 0x56, 0x34, 0x12], Endian::Little), 0x12345678);
    assert_eq!(read_u32(&[0x12, 0x34, 0x56, 0x78], Endian::Big), 0x12345678);
}

#[test]
fn read_u64_honors_byte_order() {
    assert_eq!(
        read_u64(&[0xF0, 0xDE, 0xBC, 0x9A, 0x78, 0x56, 0x34, 0x12], Endian::Little),
        0x123456789ABCDEF0
    );
    assert_eq!(
        read_u64(&[0x12, 0x34, 0x56, 0x78, 0x9A, 0xBC, 0xDE, 0xF0], Endian::Big),
        0x123456789ABCDEF0
    );
}

#[test]
fn readers_only_consume_leading_bytes() {
    assert_eq!(read_u16(&[0x01, 0x00, 0xFF, 0xFF], Endian::Little), 1);
}

#[test]
fn write_u16_honors_byte_order() {
    let mut little = [0u8; 2];
    write_u16(&mut little, 0x1234, Endian::Little);
    assert_eq!(little, [0x34, 0x12]);
    let mut big = [0u8; 2];
    write_u16(&mut big, 0x1234, Endian::Big);
    assert_eq!(big, [0x12, 0x34]);
}

#[test]
fn write_u32_honors_byte_order() {
    let mut little = [0u8; 4];
    write_u32(&mut little, 0x12345678, Endian::Little);
    assert_eq!(little, [0x78, 0x56, 0x34, 0x12]);
    let mut big = [0u8; 4];
    write_u32(&mut big, 0x12345678, Endian::Big);
    assert_eq!(big, [0x12, 0x34, 0x56, 0x78]);
}

#[test]
fn write_u64_honors_byte_order() {
    let mut little = [0u8; 8];
    write_u64(&mut little, 0x123456789ABCDEF0, Endian::Little);
    assert_eq!(little, [0xF0, 0xDE, 0xBC, 0x9A, 0x78, 0x56, 0x34, 0x12]);
    let mut big = [0u8; 8];
    write_u64(&mut big, 0x123456789ABCDEF0, Endian::Big);
    assert_eq!(big, [0x12, 0x34, 0x56, 0x78, 0x9A, 0xBC, 0xDE, 0xF0]);
}

#[test]
fn write_then_read_round_trips() {
    let mut a = [0u8; 2];
    write_u16(&mut a, 0xBEEF, Endian::Big);
    assert_eq!(read_u16(&a, Endian::Big), 0xBEEF);
    let mut b = [0u8; 4];
    write_u32(&mut b, 0xDEADBEEF, Endian::Little);
    assert_eq!(read_u32(&b, Endian::Little), 0xDEADBEEF);
    let mut c = [0u8; 8];
    write_u64(&mut c, 0x0011223344556677, Endian::Little);
    assert_eq!(read_u64(&c, Endian::Little), 0x0011223344556677);
}

#[test]
fn write_then_read_round_trips_every_order() {
    for endian in [Endian::Little, Endian::Big] {
        let mut b = [0u8; 8];
        write_u64(&mut b, 0xFEDC_BA98_7654_3210, endian);
        assert_eq!(read_u64(&b, endian), 0xFEDC_BA98_7654_3210);
        write_u32(&mut b, 0x0102_0304, endian);
        assert_eq!(read_u32(&b, endian), 0x0102_0304);
    }
}

// ---- tags -------------------------------------------------------------

#[test]
fn tag_ids_match_baseline_tiff() {
    assert_eq!(TagId::ImageWidth.as_u16(), 256);
    assert_eq!(TagId::TileOffsets.as_u16(), 324);
    assert_eq!(TagId::SampleFormat.as_u16(), 339);
}

#[test]
fn ptiff_extension_tags_live_in_private_range() {
    for tag in [
        TagId::PtiffSpice,
        TagId::PtiffCameraGeometry,
        TagId::PtiffCrs,
        TagId::PtiffScientificLayers,
        TagId::PtiffProvenance,
    ] {
        assert!(tag.as_u16() >= K_PRIVATE_TAG_BASE, "tag above private base");
        assert!((65001..=65005).contains(&tag.as_u16()), "extension tag in RFC-7002 range");
    }
}

#[test]
fn field_type_from_raw_round_trips() {
    assert_eq!(FieldType::from_u16(1), Some(FieldType::Byte));
    assert_eq!(FieldType::from_u16(3), Some(FieldType::Short));
    assert_eq!(FieldType::from_u16(4), Some(FieldType::Long));
    assert_eq!(FieldType::from_u16(16), Some(FieldType::Long8));
    assert_eq!(FieldType::from_u16(2), None);
    assert_eq!(FieldType::from_u16(5), None);
    assert_eq!(FieldType::from_u16(11), None);
    assert_eq!(FieldType::from_u16(12), None);
    assert_eq!(FieldType::from_u16(0), None);
    assert_eq!(FieldType::from_u16(999), None);
}

#[test]
fn field_type_sizes() {
    assert_eq!(field_type_size(FieldType::Byte), Some(1));
    assert_eq!(field_type_size(FieldType::Short), Some(2));
    assert_eq!(field_type_size(FieldType::Long), Some(4));
    assert_eq!(field_type_size(FieldType::Long8), Some(8));
}

// ---- checked arithmetic -----------------------------------------------

#[test]
fn addition_ok_and_overflow() {
    assert_eq!(checked_add_u64(1, 2).unwrap(), 3);
    assert!(checked_add_u64(u64::MAX, 1).is_err());
    assert!(checked_add_size(usize::MAX, 1).is_err());
}

#[test]
fn multiplication_ok_and_overflow() {
    assert_eq!(checked_mul_u64(6, 7).unwrap(), 42);
    assert!(checked_mul_u64(u64::MAX, 2).is_err());
    assert!(checked_mul_size(usize::MAX, 2).is_err());
}

#[test]
fn zero_multiplication_never_overflows() {
    assert_eq!(checked_mul_u64(0, u64::MAX).unwrap(), 0);
    assert_eq!(checked_mul_size(0, usize::MAX).unwrap(), 0);
}

#[test]
fn max_tag_count_is_sane() {
    assert_eq!(K_MAX_TAG_COUNT, 64 * 1024 * 1024);
}

#[test]
fn overflow_errors_are_invalid_argument() {
    let e = checked_add_u64(u64::MAX, 1).unwrap_err();
    assert_eq!(e.code(), ErrorCode::InvalidArgument);
}

// ---- pixel formats ----------------------------------------------------

#[test]
fn resolve_unsigned_integer_formats() {
    assert_eq!(resolve_pixel_type(8, 1).unwrap(), PixelType::UInt8);
    assert_eq!(resolve_pixel_type(16, 1).unwrap(), PixelType::UInt16);
    assert_eq!(resolve_pixel_type(32, 1).unwrap(), PixelType::UInt32);
}

#[test]
fn resolve_32_bit_float() {
    assert_eq!(resolve_pixel_type(32, 3).unwrap(), PixelType::Float32);
}

#[test]
fn resolve_64_bit_float() {
    assert_eq!(resolve_pixel_type(64, 3).unwrap(), PixelType::Float64);
}

#[test]
fn reject_float_at_unsupported_bit_depth() {
    let e = resolve_pixel_type(16, 3).unwrap_err();
    assert_eq!(e.code(), ErrorCode::InvalidArgument);
}

#[test]
fn reject_unsupported_bits_per_sample() {
    let e = resolve_pixel_type(12, 1).unwrap_err();
    assert_eq!(e.code(), ErrorCode::InvalidArgument);
}

#[test]
fn reject_unsupported_sample_format() {
    let e = resolve_pixel_type(8, 2).unwrap_err();
    assert_eq!(e.code(), ErrorCode::InvalidArgument);
}

#[test]
fn uniform_bits_per_sample_accepted() {
    require_uniform_bits_per_sample(&[8, 8, 8]).unwrap();
}

#[test]
fn non_uniform_bits_per_sample_rejected() {
    let e = require_uniform_bits_per_sample(&[8, 16, 8]).unwrap_err();
    assert_eq!(e.code(), ErrorCode::InvalidArgument);
}

#[test]
fn empty_bits_per_sample_rejected() {
    let e = require_uniform_bits_per_sample(&[]).unwrap_err();
    assert_eq!(e.code(), ErrorCode::InvalidArgument);
}

#[test]
fn field_value_names_every_supported_type() {
    assert_eq!(pixel_type_field_value(PixelType::UInt8), "UInt8");
    assert_eq!(pixel_type_field_value(PixelType::UInt16), "UInt16");
    assert_eq!(pixel_type_field_value(PixelType::UInt32), "UInt32");
    assert_eq!(pixel_type_field_value(PixelType::Float32), "Float32");
    assert_eq!(pixel_type_field_value(PixelType::Float64), "Float64");
}

#[test]
fn bytes_per_sample_maps_every_type() {
    assert_eq!(bytes_per_sample(PixelType::UInt8), 1);
    assert_eq!(bytes_per_sample(PixelType::UInt16), 2);
    assert_eq!(bytes_per_sample(PixelType::UInt32), 4);
    assert_eq!(bytes_per_sample(PixelType::Float32), 4);
    assert_eq!(bytes_per_sample(PixelType::Float64), 8);
}

#[test]
fn field_value_round_trip_is_inverse() {
    for t in [
        PixelType::UInt8,
        PixelType::UInt16,
        PixelType::UInt32,
        PixelType::Float32,
        PixelType::Float64,
    ] {
        assert_eq!(pixel_type_from_field_value(pixel_type_field_value(t)).unwrap(), t);
    }
}

#[test]
fn unknown_field_value_rejected() {
    let e = pixel_type_from_field_value("NotAPixelType").unwrap_err();
    assert_eq!(e.code(), ErrorCode::InvalidArgument);
}

#[test]
fn bits_and_sample_format_round_trip_through_resolve() {
    for t in [
        PixelType::UInt8,
        PixelType::UInt16,
        PixelType::UInt32,
        PixelType::Float32,
        PixelType::Float64,
    ] {
        assert_eq!(
            resolve_pixel_type(u64::from(bits_per_sample_for(t)), u64::from(sample_format_for(t)))
                .unwrap(),
            t
        );
    }
}
