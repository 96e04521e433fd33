use ptiff_core::io::backend::tiff::header::{K_BIG_TIFF_HEADER_SIZE, K_CLASSIC_TIFF_HEADER_SIZE};
use ptiff_core::io::backend::tiff::ifd::read_tiff_ifd;
use ptiff_core::io::backend::tiff::{read_tiff_header, write_tiff_header, Endian};
use ptiff_core::io::{MemoryBinaryReader, MemoryBinaryWriter};
use ptiff_core::ErrorCode;

fn vec_reader(bytes: &[u8]) -> MemoryBinaryReader {
    MemoryBinaryReader::from_slice(bytes)
}

fn reader(bytes: Vec<u8>) -> MemoryBinaryReader {
    MemoryBinaryReader::from_vec(bytes)
}

// ---- header ----------------------------------------------------------

#[test]
fn parse_classic_little_endian_header() {
    let mut r = vec_reader(&[b'I', b'I', 0x2A, 0x00, 0x08, 0x00, 0x00, 0x00]);
    let h = read_tiff_header(&mut r).unwrap();
    assert_eq!(h.endian, Endian::Little);
    assert!(!h.is_big_tiff);
    assert_eq!(h.first_ifd_offset, 8);
}

#[test]
fn parse_classic_big_endian_header() {
    let mut r = vec_reader(&[b'M', b'M', 0x00, 0x2A, 0x00, 0x00, 0x00, 0x10]);
    let h = read_tiff_header(&mut r).unwrap();
    assert_eq!(h.endian, Endian::Big);
    assert!(!h.is_big_tiff);
    assert_eq!(h.first_ifd_offset, 16);
}

#[test]
fn parse_big_tiff_little_endian_header() {
    let mut r = vec_reader(&[
        b'I', b'I', 0x2B, 0x00, 0x08, 0x00, 0x00, 0x00, //
        0x10, 0x00, 0x00, 0x00, 0x00, 0x00, 0x00, 0x00,
    ]);
    let h = read_tiff_header(&mut r).unwrap();
    assert_eq!(h.endian, Endian::Little);
    assert!(h.is_big_tiff);
    assert_eq!(h.first_ifd_offset, 16);
}

#[test]
fn parse_big_tiff_big_endian_header() {
    let mut r = vec_reader(&[
        b'M', b'M', 0x00, 0x2B, 0x00, 0x08, 0x00, 0x00, //
        0x00, 0x00, 0x00, 0x00, 0x00, 0x00, 0x00, 0x20,
    ]);
    let h = read_tiff_header(&mut r).unwrap();
    assert_eq!(h.endian, Endian::Big);
    assert!(h.is_big_tiff);
    assert_eq!(h.first_ifd_offset, 32);
}

#[test]
fn reject_unrecognized_byte_order_mark() {
    let mut r = vec_reader(&[b'X', b'X', 0x2A, 0x00, 0x08, 0x00, 0x00, 0x00]);
    let e = read_tiff_header(&mut r).unwrap_err();
    assert_eq!(e.code(), ErrorCode::InvalidArgument);
}

#[test]
fn reject_unrecognized_magic_number() {
    let mut r = vec_reader(&[b'I', b'I', 0x99, 0x00, 0x08, 0x00, 0x00, 0x00]);
    let e = read_tiff_header(&mut r).unwrap_err();
    assert_eq!(e.code(), ErrorCode::InvalidArgument);
}

#[test]
fn reject_truncated_file() {
    let mut r = vec_reader(&[b'I', b'I', 0x2A]);
    let e = read_tiff_header(&mut r).unwrap_err();
    assert_eq!(e.code(), ErrorCode::InvalidArgument);
}

#[test]
fn reject_malformed_big_tiff_offset_byte_size() {
    let mut r = vec_reader(&[
        b'I', b'I', 0x2B, 0x00, 0x04, 0x00, 0x00, 0x00, 0x10, 0x00, 0x00, 0x00, 0x00, 0x00, 0x00,
        0x00,
    ]);
    let e = read_tiff_header(&mut r).unwrap_err();
    assert_eq!(e.code(), ErrorCode::InvalidArgument);
}

#[test]
fn write_classic_header() {
    assert_eq!(K_CLASSIC_TIFF_HEADER_SIZE, 8);
    let mut w = MemoryBinaryWriter::new();
    write_tiff_header(&mut w, 8, false).unwrap();
    assert_eq!(w.buffer(), &[b'I', b'I', 0x2A, 0x00, 8, 0, 0, 0]);
}

#[test]
fn write_classic_header_arbitrary_offset() {
    let mut w = MemoryBinaryWriter::new();
    write_tiff_header(&mut w, 0x0000_01A2, false).unwrap();
    assert_eq!(w.buffer(), &[b'I', b'I', 0x2A, 0x00, 0xA2, 0x01, 0x00, 0x00]);
}

#[test]
fn write_big_tiff_header() {
    assert_eq!(K_BIG_TIFF_HEADER_SIZE, 16);
    let mut w = MemoryBinaryWriter::new();
    write_tiff_header(&mut w, 16, true).unwrap();
    assert_eq!(w.buffer(), &[b'I', b'I', 0x2B, 0x00, 8, 0, 0, 0, 16, 0, 0, 0, 0, 0, 0, 0]);
}

#[test]
fn write_big_tiff_header_arbitrary_offset() {
    let mut w = MemoryBinaryWriter::new();
    write_tiff_header(&mut w, 0x0000_0001_0000_01A2, true).unwrap();
    assert_eq!(
        w.buffer(),
        &[b'I', b'I', 0x2B, 0x00, 8, 0, 0, 0, 0xA2, 0x01, 0x00, 0x00, 0x01, 0x00, 0x00, 0x00]
    );
}

#[test]
fn written_header_reads_back() {
    for big in [false, true] {
        let mut w = MemoryBinaryWriter::new();
        write_tiff_header(&mut w, 0x1234, big).unwrap();
        let mut r = MemoryBinaryReader::from_vec(w.take_buffer());
        let h = read_tiff_header(&mut r).unwrap();
        assert_eq!(h.endian, Endian::Little);
        assert_eq!(h.is_big_tiff, big);
        assert_eq!(h.first_ifd_offset, 0x1234);
    }
}

// ---- IFD reading -----------------------------------------------------

#[test]
fn resolve_inline_short_entry() {
    let mut r = reader(vec![
        0x01, 0x00, //
        0x00, 0x01, 0x03, 0x00, 0x01, 0x00, 0x00, 0x00, 0x07, 0x00, 0x00, 0x00, //
        0x00, 0x00, 0x00, 0x00,
    ]);
    let ifd = read_tiff_ifd(&mut r, 0, Endian::Little, false).unwrap();
    assert_eq!(ifd.single_value(256).unwrap(), 7);
}

#[test]
fn resolve_inline_long_entry() {
    let mut r = reader(vec![
        0x01, 0x00, //
        0x11, 0x01, 0x04, 0x00, 0x01, 0x00, 0x00, 0x00, 0xC8, 0x00, 0x00, 0x00, //
        0x00, 0x00, 0x00, 0x00,
    ]);
    let ifd = read_tiff_ifd(&mut r, 0, Endian::Little, false).unwrap();
    assert_eq!(ifd.single_value(273).unwrap(), 200);
}

#[test]
fn resolve_offset_indirected_array_entry() {
    let mut data = vec![
        0x01, 0x00, //
        0x02, 0x01, 0x03, 0x00, 0x03, 0x00, 0x00, 0x00, 0x1E, 0x00, 0x00, 0x00, //
        0x00, 0x00, 0x00, 0x00,
    ];
    data.resize(30, 0);
    data.extend_from_slice(&[0x08, 0x00, 0x08, 0x00, 0x08, 0x00]);
    let mut r = reader(data);
    let ifd = read_tiff_ifd(&mut r, 0, Endian::Little, false).unwrap();
    assert_eq!(ifd.tag(258).unwrap(), &[8, 8, 8]);
}

#[test]
fn resolve_big_tiff_long8_entry() {
    let mut r = reader(vec![
        0x01, 0x00, 0x00, 0x00, 0x00, 0x00, 0x00, 0x00, //
        0x11, 0x01, 0x10, 0x00, //
        0x01, 0x00, 0x00, 0x00, 0x00, 0x00, 0x00, 0x00, //
        0x00, 0x02, 0x00, 0x00, 0x00, 0x00, 0x00, 0x00, //
        0x00, 0x00, 0x00, 0x00, 0x00, 0x00, 0x00, 0x00,
    ]);
    let ifd = read_tiff_ifd(&mut r, 0, Endian::Little, true).unwrap();
    assert_eq!(ifd.single_value(273).unwrap(), 512);
}

#[test]
fn skip_unsupported_field_type_entry() {
    let mut r = reader(vec![
        0x01, 0x00, //
        0x00, 0x01, 0x0B, 0x00, 0x01, 0x00, 0x00, 0x00, 0x00, 0x00, 0x00, 0x00, //
        0x00, 0x00, 0x00, 0x00,
    ]);
    let ifd = read_tiff_ifd(&mut r, 0, Endian::Little, false).unwrap();
    let e = ifd.tag(0x0100).unwrap_err();
    assert_eq!(e.code(), ErrorCode::NotFound);
}

#[test]
fn resolve_later_entry_after_skipping_unsupported_one() {
    let mut r = reader(vec![
        0x02, 0x00, //
        0x01, 0x01, 0x0B, 0x00, 0x01, 0x00, 0x00, 0x00, 0x00, 0x00, 0x00, 0x00, //
        0x11, 0x01, 0x04, 0x00, 0x01, 0x00, 0x00, 0x00, 0xC8, 0x00, 0x00, 0x00, //
        0x00, 0x00, 0x00, 0x00,
    ]);
    let ifd = read_tiff_ifd(&mut r, 0, Endian::Little, false).unwrap();
    assert_eq!(ifd.single_value(273).unwrap(), 200);
}

#[test]
fn reject_truncated_entry() {
    let mut r = reader(vec![0x01, 0x00, 0x00, 0x01, 0x03, 0x00]);
    let e = read_tiff_ifd(&mut r, 0, Endian::Little, false).unwrap_err();
    assert_eq!(e.code(), ErrorCode::InvalidArgument);
}

#[test]
fn absent_tag_reports_not_found() {
    let mut r = reader(vec![0x00, 0x00, 0x00, 0x00, 0x00, 0x00]);
    let ifd = read_tiff_ifd(&mut r, 0, Endian::Little, false).unwrap();
    let e = ifd.tag(256).unwrap_err();
    assert_eq!(e.code(), ErrorCode::NotFound);
}

#[test]
fn single_value_or_falls_back_when_absent() {
    let mut r = reader(vec![0x00, 0x00, 0x00, 0x00, 0x00, 0x00]);
    let ifd = read_tiff_ifd(&mut r, 0, Endian::Little, false).unwrap();
    assert_eq!(ifd.single_value_or(284, 1).unwrap(), 1);
}

#[test]
fn reject_entry_count_overflows_total_byte_size() {
    let mut r = reader(vec![
        0x01, 0x00, 0x00, 0x00, 0x00, 0x00, 0x00, 0x00, //
        0x11, 0x01, 0x10, 0x00, //
        0xFF, 0xFF, 0xFF, 0xFF, 0xFF, 0xFF, 0xFF, 0xFF, //
        0x00, 0x00, 0x00, 0x00, 0x00, 0x00, 0x00, 0x00, //
        0x00, 0x00, 0x00, 0x00, 0x00, 0x00, 0x00, 0x00,
    ]);
    let e = read_tiff_ifd(&mut r, 0, Endian::Little, true).unwrap_err();
    assert_eq!(e.code(), ErrorCode::InvalidArgument);
}

#[test]
fn reject_out_of_line_value_exceeding_file() {
    let mut r = reader(vec![
        0x01, 0x00, //
        0x02, 0x01, 0x03, 0x00, 0xFF, 0xFF, 0xFF, 0xFF, 0x1E, 0x00, 0x00, 0x00, //
        0x00, 0x00, 0x00, 0x00,
    ]);
    let e = read_tiff_ifd(&mut r, 0, Endian::Little, false).unwrap_err();
    assert_eq!(e.code(), ErrorCode::InvalidArgument);
}

#[test]
fn parses_next_ifd_offset_chain() {
    let mut data = vec![
        0x01, 0x00, //
        0x00, 0x01, 0x03, 0x00, 0x01, 0x00, 0x00, 0x00, 0x07, 0x00, 0x00, 0x00, //
        30, 0, 0, 0,
    ];
    data.resize(30, 0);
    data.extend_from_slice(&[0x00, 0x00, 0x00, 0x00, 0x00, 0x00]);
    let mut r = reader(data);
    let first = read_tiff_ifd(&mut r, 0, Endian::Little, false).unwrap();
    assert_eq!(first.single_value(256).unwrap(), 7);
    assert_eq!(first.next_ifd_offset(), 30);
    let second = read_tiff_ifd(&mut r, 30, Endian::Little, false).unwrap();
    assert_eq!(second.next_ifd_offset(), 0);
}
