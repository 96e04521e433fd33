use ptiff_core::io::backend::tiff::ifd::read_tiff_ifd;
use ptiff_core::io::backend::tiff::ifd_writer::{
    tiff_ifd_byte_size, value_slot_offsets_relative, write_tiff_ifd, TiffIfdEntryToWrite,
};
use ptiff_core::io::backend::tiff::{read_u16, read_u32, read_u64, Endian, FieldType};
use ptiff_core::io::{MemoryBinaryReader, MemoryBinaryWriter};

fn long_entry(tag: u16, values: Vec<u32>) -> TiffIfdEntryToWrite {
    TiffIfdEntryToWrite::new(tag, FieldType::Long, values)
}

fn short_entry(tag: u16, values: Vec<u32>) -> TiffIfdEntryToWrite {
    TiffIfdEntryToWrite::new(tag, FieldType::Short, values)
}

#[test]
fn value_slot_offsets_relative_match_written_layout() {
    let entries = vec![
        long_entry(325, vec![0, 0, 0]),
        long_entry(256, vec![64]),
        long_entry(324, vec![0, 0, 0]),
    ];
    let fixed_size = 2 + 3 * 12 + 4;
    let slots = value_slot_offsets_relative(&entries, false);
    let image_width_slots = &slots[&256];
    assert_eq!(image_width_slots.len(), 1);
    assert_eq!(image_width_slots[0], 10);
    let offsets_slots = &slots[&324];
    assert_eq!(offsets_slots[0], fixed_size);
    assert_eq!(offsets_slots[1], fixed_size + 4);
    assert_eq!(offsets_slots[2], fixed_size + 8);
    let counts_slots = &slots[&325];
    assert_eq!(counts_slots[0], fixed_size + 12);
    assert_eq!(counts_slots[2], fixed_size + 12 + 8);
    let mut w = MemoryBinaryWriter::new();
    write_tiff_ifd(&mut w, entries, false, 0).unwrap();
    let buf = w.take_buffer();
    for (tag, expected) in [(324u16, offsets_slots), (325, counts_slots)] {
        for (k, addr) in expected.iter().enumerate() {
            let raw = read_u32(&buf[*addr as usize..*addr as usize + 4], Endian::Little);
            assert_eq!(raw, 0, "tag {tag} slot {k} should be the placeholder value");
        }
    }
}

#[test]
fn tiff_ifd_byte_size_classic_kept_inline() {
    let entries = vec![long_entry(256, vec![64])];
    assert_eq!(tiff_ifd_byte_size(&entries, false), 18);
}

#[test]
fn tiff_ifd_byte_size_classic_out_of_line() {
    let entries = vec![long_entry(324, vec![0, 0])];
    assert_eq!(tiff_ifd_byte_size(&entries, false), 26);
}

#[test]
fn tiff_ifd_byte_size_big_tiff_kept_inline() {
    let entries = vec![short_entry(258, vec![8])];
    assert_eq!(tiff_ifd_byte_size(&entries, true), 36);
}

#[test]
fn tiff_ifd_byte_size_big_tiff_out_of_line() {
    let entries = vec![long_entry(324, vec![0, 0, 0])];
    assert_eq!(tiff_ifd_byte_size(&entries, true), 48);
}

#[test]
fn tiff_ifd_byte_size_does_not_depend_on_entry_order() {
    let a = vec![long_entry(324, vec![1, 2, 3]), short_entry(258, vec![8, 8, 8]), long_entry(256, vec![9])];
    let b = vec![long_entry(256, vec![9]), long_entry(324, vec![1, 2, 3]), short_entry(258, vec![8, 8, 8])];
    assert_eq!(tiff_ifd_byte_size(&a, false), tiff_ifd_byte_size(&b, false));
    assert_eq!(tiff_ifd_byte_size(&a, true), tiff_ifd_byte_size(&b, true));
}

#[test]
fn write_tiff_ifd_classic_single_inline() {
    let mut w = MemoryBinaryWriter::new();
    let entries = vec![long_entry(256, vec![64])];
    write_tiff_ifd(&mut w, entries, false, 0).unwrap();
    let buf = w.take_buffer();
    assert_eq!(read_u16(&buf[0..2], Endian::Little), 1);
    assert_eq!(read_u16(&buf[2..4], Endian::Little), 256);
    assert_eq!(read_u16(&buf[4..6], Endian::Little), 4);
    assert_eq!(read_u32(&buf[6..10], Endian::Little), 1);
    assert_eq!(read_u32(&buf[10..14], Endian::Little), 64);
    assert_eq!(read_u32(&buf[14..18], Endian::Little), 0);
    assert_eq!(buf.len(), 18);
}

#[test]
fn write_tiff_ifd_sorts_entries_ascending() {
    let mut w = MemoryBinaryWriter::new();
    let entries = vec![long_entry(257, vec![32]), long_entry(256, vec![64])];
    write_tiff_ifd(&mut w, entries, false, 0).unwrap();
    let buf = w.take_buffer();
    assert_eq!(read_u16(&buf[0..2], Endian::Little), 2);
    assert_eq!(read_u16(&buf[2..4], Endian::Little), 256);
    assert_eq!(read_u16(&buf[14..16], Endian::Little), 257);
}

#[test]
fn write_tiff_ifd_classic_out_of_line_values() {
    let mut w = MemoryBinaryWriter::new();
    let entries = vec![long_entry(324, vec![100, 200, 300])];
    write_tiff_ifd(&mut w, entries, false, 0).unwrap();
    let buf = w.take_buffer();
    assert_eq!(read_u16(&buf[0..2], Endian::Little), 1);
    assert_eq!(read_u16(&buf[2..4], Endian::Little), 324);
    assert_eq!(read_u32(&buf[6..10], Endian::Little), 3);
    assert_eq!(read_u32(&buf[10..14], Endian::Little), 18);
    assert_eq!(read_u32(&buf[14..18], Endian::Little), 0);
    assert_eq!(read_u32(&buf[18..22], Endian::Little), 100);
    assert_eq!(read_u32(&buf[22..26], Endian::Little), 200);
    assert_eq!(read_u32(&buf[26..30], Endian::Little), 300);
    assert_eq!(buf.len(), 30);
}

#[test]
fn write_tiff_ifd_big_tiff_out_of_line_long8() {
    let mut w = MemoryBinaryWriter::new();
    let entries = vec![long_entry(324, vec![1, 2])];
    write_tiff_ifd(&mut w, entries, true, 0).unwrap();
    let buf = w.take_buffer();
    assert_eq!(read_u64(&buf[0..8], Endian::Little), 1);
    assert_eq!(read_u16(&buf[8..10], Endian::Little), 324);
    assert_eq!(read_u16(&buf[10..12], Endian::Little), 4);
    assert_eq!(read_u64(&buf[12..20], Endian::Little), 2);
    assert_eq!(read_u32(&buf[20..24], Endian::Little), 1);
    assert_eq!(read_u32(&buf[24..28], Endian::Little), 2);
    assert_eq!(read_u64(&buf[28..36], Endian::Little), 0);
    assert_eq!(buf.len(), 36);
}

#[test]
fn write_then_read_round_trips_inline() {
    let mut w = MemoryBinaryWriter::new();
    let entries = vec![short_entry(258, vec![8]), long_entry(256, vec![64]), long_entry(257, vec![32])];
    write_tiff_ifd(&mut w, entries, false, 0).unwrap();
    let buf = w.take_buffer();
    let mut r = MemoryBinaryReader::from_vec(buf);
    let ifd = read_tiff_ifd(&mut r, 0, Endian::Little, false).unwrap();
    assert_eq!(ifd.single_value(258).unwrap(), 8);
    assert_eq!(ifd.single_value(256).unwrap(), 64);
    assert_eq!(ifd.single_value(257).unwrap(), 32);
}

#[test]
fn write_then_read_round_trips_out_of_line_big_tiff() {
    let mut w = MemoryBinaryWriter::new();
    let entries = vec![
        TiffIfdEntryToWrite::new_u64(324, FieldType::Long8, vec![1 << 40, 7, 9]),
        short_entry(258, vec![16, 16, 16, 16, 16]),
    ];
    write_tiff_ifd(&mut w, entries, true, 77).unwrap();
    let mut r = MemoryBinaryReader::from_vec(w.take_buffer());
    let ifd = read_tiff_ifd(&mut r, 0, Endian::Little, true).unwrap();
    assert_eq!(ifd.tag(324).unwrap(), &[1 << 40, 7, 9]);
    assert_eq!(ifd.tag(258).unwrap(), &[16, 16, 16, 16, 16]);
    assert_eq!(ifd.next_ifd_offset(), 77);
}
