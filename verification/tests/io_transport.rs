use ptiff_core::io::{
    read_exact_or, write_all_or, BinaryReader, BinaryWriter, MemoryBinaryReader, MemoryBinaryWriter,
    StorageModel,
};
use ptiff_core::ErrorCode;

// ---- storage model ----------------------------------------------------

#[test]
fn set_and_read_field() {
    let mut m = StorageModel::new();
    m.set_field("width", "64");
    assert_eq!(m.field("width").unwrap(), "64");
    assert_eq!(m.field_count(), 1);
}

#[test]
fn set_field_overwrites() {
    let mut m = StorageModel::new();
    m.set_field("model", "HiRISE");
    m.set_field("model", "CTX");
    assert_eq!(m.field("model").unwrap(), "CTX");
    assert_eq!(m.field_count(), 1);
}

#[test]
fn missing_field_is_not_found() {
    let m = StorageModel::new();
    let err = m.field("missing").unwrap_err();
    assert_eq!(err.code(), ErrorCode::NotFound);
}

#[test]
fn for_each_field_is_ascending_key_order() {
    let mut m = StorageModel::new();
    m.set_field("b", "2");
    m.set_field("a", "1");
    m.set_field("c", "3");
    let mut order = Vec::new();
    m.for_each_field(|k, v| order.push((k.to_string(), v.to_string())));
    assert_eq!(
        order,
        vec![
            ("a".to_string(), "1".to_string()),
            ("b".to_string(), "2".to_string()),
            ("c".to_string(), "3".to_string()),
        ]
    );
}

#[test]
fn children_form_an_owning_tree() {
    let mut scene = StorageModel::new();
    let mut image = StorageModel::new();
    image.set_field("width", "64");
    let mut camera = StorageModel::new();
    camera.set_field("name", "left");
    scene.add_child(image);
    scene.add_child(camera);
    assert_eq!(scene.child_count(), 2);
    assert_eq!(scene.children()[0].field("width").unwrap(), "64");
    assert_eq!(scene.children()[1].field("name").unwrap(), "left");
}

#[test]
fn field_at_walks_fields_in_key_order() {
    let mut m = StorageModel::new();
    m.set_field("zeta", "26");
    m.set_field("alpha", "1");
    assert_eq!(m.field_at(0), ("alpha", "1"));
    assert_eq!(m.field_at(1), ("zeta", "26"));
}

// ---- the reader and writer contracts ------------------------------------

#[test]
fn reader_wraps_around_input() {
    let mut r = MemoryBinaryReader::from_slice(b"abcdef");
    let mut buf = [0u8; 4];
    assert_eq!(r.read(&mut buf).unwrap(), 4);
    assert_eq!(&buf, b"abcd");
    assert_eq!(r.position().unwrap(), 4);
    r.seek(0).unwrap();
    assert_eq!(r.position().unwrap(), 0);
    assert_eq!(r.size().unwrap(), 6);
}

#[test]
fn seek_past_end_fails() {
    let mut r = MemoryBinaryReader::from_slice(b"abcd");
    assert!(r.seek(99).is_err());
}

#[test]
fn read_exact_or_ok_and_eof() {
    let mut r = MemoryBinaryReader::from_slice(b"abcd");
    let mut buf = [0u8; 4];
    assert!(read_exact_or(&mut r, &mut buf, "test").is_ok());
    let mut eof = [0u8; 8];
    let err = read_exact_or(&mut r, &mut eof, "test").unwrap_err();
    assert_eq!(err.code(), ErrorCode::OutOfRange);
    assert_eq!(err.message(), "unexpected end of input while reading test: wanted 8 bytes, got 0");
}

#[test]
fn writer_appends_and_remembers_position() {
    let mut w = MemoryBinaryWriter::new();
    assert_eq!(w.write(b"ab").unwrap(), 2);
    assert_eq!(w.write(b"cd").unwrap(), 2);
    assert_eq!(w.position().unwrap(), 4);
    assert_eq!(w.buffer(), b"abcd");
}

#[test]
fn write_all_or_ok() {
    let mut w = MemoryBinaryWriter::new();
    assert!(write_all_or(&mut w, b"hello", "test").is_ok());
    assert_eq!(w.buffer(), b"hello");
}

#[test]
fn flush_is_safe() {
    let mut w = MemoryBinaryWriter::new();
    assert!(w.flush().is_ok());
}

// ---- in-memory reader -------------------------------------------------

#[test]
fn reads_bytes_from_buffer() {
    let mut r = MemoryBinaryReader::new(b"abcdef".to_vec());
    assert_eq!(r.size().unwrap(), 6);
    let mut buf = [0u8; 4];
    assert_eq!(r.read(&mut buf).unwrap(), 4);
    assert_eq!(&buf, b"abcd");
    assert_eq!(r.position().unwrap(), 4);
}

#[test]
fn read_at_end_returns_zero() {
    let mut r = MemoryBinaryReader::from_vec(b"abc".to_vec());
    let mut full = [0u8; 3];
    assert_eq!(r.read(&mut full).unwrap(), 3);
    let mut buf = [0u8; 1];
    assert_eq!(r.read(&mut buf).unwrap(), 0);
}

#[test]
fn seek_and_reposition() {
    let mut r = MemoryBinaryReader::from_vec(b"abcdef".to_vec());
    r.seek(3).unwrap();
    let mut buf = [0u8; 2];
    assert_eq!(r.read(&mut buf).unwrap(), 2);
    assert_eq!(&buf, b"de");
    r.seek(0).unwrap();
    assert_eq!(r.position().unwrap(), 0);
}

#[test]
fn memory_binary_reader_seek_past_end_is_invalid_argument() {
    let mut r = MemoryBinaryReader::from_vec(b"abc".to_vec());
    let err = r.seek(99).unwrap_err();
    assert_eq!(err.code(), ErrorCode::InvalidArgument);
    assert_eq!(err.message(), "MemoryBinaryReader::seek: offset beyond the buffer extent");
}

#[test]
fn constructors_cover_arc_and_vec_and_slice() {
    assert_eq!(MemoryBinaryReader::from_vec(vec![1, 2, 3]).len(), 3);
    assert_eq!(MemoryBinaryReader::from_slice(&[9]).len(), 1);
    assert!(MemoryBinaryReader::from_vec(Vec::new()).is_empty());
}

// ---- in-memory writer -------------------------------------------------

#[test]
fn appends_in_order() {
    let mut w = MemoryBinaryWriter::new();
    assert_eq!(w.write(b"ab").unwrap(), 2);
    assert_eq!(w.write(b"cd").unwrap(), 2);
    assert_eq!(w.buffer(), b"abcd");
    assert_eq!(w.position().unwrap(), 4);
    assert_eq!(w.len(), 4);
}

#[test]
fn overwrite_in_place_at_cursor() {
    let mut w = MemoryBinaryWriter::new();
    w.write(b"abcdef").unwrap();
    w.seek(1).unwrap();
    w.write(b"XY").unwrap();
    assert_eq!(w.buffer(), b"aXYdef");
    assert_eq!(w.position().unwrap(), 3);
}

#[test]
fn write_past_buffer_grows_and_zero_fills() {
    let mut w = MemoryBinaryWriter::new();
    w.write(b"ab").unwrap();
    w.write(b"cde").unwrap();
    assert_eq!(w.buffer(), b"abcde");
}

#[test]
fn memory_binary_writer_seek_past_end_is_invalid_argument() {
    let mut w = MemoryBinaryWriter::new();
    w.write(b"abc").unwrap();
    let err = w.seek(99).unwrap_err();
    assert_eq!(err.code(), ErrorCode::InvalidArgument);
    assert_eq!(err.message(), "MemoryBinaryWriter::seek: offset beyond the current buffer extent");
}

#[test]
fn flush_is_a_noop_success() {
    let mut w = MemoryBinaryWriter::new();
    w.flush().unwrap();
}

#[test]
fn take_buffer_moves_out_and_resets_cursor() {
    let mut w = MemoryBinaryWriter::new();
    w.write(b"hello").unwrap();
    let out = w.take_buffer();
    assert_eq!(out, b"hello");
    assert_eq!(w.len(), 0);
    assert!(w.is_empty());
    assert_eq!(w.position().unwrap(), 0);
}
