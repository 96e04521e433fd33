//! TIFF/BigTIFF file-header parse and write.
use crate::error::{Error, ErrorCode, Result};
use crate::io::binary_reader::read_count;
use crate::io::binary_writer::overwrite_at;
use crate::io::{BinaryReader, BinaryWriter};
use vstd::prelude::*;

use super::endian::{
    lemma_pow256_values, lemma_uint_round_trip, push_uint, read_u16, read_u32, read_u64,
    uint_bytes, uint_value, Endian,
};

verus! {

/// Byte size of a classic TIFF header.
pub const K_CLASSIC_TIFF_HEADER_SIZE: u64 = 8;

/// Byte size of a BigTIFF header.
pub const K_BIG_TIFF_HEADER_SIZE: u64 = 16;

/// Parsed TIFF/BigTIFF file header: byte order, container kind, and the
/// absolute offset of the first IFD.
#[derive(Debug, Clone, Copy, PartialEq, Eq, Structural)]
pub struct TiffHeader {
    /// The byte order declared in the header.
    pub endian: Endian,
    /// Whether this is a BigTIFF container (magic 43) rather than classic (42).
    pub is_big_tiff: bool,
    /// Absolute file offset of the first IFD.
    pub first_ifd_offset: u64,
}

/// The byte order a two-byte mark declares: "II" little, "MM" big.
pub open spec fn byte_order_of(b0: u8, b1: u8) -> Option<Endian> {
    if b0 == 73 && b1 == 73 {
        Some(Endian::Little)
    } else if b0 == 77 && b1 == 77 {
        Some(Endian::Big)
    } else {
        None
    }
}

/// The header that the bytes `b` (starting at the header's first byte)
/// declare, or `None` when they are not a valid classic/BigTIFF header.
pub open spec fn parse_header(b: Seq<u8>) -> Option<TiffHeader> {
    if b.len() < 8 {
        None
    } else {
        match byte_order_of(b[0], b[1]) {
            None => None,
            Some(e) => {
                let magic = uint_value(b.subrange(2, 4), 2, e);
                if magic == 42 {
                    Some(
                        TiffHeader {
                            endian: e,
                            is_big_tiff: false,
                            first_ifd_offset: uint_value(b.subrange(4, 8), 4, e) as u64,
                        },
                    )
                } else if magic != 43 {
                    None
                } else if uint_value(b.subrange(4, 6), 2, e) != 8 || uint_value(
                    b.subrange(6, 8),
                    2,
                    e,
                ) != 0 {
                    None
                } else if b.len() < 16 {
                    None
                } else {
                    Some(
                        TiffHeader {
                            endian: e,
                            is_big_tiff: true,
                            first_ifd_offset: uint_value(b.subrange(8, 16), 8, e) as u64,
                        },
                    )
                }
            },
        }
    }
}

/// The bytes of `b` from position `pos` on (empty past the end).
pub open spec fn rest(b: Seq<u8>, pos: nat) -> Seq<u8> {
    if pos <= b.len() {
        b.subrange(pos as int, b.len() as int)
    } else {
        Seq::empty()
    }
}

/// Byte size of a header of the given container kind.
pub open spec fn header_size(is_big_tiff: bool) -> nat {
    if is_big_tiff {
        16
    } else {
        8
    }
}

/// The little-endian header bytes `write_tiff_header` emits. A classic
/// header keeps only the low 32 bits of the offset.
pub open spec fn header_bytes(first_ifd_offset: u64, is_big_tiff: bool) -> Seq<u8> {
    if is_big_tiff {
        seq![73u8, 73u8] + uint_bytes(43, 2, Endian::Little) + uint_bytes(8, 2, Endian::Little)
            + uint_bytes(0, 2, Endian::Little) + uint_bytes(
            first_ifd_offset as nat,
            8,
            Endian::Little,
        )
    } else {
        seq![73u8, 73u8] + uint_bytes(42, 2, Endian::Little) + uint_bytes(
            (first_ifd_offset as nat) % 4294967296,
            4,
            Endian::Little,
        )
    }
}

/// The header bytes take [`header_size`] bytes.
pub proof fn lemma_header_bytes_len(first_ifd_offset: u64, is_big_tiff: bool)
    ensures
        header_bytes(first_ifd_offset, is_big_tiff).len() == header_size(is_big_tiff),
{
    super::endian::lemma_le_bytes_len(43, 2);
    super::endian::lemma_le_bytes_len(42, 2);
    super::endian::lemma_le_bytes_len(8, 2);
    super::endian::lemma_le_bytes_len(0, 2);
    super::endian::lemma_le_bytes_len((first_ifd_offset as nat) % 4294967296, 4);
    super::endian::lemma_le_bytes_len(first_ifd_offset as nat, 8);
}

fn read_byte_order(b0: u8, b1: u8) -> (r: Result<Endian>)
    ensures
        r is Ok <==> byte_order_of(b0, b1) is Some,
        r matches Ok(e) ==> byte_order_of(b0, b1) == Some(e),
        r matches Err(e) ==> e.kind() == ErrorCode::InvalidArgument,
{
    if b0 == 73u8 && b1 == 73u8 {
        Ok(Endian::Little)
    } else if b0 == 77u8 && b1 == 77u8 {
        Ok(Endian::Big)
    } else {
        Err(Error::invalid_argument("read_tiff_header: unrecognized byte-order mark"))
    }
}

/// Reads and validates the 8-byte classic or 16-byte BigTIFF header starting
/// at `reader`'s cursor. A result is exactly the header the input declares;
/// input that declares none fails ([`ErrorCode::InvalidArgument`] unless the
/// transport itself fails).
pub fn read_tiff_header<R: BinaryReader>(reader: &mut R) -> (r: Result<TiffHeader>)
    ensures
        final(reader).bytes() == old(reader).bytes(),
        r matches Ok(h) ==> parse_header(rest(old(reader).bytes(), old(reader).pos())) == Some(h),
        r matches Ok(h) ==> final(reader).pos() == old(reader).pos() + header_size(h.is_big_tiff),
        parse_header(rest(old(reader).bytes(), old(reader).pos())) is None ==> r is Err,
        old(reader).reliable() ==> (r is Ok <==> parse_header(
            rest(old(reader).bytes(), old(reader).pos()),
        ) is Some),
        final(reader).reliable() == old(reader).reliable(),
{
    let ghost b = rest(reader.bytes(), reader.pos());
    let ghost p0 = reader.pos();
    let mut raw: Vec<u8> = vec![0u8; 8];
    let first_read = reader.read(raw.as_mut_slice())?;
    if first_read != 8 {
        return Err(Error::invalid_argument("read_tiff_header: file shorter than a TIFF header"));
    }
    assert(raw@ =~= b.subrange(0, 8));
    let endian = read_byte_order(raw[0], raw[1])?;
    let magic = read_u16(vstd::slice::slice_subrange(raw.as_slice(), 2, 4), endian);
    assert(raw@.subrange(2, 4) =~= b.subrange(2, 4));
    assert(raw@.subrange(4, 8) =~= b.subrange(4, 8));
    assert(raw@.subrange(2, 4).subrange(0, 2) =~= raw@.subrange(2, 4));
    assert(raw@.subrange(4, 8).subrange(0, 4) =~= raw@.subrange(4, 8));
    if magic == 42 {
        let offset = read_u32(vstd::slice::slice_subrange(raw.as_slice(), 4, 8), endian) as u64;
        return Ok(TiffHeader { endian, is_big_tiff: false, first_ifd_offset: offset });
    }
    if magic != 43 {
        return Err(Error::invalid_argument("read_tiff_header: unrecognized magic number"));
    }
    let offset_byte_size = read_u16(vstd::slice::slice_subrange(raw.as_slice(), 4, 6), endian);
    let constant_zero = read_u16(vstd::slice::slice_subrange(raw.as_slice(), 6, 8), endian);
    assert(raw@.subrange(4, 6).subrange(0, 2) =~= b.subrange(4, 6).subrange(0, 2));
    assert(raw@.subrange(6, 8).subrange(0, 2) =~= b.subrange(6, 8).subrange(0, 2));
    if offset_byte_size != 8 || constant_zero != 0 {
        return Err(Error::invalid_argument("read_tiff_header: malformed BigTIFF header fields"));
    }
    let mut raw2: Vec<u8> = vec![0u8; 8];
    let second_read = reader.read(raw2.as_mut_slice())?;
    if second_read != 8 {
        return Err(
            Error::invalid_argument("read_tiff_header: file shorter than a BigTIFF header"),
        );
    }
    assert(raw2@ =~= b.subrange(8, 16));
    assert(raw2@.subrange(0, 8) =~= b.subrange(8, 16).subrange(0, 8));
    assert(uint_value(raw2@, 8, endian) == uint_value(b.subrange(8, 16), 8, endian));
    let offset = read_u64(raw2.as_slice(), endian);
    Ok(TiffHeader { endian, is_big_tiff: true, first_ifd_offset: offset })
}

/// Builds the header bytes for `first_ifd_offset` and the container kind.
fn header_byte_vec(first_ifd_offset: u64, is_big_tiff: bool) -> (v: Vec<u8>)
    ensures
        v@ == header_bytes(first_ifd_offset, is_big_tiff),
        v@.len() == header_size(is_big_tiff),
{
    proof {
        lemma_pow256_values();
        super::endian::lemma_le_bytes_len(43, 2);
        super::endian::lemma_le_bytes_len(42, 2);
        super::endian::lemma_le_bytes_len(8, 2);
        super::endian::lemma_le_bytes_len(0, 2);
        super::endian::lemma_le_bytes_len((first_ifd_offset as nat) % 4294967296, 4);
        super::endian::lemma_le_bytes_len(first_ifd_offset as nat, 8);
    }
    let mut v: Vec<u8> = Vec::new();
    v.push(73u8);
    v.push(73u8);
    if !is_big_tiff {
        push_uint(&mut v, 42, 2, Endian::Little);
        push_uint(&mut v, first_ifd_offset % 4294967296, 4, Endian::Little);
    } else {
        push_uint(&mut v, 43, 2, Endian::Little);
        push_uint(&mut v, 8, 2, Endian::Little);
        push_uint(&mut v, 0, 2, Endian::Little);
        push_uint(&mut v, first_ifd_offset, 8, Endian::Little);
    }
    assert(v@ =~= header_bytes(first_ifd_offset, is_big_tiff));
    v
}

/// Writes the classic 8-byte (`is_big_tiff == false`, offset truncated to 32
/// bits) or BigTIFF 16-byte little-endian header at `writer`'s cursor.
/// A short write fails with [`ErrorCode::InvalidArgument`].
pub fn write_tiff_header<W: BinaryWriter>(
    writer: &mut W,
    first_ifd_offset: u64,
    is_big_tiff: bool,
) -> (r: Result<()>)
    ensures
        r is Ok ==> final(writer).bytes() == overwrite_at(
            old(writer).bytes(),
            old(writer).pos(),
            header_bytes(first_ifd_offset, is_big_tiff),
        ),
        r is Ok ==> final(writer).pos() == old(writer).pos() + header_size(is_big_tiff),
        old(writer).reliable() && old(writer).pos() + header_size(is_big_tiff) <= usize::MAX
            ==> r is Ok,
        final(writer).reliable() == old(writer).reliable(),
{
    let header = header_byte_vec(first_ifd_offset, is_big_tiff);
    let n = writer.write(header.as_slice())?;
    if n != header.len() {
        return Err(Error::invalid_argument("write_tiff_header: short write"));
    }
    assert(header@.subrange(0, n as int) =~= header@);
    Ok(())
}

/// A header written for an offset (below 2^32 for classic TIFF) parses back
/// to the same header, whatever follows it.
pub proof fn lemma_header_round_trip(first_ifd_offset: u64, is_big_tiff: bool, tail: Seq<u8>)
    requires
        !is_big_tiff ==> first_ifd_offset < 4294967296,
    ensures
        parse_header(header_bytes(first_ifd_offset, is_big_tiff) + tail) == Some(
            TiffHeader { endian: Endian::Little, is_big_tiff, first_ifd_offset },
        ),
{
    lemma_pow256_values();
    let b = header_bytes(first_ifd_offset, is_big_tiff) + tail;
    let magic_bytes = uint_bytes(if is_big_tiff { 43 } else { 42 }, 2, Endian::Little);
    lemma_uint_round_trip(if is_big_tiff { 43 } else { 42 }, 2, Endian::Little);
    assert(b.subrange(2, 4) =~= magic_bytes);
    if is_big_tiff {
        lemma_uint_round_trip(8, 2, Endian::Little);
        lemma_uint_round_trip(0, 2, Endian::Little);
        lemma_uint_round_trip(first_ifd_offset as nat, 8, Endian::Little);
        assert(b.subrange(4, 6) =~= uint_bytes(8, 2, Endian::Little));
        assert(b.subrange(6, 8) =~= uint_bytes(0, 2, Endian::Little));
        assert(b.subrange(8, 16) =~= uint_bytes(first_ifd_offset as nat, 8, Endian::Little));
    } else {
        lemma_uint_round_trip(first_ifd_offset as nat, 4, Endian::Little);
        assert(b.subrange(4, 8) =~= uint_bytes(first_ifd_offset as nat, 4, Endian::Little));
    }
}

} // verus!
