//! TIFF IFD parse: tag -> resolved value array.
use crate::error::{Error, ErrorCode, Result};
use crate::io::BinaryReader;
use std::collections::BTreeMap;
use vstd::prelude::*;

use super::checked_arithmetic::{checked_add_u64, checked_mul_u64, K_MAX_TAG_COUNT};
use super::endian::{read_uint, uint_value, Endian};
use super::tag::{field_size, field_type_of_code, field_type_size, field_type_size_raw, FieldType, RawTagEntry};

verus! {

broadcast use vstd::std_specs::btree::group_btree_axioms, vstd::laws_cmp::group_laws_cmp;

/// Byte size of an IFD's entry-count field.
pub open spec fn count_field_size(is_big_tiff: bool) -> nat {
    if is_big_tiff {
        8
    } else {
        2
    }
}

/// Byte size of one IFD entry record.
pub open spec fn entry_record_size(is_big_tiff: bool) -> nat {
    if is_big_tiff {
        20
    } else {
        12
    }
}

/// Byte size of an entry's inline value area.
pub open spec fn value_area_size(is_big_tiff: bool) -> nat {
    if is_big_tiff {
        8
    } else {
        4
    }
}

/// Byte size of an IFD's trailing next-IFD offset field.
pub open spec fn next_field_size(is_big_tiff: bool) -> nat {
    if is_big_tiff {
        8
    } else {
        4
    }
}

/// Byte size of `n` entry records.
pub open spec fn table_size(n: nat, is_big_tiff: bool) -> nat {
    if is_big_tiff {
        n * 20
    } else {
        n * 12
    }
}

/// The `n` bytes of `b` starting at `at`.
pub open spec fn bytes_at(b: Seq<u8>, at: nat, n: nat) -> Seq<u8> {
    b.subrange(at as int, (at + n) as int)
}

/// A raw IFD entry as the model sees it: tag id, raw field type, element
/// count, and the inline value area.
pub struct RawEntryModel {
    /// Tag id.
    pub tag: u16,
    /// Raw field type code.
    pub type_code: u16,
    /// Element count.
    pub count: nat,
    /// Inline value area (4 bytes classic, 8 bytes BigTIFF).
    pub area: Seq<u8>,
}

/// The raw entry whose record starts at `at` in `b`.
pub open spec fn raw_entry_at(b: Seq<u8>, at: nat, e: Endian, is_big_tiff: bool) -> RawEntryModel {
    let rec = bytes_at(b, at, entry_record_size(is_big_tiff));
    RawEntryModel {
        tag: uint_value(rec.subrange(0, 2), 2, e) as u16,
        type_code: uint_value(rec.subrange(2, 4), 2, e) as u16,
        count: if is_big_tiff {
            uint_value(rec.subrange(4, 12), 8, e)
        } else {
            uint_value(rec.subrange(4, 8), 4, e)
        },
        area: if is_big_tiff {
            rec.subrange(12, 20)
        } else {
            rec.subrange(8, 12)
        },
    }
}

/// The `count` elements of field type `t` stored back to back in `bytes`,
/// when the count is within the safety bound and the bytes hold them.
pub open spec fn decode_elements_model(bytes: Seq<u8>, t: FieldType, count: nat, e: Endian) -> Option<Seq<u64>> {
    let size = field_size(t);
    if count > K_MAX_TAG_COUNT || count > bytes.len() / size {
        None
    } else {
        Some(
            Seq::new(
                count,
                |i: int| uint_value(bytes.subrange(i * size, i * size + size), size, e) as u64,
            ),
        )
    }
}

/// The fully resolved values of a supported raw entry: inline when they fit
/// the value area, otherwise read from the file at the offset the area holds.
pub open spec fn entry_values_model(b: Seq<u8>, raw: RawEntryModel, e: Endian, is_big_tiff: bool) -> Option<Seq<u64>> {
    let t = field_type_of_code(raw.type_code).unwrap();
    let size = field_size(t);
    let total = raw.count * size;
    if total > u64::MAX {
        None
    } else if total <= value_area_size(is_big_tiff) {
        decode_elements_model(raw.area.subrange(0, total as int), t, raw.count, e)
    } else {
        let off = uint_value(raw.area, value_area_size(is_big_tiff), e);
        if off > b.len() || total > b.len() - off || total > usize::MAX {
            None
        } else {
            decode_elements_model(bytes_at(b, off, total), t, raw.count, e)
        }
    }
}

/// The tag map built from the first `n` entries of the table starting at
/// `start`: entries of unsupported field types are skipped, and a later
/// entry for the same tag replaces an earlier one.
pub open spec fn ifd_tags_upto(b: Seq<u8>, start: nat, n: nat, e: Endian, is_big_tiff: bool) -> Option<Map<u16, Seq<u64>>>
    decreases n,
{
    if n == 0 {
        Some(Map::empty())
    } else {
        match ifd_tags_upto(b, start, (n - 1) as nat, e, is_big_tiff) {
            None => None,
            Some(m) => {
                let raw = raw_entry_at(b, start + table_size((n - 1) as nat, is_big_tiff), e, is_big_tiff);
                if field_type_of_code(raw.type_code) is None {
                    Some(m)
                } else {
                    match entry_values_model(b, raw, e, is_big_tiff) {
                        None => None,
                        Some(v) => Some(m.insert(raw.tag, v)),
                    }
                }
            },
        }
    }
}

/// The IFD at `off` in file `b`: its tag map and next-IFD offset, or `None`
/// when the bytes are truncated, out of bounds, or hold a malformed entry.
pub open spec fn parse_ifd(b: Seq<u8>, off: nat, e: Endian, is_big_tiff: bool) -> Option<(Map<u16, Seq<u64>>, u64)> {
    let cf = count_field_size(is_big_tiff);
    if off + cf > b.len() {
        None
    } else {
        let count = uint_value(bytes_at(b, off, cf), cf, e);
        let start = off + cf;
        let end = start + table_size(count, is_big_tiff);
        if end > u64::MAX || end > b.len() {
            None
        } else {
            match ifd_tags_upto(b, start, count, e, is_big_tiff) {
                None => None,
                Some(m) => {
                    let nf = next_field_size(is_big_tiff);
                    if end + nf > b.len() {
                        None
                    } else {
                        Some((m, uint_value(bytes_at(b, end, nf), nf, e) as u64))
                    }
                },
            }
        }
    }
}

/// One parsed IFD: every entry's tag id mapped to its resolved values, plus
/// the offset of the next IFD in the chain (0 for the last).
#[derive(Debug, Default, Clone, PartialEq, Eq)]
pub struct TiffIfd {
    tags: BTreeMap<u16, Vec<u64>>,
    next_ifd_offset: u64,
}

impl TiffIfd {
    /// The tag map.
    pub closed spec fn tag_map(&self) -> Map<u16, Seq<u64>> {
        self.tags@.map_values(|v: Vec<u64>| v@)
    }

    /// The next-IFD offset.
    pub closed spec fn next_offset(&self) -> u64 {
        self.next_ifd_offset
    }

    /// An IFD with no tags and next offset 0.
    pub fn new() -> (ifd: Self)
        ensures
            ifd.tag_map() == Map::<u16, Seq<u64>>::empty(),
            ifd.next_offset() == 0,
    {
        let ifd = TiffIfd { tags: BTreeMap::new(), next_ifd_offset: 0 };
        assert(ifd.tag_map() =~= Map::<u16, Seq<u64>>::empty());
        ifd
    }

    /// Sets (or replaces) the value array for `tag_id`.
    pub fn set_tag(&mut self, tag_id: u16, values: Vec<u64>)
        ensures
            final(self).tag_map() == old(self).tag_map().insert(tag_id, values@),
            final(self).next_offset() == old(self).next_offset(),
    {
        let ghost v = values@;
        self.tags.insert(tag_id, values);
        assert(self.tag_map() =~= old(self).tag_map().insert(tag_id, v));
    }

    /// The value array of `tag_id`; [`ErrorCode::NotFound`] exactly when the
    /// tag is absent.
    pub fn tag(&self, tag_id: u16) -> (r: Result<&[u64]>)
        ensures
            r is Ok <==> self.tag_map().contains_key(tag_id),
            r matches Ok(v) ==> v@ == self.tag_map()[tag_id],
            r matches Err(e) ==> e.kind() == ErrorCode::NotFound,
    {
        match self.tags.get(&tag_id) {
            Some(v) => Ok(v.as_slice()),
            None => Err(Error::not_found("TiffIfd::tag: tag not present")),
        }
    }

    /// The first value of `tag_id`: [`ErrorCode::NotFound`] when absent,
    /// [`ErrorCode::InvalidArgument`] when present with no values.
    pub fn single_value(&self, tag_id: u16) -> (r: Result<u64>)
        ensures
            r is Ok <==> self.tag_map().contains_key(tag_id) && self.tag_map()[tag_id].len() > 0,
            r matches Ok(v) ==> v == self.tag_map()[tag_id][0],
            r matches Err(e) ==> e.kind() == (if self.tag_map().contains_key(tag_id) {
                ErrorCode::InvalidArgument
            } else {
                ErrorCode::NotFound
            }),
    {
        let values = self.tag(tag_id)?;
        if values.len() == 0 {
            return Err(Error::invalid_argument("TiffIfd::single_value: tag has no values"));
        }
        Ok(values[0])
    }

    /// The first value of `tag_id`, or `fallback` when the tag is absent;
    /// still [`ErrorCode::InvalidArgument`] when present with no values.
    pub fn single_value_or(&self, tag_id: u16, fallback: u64) -> (r: Result<u64>)
        ensures
            r is Ok <==> !self.tag_map().contains_key(tag_id) || self.tag_map()[tag_id].len() > 0,
            r matches Ok(v) ==> v == (if self.tag_map().contains_key(tag_id) {
                self.tag_map()[tag_id][0]
            } else {
                fallback
            }),
            r matches Err(e) ==> e.kind() == ErrorCode::InvalidArgument,
    {
        match self.single_value(tag_id) {
            Ok(v) => Ok(v),
            Err(e) => {
                if e.code() == ErrorCode::NotFound {
                    Ok(fallback)
                } else {
                    Err(e)
                }
            },
        }
    }

    /// Absolute file offset of the next IFD in the chain, or 0 for the last.
    pub fn next_ifd_offset(&self) -> (o: u64)
        ensures
            o == self.next_offset(),
    {
        self.next_ifd_offset
    }

    /// Sets the next-IFD offset.
    pub fn set_next_ifd_offset(&mut self, offset: u64)
        ensures
            final(self).next_offset() == offset,
            final(self).tag_map() == old(self).tag_map(),
    {
        self.next_ifd_offset = offset;
    }
}

/// Decodes `count` elements of `field_type` from `bytes`.
fn decode_elements(bytes: &[u8], field_type: FieldType, count: u64, endian: Endian) -> (r: Result<Vec<u64>>)
    ensures
        r is Ok <==> decode_elements_model(bytes@, field_type, count as nat, endian) is Some,
        r matches Ok(v) ==> decode_elements_model(bytes@, field_type, count as nat, endian) == Some(v@),
        r matches Err(e) ==> e.kind() == ErrorCode::InvalidArgument,
{
    let element_size = match field_type_size(field_type) {
        Some(s) => s as u64,
        None => {
            return Err(Error::invalid_argument("decode_elements: unsupported TIFF field type"));
        },
    };
    if count > K_MAX_TAG_COUNT || count > bytes.len() as u64 / element_size {
        return Err(
            Error::invalid_argument("decode_elements: tag element count exceeds a safe bound"),
        );
    }
    let ghost size = field_size(field_type);
    let blen = bytes.len();
    let mut values: Vec<u64> = Vec::new();
    let mut i: u64 = 0;
    while i < count
        invariant
            element_size == size,
            1 <= size <= 8,
            bytes@.len() == blen,
            count <= bytes@.len() / size,
            0 <= i <= count,
            values@.len() == i,
            forall|k: int|
                0 <= k < i ==> #[trigger] values@[k] == uint_value(
                    bytes@.subrange(k * size, k * size + size),
                    size,
                    endian,
                ) as u64,
        decreases count - i,
    {
        proof {
            assert(i * size + size <= count * size) by (nonlinear_arith)
                requires
                    i < count,
                    size >= 1,
            ;
            assert(count * size <= bytes@.len()) by (nonlinear_arith)
                requires
                    count <= bytes@.len() / size,
                    size >= 1,
            ;
        }
        let start = (i * element_size) as usize;
        let element = vstd::slice::slice_subrange(bytes, start, start + element_size as usize);
        let v = read_uint(element, element_size as usize, endian);
        assert(element@.subrange(0, size as int) =~= element@);
        values.push(v);
        i = i + 1;
    }
    assert(values@ =~= decode_elements_model(bytes@, field_type, count as nat, endian).unwrap());
    Ok(values)
}

/// The model of an executable raw entry.
pub open spec fn raw_model(raw: RawTagEntry, is_big_tiff: bool) -> RawEntryModel {
    RawEntryModel {
        tag: raw.tag_id,
        type_code: raw.field_type_raw,
        count: raw.count as nat,
        area: raw.value_area@.subrange(0, value_area_size(is_big_tiff) as int),
    }
}

/// Reads the entry record at the cursor.
fn read_raw_entry<R: BinaryReader>(reader: &mut R, endian: Endian, is_big_tiff: bool) -> (r: Result<RawTagEntry>)
    ensures
        final(reader).bytes() == old(reader).bytes(),
        final(reader).reliable() == old(reader).reliable(),
        old(reader).reliable() ==> (r is Ok <==> old(reader).pos() + entry_record_size(is_big_tiff)
            <= old(reader).bytes().len()),
        r matches Ok(raw) ==> {
            &&& old(reader).pos() + entry_record_size(is_big_tiff) <= old(reader).bytes().len()
            &&& raw_model(raw, is_big_tiff) == raw_entry_at(
                old(reader).bytes(),
                old(reader).pos(),
                endian,
                is_big_tiff,
            )
        },
{
    let entry_size: usize = if is_big_tiff { 20 } else { 12 };
    let ghost b = reader.bytes();
    let ghost p = reader.pos();
    let mut raw: Vec<u8> = vec![0u8; entry_size];
    let n = reader.read(raw.as_mut_slice())?;
    if n != entry_size {
        return Err(Error::invalid_argument("read_raw_entry: truncated IFD entry"));
    }
    let ghost rec = bytes_at(b, p, entry_record_size(is_big_tiff));
    assert(raw@ =~= rec);
    let rs = raw.as_slice();
    let tag_id = super::endian::read_u16(vstd::slice::slice_subrange(rs, 0, 2), endian);
    let field_type_raw = super::endian::read_u16(vstd::slice::slice_subrange(rs, 2, 4), endian);
    assert(rec.subrange(0, 2).subrange(0, 2) =~= rec.subrange(0, 2));
    assert(rec.subrange(2, 4).subrange(0, 2) =~= rec.subrange(2, 4));
    if is_big_tiff {
        let count = super::endian::read_u64(vstd::slice::slice_subrange(rs, 4, 12), endian);
        assert(rec.subrange(4, 12).subrange(0, 8) =~= rec.subrange(4, 12));
        let value_area = [rs[12], rs[13], rs[14], rs[15], rs[16], rs[17], rs[18], rs[19]];
        let entry = RawTagEntry { tag_id, field_type_raw, count, value_area };
        assert(entry.value_area@.subrange(0, 8) =~= rec.subrange(12, 20));
        Ok(entry)
    } else {
        let count = super::endian::read_u32(vstd::slice::slice_subrange(rs, 4, 8), endian) as u64;
        assert(rec.subrange(4, 8).subrange(0, 4) =~= rec.subrange(4, 8));
        let value_area = [rs[8], rs[9], rs[10], rs[11], 0u8, 0u8, 0u8, 0u8];
        let entry = RawTagEntry { tag_id, field_type_raw, count, value_area };
        assert(entry.value_area@.subrange(0, 4) =~= rec.subrange(8, 12));
        Ok(entry)
    }
}

/// The field type of an entry whose raw type is supported.
fn field_type_of(entry: &RawTagEntry) -> (t: FieldType)
    requires
        field_type_of_code(entry.field_type_raw) is Some,
    ensures
        field_type_of_code(entry.field_type_raw) == Some(t),
{
    match FieldType::from_u16(entry.field_type_raw) {
        Some(ft) => ft,
        None => FieldType::Byte,
    }
}

/// Resolves a supported entry's values, inline or out of line.
fn resolve_entry<R: BinaryReader>(reader: &mut R, entry: &RawTagEntry, endian: Endian, is_big_tiff: bool) -> (r: Result<Vec<u64>>)
    requires
        field_type_of_code(entry.field_type_raw) is Some,
    ensures
        final(reader).bytes() == old(reader).bytes(),
        final(reader).reliable() == old(reader).reliable(),
        old(reader).reliable() ==> (r is Ok <==> entry_values_model(
            old(reader).bytes(),
            raw_model(*entry, is_big_tiff),
            endian,
            is_big_tiff,
        ) is Some),
        r matches Ok(v) ==> entry_values_model(
            old(reader).bytes(),
            raw_model(*entry, is_big_tiff),
            endian,
            is_big_tiff,
        ) == Some(v@),
{
    let ghost b = reader.bytes();
    let ghost m = raw_model(*entry, is_big_tiff);
    let element_size = match field_type_size_raw(entry.field_type_raw) {
        Some(s) => s as u64,
        None => {
            return Err(Error::invalid_argument("resolve_entry: unsupported TIFF field type"));
        },
    };
    let field_type = field_type_of(entry);
    let total_bytes = match entry.count.checked_mul(element_size) {
        Some(t) => t,
        None => {
            return Err(
                Error::invalid_argument("resolve_entry: entry count overflows total byte size"),
            );
        },
    };
    let area_size: u64 = if is_big_tiff { 8 } else { 4 };
    let area = entry.value_area.as_slice();
    if total_bytes <= area_size {
        let inline = vstd::slice::slice_subrange(area, 0, total_bytes as usize);
        assert(inline@ =~= m.area.subrange(0, total_bytes as int));
        decode_elements(inline, field_type, entry.count, endian)
    } else {
        let offset = if is_big_tiff {
            super::endian::read_u64(area, endian)
        } else {
            super::endian::read_u32(vstd::slice::slice_subrange(area, 0, 4), endian) as u64
        };
        if is_big_tiff {
            assert(area@.subrange(0, 8) =~= m.area.subrange(0, 8));
        } else {
            assert(area@.subrange(0, 4).subrange(0, 4) =~= m.area.subrange(0, 4));
        }
        assert(offset == uint_value(m.area, value_area_size(is_big_tiff), endian));
        let file_size = reader.size()?;
        if offset > file_size || total_bytes > file_size - offset {
            return Err(
                Error::invalid_argument("resolve_entry: out-of-line value exceeds file bounds"),
            );
        }
        if total_bytes > usize::MAX as u64 {
            return Err(
                Error::invalid_argument("resolve_entry: out-of-line value exceeds address space"),
            );
        }
        reader.seek(offset)?;
        let mut buffer: Vec<u8> = vec![0u8; total_bytes as usize];
        let n = reader.read(buffer.as_mut_slice())?;
        if n != total_bytes as usize {
            return Err(Error::invalid_argument("resolve_entry: truncated out-of-line tag value"));
        }
        assert(buffer@ =~= bytes_at(b, offset as nat, total_bytes as nat));
        decode_elements(buffer.as_slice(), field_type, entry.count, endian)
    }
}

/// Once the tag map of a prefix of the table is undefined, so is the map
/// of any longer prefix.
proof fn lemma_tags_none_propagates(b: Seq<u8>, start: nat, n: nat, m: nat, e: Endian, is_big_tiff: bool)
    requires
        n <= m,
        ifd_tags_upto(b, start, n, e, is_big_tiff) is None,
    ensures
        ifd_tags_upto(b, start, m, e, is_big_tiff) is None,
    decreases m,
{
    if n < m {
        lemma_tags_none_propagates(b, start, n, (m - 1) as nat, e, is_big_tiff);
    }
}

/// Reads entry `i` of the table at `start` into `ifd`.
fn read_ifd_entry<R: BinaryReader>(
    reader: &mut R,
    ifd: &mut TiffIfd,
    start: u64,
    i: u64,
    endian: Endian,
    is_big_tiff: bool,
) -> (r: Result<()>)
    requires
        start + table_size((i + 1) as nat, is_big_tiff) <= old(reader).bytes().len(),
        start + table_size((i + 1) as nat, is_big_tiff) <= u64::MAX,
        ifd_tags_upto(old(reader).bytes(), start as nat, i as nat, endian, is_big_tiff) == Some(
            old(ifd).tag_map(),
        ),
    ensures
        final(reader).bytes() == old(reader).bytes(),
        final(reader).reliable() == old(reader).reliable(),
        final(ifd).next_offset() == old(ifd).next_offset(),
        r is Ok ==> ifd_tags_upto(
            old(reader).bytes(),
            start as nat,
            (i + 1) as nat,
            endian,
            is_big_tiff,
        ) == Some(final(ifd).tag_map()),
        old(reader).reliable() ==> (r is Ok <==> ifd_tags_upto(
            old(reader).bytes(),
            start as nat,
            (i + 1) as nat,
            endian,
            is_big_tiff,
        ) is Some),
{
    let entry_size: u64 = if is_big_tiff { 20 } else { 12 };
    let entry_offset = start + i * entry_size;
    assert(entry_offset == start + table_size(i as nat, is_big_tiff));
    reader.seek(entry_offset)?;
    let raw_entry = read_raw_entry(reader, endian, is_big_tiff)?;
    if field_type_size_raw(raw_entry.field_type_raw).is_none() {
        return Ok(());
    }
    let values = resolve_entry(reader, &raw_entry, endian, is_big_tiff)?;
    ifd.set_tag(raw_entry.tag_id, values);
    Ok(())
}

/// Parses the IFD at `ifd_offset` (classic 12-byte or BigTIFF 20-byte
/// entries), resolving every supported entry's values eagerly; entries of
/// unsupported field types are skipped. The result is exactly the IFD the
/// file holds there; a truncated, out-of-bounds or malformed IFD fails with
/// [`ErrorCode::InvalidArgument`] (a failing transport may fail otherwise).
#[verifier::spinoff_prover]
#[verifier::rlimit(30)]
pub fn read_tiff_ifd<R: BinaryReader>(reader: &mut R, ifd_offset: u64, endian: Endian, is_big_tiff: bool) -> (r: Result<TiffIfd>)
    ensures
        final(reader).bytes() == old(reader).bytes(),
        final(reader).reliable() == old(reader).reliable(),
        old(reader).reliable() ==> (r is Ok <==> parse_ifd(
            old(reader).bytes(),
            ifd_offset as nat,
            endian,
            is_big_tiff,
        ) is Some),
        r matches Ok(ifd) ==> parse_ifd(old(reader).bytes(), ifd_offset as nat, endian, is_big_tiff)
            == Some((ifd.tag_map(), ifd.next_offset())),
{
    let ghost b = reader.bytes();
    reader.seek(ifd_offset)?;
    let count_field_size: u64 = if is_big_tiff { 8 } else { 2 };
    let mut count_bytes: Vec<u8> = vec![0u8; count_field_size as usize];
    let count_read = reader.read(count_bytes.as_mut_slice())?;
    if count_read != count_field_size as usize {
        return Err(Error::invalid_argument("read_tiff_ifd: truncated IFD entry count"));
    }
    assert(count_bytes@ =~= bytes_at(b, ifd_offset as nat, count_field_size as nat));
    let entry_count = read_uint(count_bytes.as_slice(), count_field_size as usize, endian);
    let entry_size: u64 = if is_big_tiff { 20 } else { 12 };
    let entry_table_start = checked_add_u64(ifd_offset, count_field_size)?;
    let table_bytes = checked_mul_u64(entry_count, entry_size)?;
    let entry_table_end = checked_add_u64(entry_table_start, table_bytes)?;
    let file_size = reader.size()?;
    if entry_table_end > file_size {
        return Err(
            Error::invalid_argument(
                "read_tiff_ifd: IFD entry table exceeds file bounds (inflated entry count)",
            ),
        );
    }
    let ghost start = entry_table_start as nat;
    assert(parse_ifd(b, ifd_offset as nat, endian, is_big_tiff) is Some ==> ifd_tags_upto(
        b,
        start,
        entry_count as nat,
        endian,
        is_big_tiff,
    ) is Some);
    let mut ifd = TiffIfd::new();
    let mut i: u64 = 0;
    while i < entry_count
        invariant
            reader.bytes() == b,
            b == old(reader).bytes(),
            reader.reliable() == old(reader).reliable(),
            b.len() == file_size,
            start == entry_table_start,
            entry_table_end == entry_table_start + table_size(entry_count as nat, is_big_tiff),
            entry_table_end <= file_size,
            0 <= i <= entry_count,
            ifd_tags_upto(b, start, i as nat, endian, is_big_tiff) == Some(ifd.tag_map()),
            parse_ifd(b, ifd_offset as nat, endian, is_big_tiff) is Some ==> ifd_tags_upto(
                b,
                start,
                entry_count as nat,
                endian,
                is_big_tiff,
            ) is Some,
        decreases entry_count - i,
    {
        assert(table_size((i + 1) as nat, is_big_tiff) <= table_size(entry_count as nat, is_big_tiff));
        let step = read_ifd_entry(reader, &mut ifd, entry_table_start, i, endian, is_big_tiff);
        if step.is_err() {
            proof {
                if reader.reliable() {
                    lemma_tags_none_propagates(b, start, (i + 1) as nat, entry_count as nat, endian, is_big_tiff);
                }
            }
            return Err(step.unwrap_err());
        }
        i = i + 1;
    }
    reader.seek(entry_table_end)?;
    let next_size: usize = if is_big_tiff { 8 } else { 4 };
    let mut next_bytes: Vec<u8> = vec![0u8; next_size];
    let next_read = reader.read(next_bytes.as_mut_slice())?;
    if next_read != next_size {
        return Err(Error::invalid_argument("read_tiff_ifd: truncated next-IFD offset"));
    }
    assert(next_bytes@ =~= bytes_at(b, entry_table_end as nat, next_size as nat));
    let next = read_uint(next_bytes.as_slice(), next_size, endian);
    ifd.set_next_ifd_offset(next);
    Ok(ifd)
}

} // verus!
