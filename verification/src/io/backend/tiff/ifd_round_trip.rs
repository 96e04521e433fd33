//! What the IFD reader gives back of an IFD the writer laid out.
//!
//! [`lemma_write_then_read_ifd`] states that parsing the bytes of
//! [`ifd_layout`] recovers every entry's tag and values (each truncated to
//! its field width) and the next-IFD offset.
use crate::io::binary_writer::overwrite_at;
use vstd::prelude::*;

use super::checked_arithmetic::K_MAX_TAG_COUNT;
use super::endian::{lemma_le_bytes_len, lemma_pow256_values, lemma_uint_round_trip, pow256, uint_bytes, uint_value, Endian};
use super::ifd::{
    bytes_at, count_field_size, RawEntryModel, decode_elements_model, entry_values_model, ifd_tags_upto, next_field_size,
    parse_ifd, raw_entry_at, table_size, value_area_size,
};
use super::ifd_writer::{
    count_bytes, elem_bytes, fixed_part_size, ifd_layout, ifd_size, lemma_ifd_layout_len,
    lemma_out_of_line_bytes_len, lemma_out_of_line_total_monotone, lemma_record_len, lemma_records_len,
    lemma_values_bytes_len, offset_bytes, out_of_line, out_of_line_bytes, out_of_line_total, record_bytes,
    records_bytes, truncate_to, value_area_bytes, value_byte_size, values_bytes, zeros,
    TiffIfdEntryToWrite,
};
use super::tag::{field_size, field_type_code, field_type_of_code, FieldType};

verus! {

/// The values the reader recovers from `e`: each value cut to its field
/// width.
pub open spec fn read_back_values(e: TiffIfdEntryToWrite) -> Seq<u64> {
    e.values@.map_values(|v: u64| truncate_to(v, e.field_type) as u64)
}

/// The tag map the first `k` entries of `s` read back as (a later entry
/// with the same tag replaces an earlier one).
pub open spec fn written_tags(s: Seq<TiffIfdEntryToWrite>, k: nat) -> Map<u16, Seq<u64>>
    decreases k,
{
    if k == 0 {
        Map::empty()
    } else {
        written_tags(s, (k - 1) as nat).insert(s[k - 1].tag_id, read_back_values(s[k - 1]))
    }
}

/// The IFD of `s` placed at `at` with next offset `next` can be read back:
/// every value count is within the reader's bound, the IFD fits the address
/// space, and a classic IFD's counts and offsets fit their 16/32-bit fields.
pub open spec fn ifd_readable(s: Seq<TiffIfdEntryToWrite>, is_big_tiff: bool, at: nat, next: u64) -> bool {
    &&& forall|i: int| 0 <= i < s.len() ==> #[trigger] s[i].values@.len() <= K_MAX_TAG_COUNT
    &&& at + ifd_size(s, is_big_tiff) <= usize::MAX
    &&& !is_big_tiff ==> {
        &&& s.len() < 0x1_0000
        &&& at + ifd_size(s, is_big_tiff) < 0x1_0000_0000
        &&& next < 0x1_0000_0000
    }
}

/// Bytes of `out` after `src` is written at `at`, read inside `src`.
proof fn lemma_overwrite_at_slice(out: Seq<u8>, at: nat, src: Seq<u8>, x: nat, m: nat)
    requires
        x + m <= src.len(),
    ensures
        overwrite_at(out, at, src).len() >= at + src.len(),
        bytes_at(overwrite_at(out, at, src), at + x, m) == src.subrange(x as int, (x + m) as int),
{
    assert(bytes_at(overwrite_at(out, at, src), at + x, m) =~= src.subrange(x as int, (x + m) as int));
}

/// Record `k` inside the records of the first `n` entries.
proof fn lemma_records_slice(s: Seq<TiffIfdEntryToWrite>, n: nat, is_big_tiff: bool, d: nat, k: nat)
    requires
        k < n,
    ensures
        records_bytes(s, n, is_big_tiff, d).subrange(
            table_size(k, is_big_tiff) as int,
            table_size(k + 1, is_big_tiff) as int,
        ) == record_bytes(s[k as int], is_big_tiff, d + out_of_line_total(s, k, is_big_tiff)),
    decreases n,
{
    let prev = records_bytes(s, (n - 1) as nat, is_big_tiff, d);
    let rec = record_bytes(s[n - 1], is_big_tiff, d + out_of_line_total(s, (n - 1) as nat, is_big_tiff));
    lemma_records_len(s, (n - 1) as nat, is_big_tiff, d);
    lemma_record_len(s[n - 1], is_big_tiff, d + out_of_line_total(s, (n - 1) as nat, is_big_tiff));
    if k == n - 1 {
        assert((prev + rec).subrange(
            table_size(k, is_big_tiff) as int,
            table_size(k + 1, is_big_tiff) as int,
        ) =~= rec);
    } else {
        lemma_records_slice(s, (n - 1) as nat, is_big_tiff, d, k);
        assert((prev + rec).subrange(
            table_size(k, is_big_tiff) as int,
            table_size(k + 1, is_big_tiff) as int,
        ) =~= prev.subrange(table_size(k, is_big_tiff) as int, table_size(k + 1, is_big_tiff) as int));
    }
}

/// The out-of-line values of entry `k` inside those of the first `n`.
proof fn lemma_out_of_line_slice(s: Seq<TiffIfdEntryToWrite>, n: nat, is_big_tiff: bool, k: nat)
    requires
        k < n,
        out_of_line(s[k as int], is_big_tiff),
    ensures
        out_of_line_total(s, k + 1, is_big_tiff) <= out_of_line_total(s, n, is_big_tiff),
        out_of_line_bytes(s, n, is_big_tiff).subrange(
            out_of_line_total(s, k, is_big_tiff) as int,
            out_of_line_total(s, k + 1, is_big_tiff) as int,
        ) == values_bytes(s[k as int].values@, s[k as int].field_type),
    decreases n,
{
    let prev = out_of_line_bytes(s, (n - 1) as nat, is_big_tiff);
    let tail = if out_of_line(s[n - 1], is_big_tiff) {
        values_bytes(s[n - 1].values@, s[n - 1].field_type)
    } else {
        Seq::empty()
    };
    lemma_out_of_line_bytes_len(s, (n - 1) as nat, is_big_tiff);
    lemma_values_bytes_len(s[k as int].values@, s[k as int].field_type);
    lemma_out_of_line_total_monotone(s, k + 1, n, is_big_tiff);
    if k == n - 1 {
        assert((prev + tail).subrange(
            out_of_line_total(s, k, is_big_tiff) as int,
            out_of_line_total(s, k + 1, is_big_tiff) as int,
        ) =~= tail);
    } else {
        lemma_out_of_line_slice(s, (n - 1) as nat, is_big_tiff, k);
        assert((prev + tail).subrange(
            out_of_line_total(s, k, is_big_tiff) as int,
            out_of_line_total(s, k + 1, is_big_tiff) as int,
        ) =~= prev.subrange(
            out_of_line_total(s, k, is_big_tiff) as int,
            out_of_line_total(s, k + 1, is_big_tiff) as int,
        ));
    }
}

/// Element `i` inside the bytes of a value array.
proof fn lemma_values_slice(vals: Seq<u64>, t: FieldType, i: int)
    requires
        0 <= i < vals.len(),
    ensures
        values_bytes(vals, t).subrange(i * field_size(t), i * field_size(t) + field_size(t))
            == elem_bytes(vals[i], t),
    decreases vals.len(),
{
    let sz = field_size(t);
    let prev = values_bytes(vals.drop_last(), t);
    let last = elem_bytes(vals.last(), t);
    lemma_values_bytes_len(vals.drop_last(), t);
    lemma_le_bytes_len(truncate_to(vals.last(), t), sz);
    assert(i * sz + sz <= (vals.len() - 1) * sz + sz) by (nonlinear_arith)
        requires
            i <= vals.len() - 1,
    ;
    if i == vals.len() - 1 {
        assert((prev + last).subrange(i * sz, i * sz + sz) =~= last);
    } else {
        lemma_values_slice(vals.drop_last(), t, i);
        assert(i * sz + sz <= (vals.len() - 1) * sz) by (nonlinear_arith)
            requires
                i < vals.len() - 1,
        ;
        assert((prev + last).subrange(i * sz, i * sz + sz) =~= prev.subrange(i * sz, i * sz + sz));
    }
}

/// Decoding the bytes of a value array recovers the truncated values.
proof fn lemma_decode_values(e: TiffIfdEntryToWrite)
    requires
        e.values@.len() <= K_MAX_TAG_COUNT,
    ensures
        decode_elements_model(values_bytes(e.values@, e.field_type), e.field_type, e.values@.len(), Endian::Little)
            == Some(read_back_values(e)),
{
    let t = e.field_type;
    let sz = field_size(t);
    let vb = values_bytes(e.values@, t);
    let n = e.values@.len();
    lemma_values_bytes_len(e.values@, t);
    lemma_pow256_values();
    assert((sz * n) / sz == n) by (nonlinear_arith)
        requires
            sz >= 1,
    ;
    let decoded = Seq::new(n, |i: int| uint_value(vb.subrange(i * sz, i * sz + sz), sz, Endian::Little) as u64);
    assert forall|i: int| 0 <= i < n implies decoded[i] == read_back_values(e)[i] by {
        lemma_values_slice(e.values@, t, i);
        lemma_uint_round_trip(truncate_to(e.values@[i], t), sz, Endian::Little);
    }
    assert(decoded =~= read_back_values(e));
}

/// An `n`-byte field holding `v` reads back as `v`.
proof fn lemma_field(v: nat, n: nat)
    requires
        v < pow256(n),
    ensures
        uint_bytes(v, n, Endian::Little).len() == n,
        uint_value(uint_bytes(v, n, Endian::Little), n, Endian::Little) == v,
{
    lemma_uint_round_trip(v, n, Endian::Little);
}

/// The raw entry read from a record the writer laid out.
proof fn lemma_record_fields(file: Seq<u8>, rec_at: nat, e: TiffIfdEntryToWrite, is_big_tiff: bool, ool_at: nat)
    requires
        bytes_at(file, rec_at, table_size(1, is_big_tiff)) == record_bytes(e, is_big_tiff, ool_at),
        e.values@.len() <= K_MAX_TAG_COUNT,
    ensures
        ({
            let raw = raw_entry_at(file, rec_at, Endian::Little, is_big_tiff);
            &&& raw.tag == e.tag_id
            &&& raw.type_code == field_type_code(e.field_type)
            &&& raw.count == e.values@.len()
            &&& raw.area == value_area_bytes(e, is_big_tiff, ool_at)
        }),
{
    let t = e.field_type;
    let rec = record_bytes(e, is_big_tiff, ool_at);
    lemma_pow256_values();
    lemma_record_len(e, is_big_tiff, ool_at);
    lemma_field(e.tag_id as nat, 2);
    lemma_field(field_type_code(t) as nat, 2);
    lemma_le_bytes_len(e.values@.len(), 8);
    lemma_le_bytes_len((e.values@.len() as u32) as nat, 4);
    lemma_le_bytes_len(ool_at, 8);
    lemma_le_bytes_len((ool_at as u32) as nat, 4);
    lemma_values_bytes_len(e.values@, t);
    let tag_b = uint_bytes(e.tag_id as nat, 2, Endian::Little);
    let code_b = uint_bytes(field_type_code(t) as nat, 2, Endian::Little);
    let count_b = offset_bytes(e.values@.len(), is_big_tiff);
    let area_b = value_area_bytes(e, is_big_tiff, ool_at);
    assert(rec.subrange(0, 2) =~= tag_b);
    assert(rec.subrange(2, 4) =~= code_b);
    if is_big_tiff {
        assert(rec.subrange(4, 12) =~= count_b);
        lemma_field(e.values@.len(), 8);
        assert(rec.subrange(12, 20) =~= area_b);
    } else {
        assert(rec.subrange(4, 8) =~= count_b);
        lemma_field(e.values@.len(), 4);
        assert((e.values@.len() as u32) as nat == e.values@.len());
        assert(rec.subrange(8, 12) =~= area_b);
    }
}

/// The values resolved for a raw entry whose fields the writer laid out.
#[verifier::rlimit(30)]
#[verifier::spinoff_prover]
proof fn lemma_entry_values(
    file: Seq<u8>,
    raw: RawEntryModel,
    e: TiffIfdEntryToWrite,
    is_big_tiff: bool,
    ool_at: nat,
)
    requires
        raw.type_code == field_type_code(e.field_type),
        raw.count == e.values@.len(),
        raw.area == value_area_bytes(e, is_big_tiff, ool_at),
        e.values@.len() <= K_MAX_TAG_COUNT,
        out_of_line(e, is_big_tiff) ==> {
            &&& ool_at + value_byte_size(e) <= file.len()
            &&& ool_at + value_byte_size(e) <= usize::MAX
            &&& (!is_big_tiff ==> ool_at < 0x1_0000_0000)
            &&& bytes_at(file, ool_at, value_byte_size(e)) == values_bytes(e.values@, e.field_type)
        },
    ensures
        entry_values_model(file, raw, Endian::Little, is_big_tiff) == Some(read_back_values(e)),
{
    let t = e.field_type;
    let sz = field_size(t);
    let total = raw.count * sz;
    lemma_pow256_values();
    assert(total == value_byte_size(e)) by (nonlinear_arith)
        requires
            total == raw.count * sz,
            raw.count == e.values@.len(),
            value_byte_size(e) == sz * e.values@.len(),
    ;
    lemma_values_bytes_len(e.values@, t);
    lemma_decode_values(e);
    if out_of_line(e, is_big_tiff) {
        if is_big_tiff {
            lemma_field(ool_at, 8);
        } else {
            lemma_field(ool_at, 4);
            assert((ool_at as u32) as nat == ool_at);
        }
        assert(uint_value(raw.area, value_area_size(is_big_tiff), Endian::Little) == ool_at);
    } else {
        assert(raw.area.subrange(0, total as int) =~= values_bytes(e.values@, t));
    }
}

/// Entry `k` of a readable layout reads back as its tag and values.
#[verifier::rlimit(30)]
#[verifier::spinoff_prover]
proof fn lemma_entry_reads_back(b: Seq<u8>, s: Seq<TiffIfdEntryToWrite>, is_big_tiff: bool, at: nat, next: u64, k: nat)
    requires
        ifd_readable(s, is_big_tiff, at, next),
        k < s.len(),
    ensures
        ({
            let file = overwrite_at(b, at, ifd_layout(s, is_big_tiff, at, next));
            let start = at + count_field_size(is_big_tiff);
            let raw = raw_entry_at(file, start + table_size(k, is_big_tiff), Endian::Little, is_big_tiff);
            &&& raw.tag == s[k as int].tag_id
            &&& field_type_of_code(raw.type_code) == Some(s[k as int].field_type)
            &&& entry_values_model(file, raw, Endian::Little, is_big_tiff) == Some(read_back_values(s[k as int]))
        }),
{
    let n = s.len();
    let layout = ifd_layout(s, is_big_tiff, at, next);
    let file = overwrite_at(b, at, layout);
    let cf = count_field_size(is_big_tiff);
    let es = table_size(1, is_big_tiff);
    let data_at = at + fixed_part_size(n, is_big_tiff);
    let e = s[k as int];
    let ool_at = data_at + out_of_line_total(s, k, is_big_tiff);
    let cnt = count_bytes(n, is_big_tiff);
    let recs = records_bytes(s, n, is_big_tiff, data_at);
    let nxt = offset_bytes(next as nat, is_big_tiff);
    let ools = out_of_line_bytes(s, n, is_big_tiff);
    lemma_pow256_values();
    lemma_le_bytes_len(n, 8);
    lemma_le_bytes_len((n as u16) as nat, 2);
    lemma_le_bytes_len(next as nat, 8);
    lemma_le_bytes_len((next as u32) as nat, 4);
    lemma_records_len(s, n, is_big_tiff, data_at);
    lemma_out_of_line_bytes_len(s, n, is_big_tiff);
    lemma_ifd_layout_len(s, is_big_tiff, at, next);
    lemma_out_of_line_total_monotone(s, k + 1, n, is_big_tiff);
    lemma_out_of_line_total_monotone(s, k, k + 1, is_big_tiff);
    assert(cnt.len() == cf);
    assert(layout == cnt + recs + nxt + ools);
    // The record of entry k.
    let rec_at = at + cf + table_size(k, is_big_tiff);
    lemma_overwrite_at_slice(b, at, layout, cf + table_size(k, is_big_tiff), es);
    lemma_records_slice(s, n, is_big_tiff, data_at, k);
    assert(layout.subrange((cf + table_size(k, is_big_tiff)) as int, (cf + table_size(k, is_big_tiff) + es) as int)
        =~= recs.subrange(table_size(k, is_big_tiff) as int, table_size(k + 1, is_big_tiff) as int));
    lemma_record_fields(file, rec_at, e, is_big_tiff, ool_at);
    let raw = raw_entry_at(file, rec_at, Endian::Little, is_big_tiff);
    // Its out-of-line values.
    if out_of_line(e, is_big_tiff) {
        let total = value_byte_size(e);
        let rel = fixed_part_size(n, is_big_tiff) + out_of_line_total(s, k, is_big_tiff);
        assert(rel + total <= layout.len());
        lemma_overwrite_at_slice(b, at, layout, rel, total);
        lemma_out_of_line_slice(s, n, is_big_tiff, k);
        assert(layout.subrange(rel as int, (rel + total) as int) =~= ools.subrange(
            out_of_line_total(s, k, is_big_tiff) as int,
            out_of_line_total(s, k + 1, is_big_tiff) as int,
        ));
    }
    lemma_entry_values(file, raw, e, is_big_tiff, ool_at);
}

/// The tag maps read from the first `k` records of a readable layout.
proof fn lemma_tags_read_back(b: Seq<u8>, s: Seq<TiffIfdEntryToWrite>, is_big_tiff: bool, at: nat, next: u64, k: nat)
    requires
        ifd_readable(s, is_big_tiff, at, next),
        k <= s.len(),
    ensures
        ifd_tags_upto(
            overwrite_at(b, at, ifd_layout(s, is_big_tiff, at, next)),
            at + count_field_size(is_big_tiff),
            k,
            Endian::Little,
            is_big_tiff,
        ) == Some(written_tags(s, k)),
    decreases k,
{
    if k > 0 {
        lemma_tags_read_back(b, s, is_big_tiff, at, next, (k - 1) as nat);
        lemma_entry_reads_back(b, s, is_big_tiff, at, next, (k - 1) as nat);
    }
}

/// Reading the IFD the writer laid out at `at` (over any prior file
/// contents `b`) gives back every entry's tag with its values, each cut to
/// its field width, a later entry with the same tag replacing an earlier
/// one, and the next-IFD offset.
pub proof fn lemma_write_then_read_ifd(b: Seq<u8>, s: Seq<TiffIfdEntryToWrite>, is_big_tiff: bool, at: nat, next: u64)
    requires
        ifd_readable(s, is_big_tiff, at, next),
    ensures
        parse_ifd(overwrite_at(b, at, ifd_layout(s, is_big_tiff, at, next)), at, Endian::Little, is_big_tiff)
            == Some((written_tags(s, s.len()), next)),
{
    let n = s.len();
    let layout = ifd_layout(s, is_big_tiff, at, next);
    let file = overwrite_at(b, at, layout);
    let cf = count_field_size(is_big_tiff);
    let nf = next_field_size(is_big_tiff);
    let data_at = at + fixed_part_size(n, is_big_tiff);
    let cnt = count_bytes(n, is_big_tiff);
    let recs = records_bytes(s, n, is_big_tiff, data_at);
    let nxt = offset_bytes(next as nat, is_big_tiff);
    let ools = out_of_line_bytes(s, n, is_big_tiff);
    lemma_pow256_values();
    lemma_le_bytes_len(n, 8);
    lemma_le_bytes_len((n as u16) as nat, 2);
    lemma_le_bytes_len(next as nat, 8);
    lemma_le_bytes_len((next as u32) as nat, 4);
    lemma_records_len(s, n, is_big_tiff, data_at);
    lemma_out_of_line_bytes_len(s, n, is_big_tiff);
    lemma_ifd_layout_len(s, is_big_tiff, at, next);
    lemma_out_of_line_total_monotone(s, 0, n, is_big_tiff);
    // Entry count.
    lemma_overwrite_at_slice(b, at, layout, 0, cf);
    assert(layout.subrange(0, cf as int) =~= cnt);
    if is_big_tiff {
        lemma_field(n, 8);
    } else {
        lemma_field(n, 2);
        assert((n as u16) as nat == n);
    }
    assert(uint_value(bytes_at(file, at, cf), cf, Endian::Little) == n);
    // Entry table.
    lemma_tags_read_back(b, s, is_big_tiff, at, next, n);
    // Next-IFD offset.
    let end = at + cf + table_size(n, is_big_tiff);
    lemma_overwrite_at_slice(b, at, layout, cf + table_size(n, is_big_tiff), nf);
    assert(layout.subrange((cf + table_size(n, is_big_tiff)) as int, (cf + table_size(n, is_big_tiff) + nf) as int)
        =~= nxt);
    if is_big_tiff {
        lemma_field(next as nat, 8);
    } else {
        lemma_field(next as nat, 4);
        assert((next as u32) as nat == next);
    }
    assert(uint_value(bytes_at(file, end, nf), nf, Endian::Little) == next);
}

} // verus!
