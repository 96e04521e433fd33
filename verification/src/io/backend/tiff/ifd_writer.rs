//! Serializes an IFD entry table (classic or BigTIFF) through a
//! [`crate::io::BinaryWriter`].
//!
//! Entries are written in ascending tag order (ties keep their input order),
//! always little-endian. The bytes an IFD occupies are given by
//! [`ifd_layout`] over [`sorted_by_tag`].
use crate::error::Result;
use crate::io::binary_writer::{lemma_overwrite_at_concat, overwrite_at};
use crate::io::BinaryWriter;
use std::collections::BTreeMap;
use vstd::prelude::*;

use super::endian::{lemma_le_bytes_len, lemma_pow256_values, pow256, push_uint, uint_bytes, Endian};
use super::ifd::{count_field_size, next_field_size, table_size, value_area_size};
use super::tag::{field_size, field_type_code, field_type_size, FieldType};

verus! {

broadcast use vstd::std_specs::btree::group_btree_axioms;

/// Classic TIFF 6.0 IFD entry record size (bytes).
pub const K_CLASSIC_ENTRY_SIZE: u64 = 12;

/// BigTIFF IFD entry record size (bytes).
pub const K_BIG_TIFF_ENTRY_SIZE: u64 = 20;

/// Classic TIFF inline value area size (bytes).
pub const K_CLASSIC_VALUE_AREA_SIZE: u8 = 4;

/// BigTIFF inline value area size (bytes).
pub const K_BIG_TIFF_VALUE_AREA_SIZE: u8 = 8;

/// Classic TIFF entry-count field size (bytes).
pub const K_CLASSIC_COUNT_FIELD_SIZE: u64 = 2;

/// BigTIFF entry-count field size (bytes).
pub const K_BIG_TIFF_COUNT_FIELD_SIZE: u64 = 8;

/// Classic TIFF next-IFD offset field size (bytes).
pub const K_CLASSIC_NEXT_IFD_SIZE: u64 = 4;

/// BigTIFF next-IFD offset field size (bytes).
pub const K_BIG_TIFF_NEXT_IFD_SIZE: u64 = 8;

/// One IFD entry to write: its tag, the field type each value is written
/// as, and the values (one per on-disk element; each is truncated to the
/// field type's width when written).
#[derive(Debug, Clone, PartialEq, Eq)]
pub struct TiffIfdEntryToWrite {
    /// The 16-bit tag id.
    pub tag_id: u16,
    /// The field type governing how each value is written.
    pub field_type: FieldType,
    /// The values to write (one per on-disk element).
    pub values: Vec<u64>,
}

impl TiffIfdEntryToWrite {
    /// Builds an entry from 32-bit values.
    pub fn new(tag_id: u16, field_type: FieldType, values: Vec<u32>) -> (e: Self)
        ensures
            e.tag_id == tag_id,
            e.field_type == field_type,
            e.values@.len() == values@.len(),
            forall|i: int| 0 <= i < values@.len() ==> e.values@[i] == values@[i] as u64,
    {
        let mut wide: Vec<u64> = Vec::new();
        let mut i: usize = 0;
        while i < values.len()
            invariant
                0 <= i <= values@.len(),
                wide@.len() == i,
                forall|k: int| 0 <= k < i ==> wide@[k] == values@[k] as u64,
            decreases values@.len() - i,
        {
            wide.push(values[i] as u64);
            i = i + 1;
        }
        TiffIfdEntryToWrite { tag_id, field_type, values: wide }
    }

    /// Builds an entry from 64-bit values (offsets and byte counts).
    pub fn new_u64(tag_id: u16, field_type: FieldType, values: Vec<u64>) -> (e: Self)
        ensures
            e.tag_id == tag_id,
            e.field_type == field_type,
            e.values@ == values@,
    {
        TiffIfdEntryToWrite { tag_id, field_type, values }
    }
}

// ---------------------------------------------------------------------------
// Sizes.
// ---------------------------------------------------------------------------

/// Byte size of `e`'s values on disk (elements times element size).
pub open spec fn value_byte_size(e: TiffIfdEntryToWrite) -> nat {
    field_size(e.field_type) * e.values@.len()
}

/// Whether `e`'s values are too large for the inline value area and are
/// written after the fixed part of the IFD.
pub open spec fn out_of_line(e: TiffIfdEntryToWrite, is_big_tiff: bool) -> bool {
    value_byte_size(e) > value_area_size(is_big_tiff)
}

/// The out-of-line byte size contributed by `e` (0 when inline).
pub open spec fn out_of_line_size(e: TiffIfdEntryToWrite, is_big_tiff: bool) -> nat {
    if out_of_line(e, is_big_tiff) {
        value_byte_size(e)
    } else {
        0
    }
}

/// Total out-of-line byte size of the first `k` entries of `s`.
pub open spec fn out_of_line_total(s: Seq<TiffIfdEntryToWrite>, k: nat, is_big_tiff: bool) -> nat
    decreases k,
{
    if k == 0 {
        0
    } else {
        out_of_line_total(s, (k - 1) as nat, is_big_tiff) + out_of_line_size(
            s[k - 1],
            is_big_tiff,
        )
    }
}

/// Byte size of an IFD's fixed part for `n` entries: count field, entry
/// table and next-IFD offset.
pub open spec fn fixed_part_size(n: nat, is_big_tiff: bool) -> nat {
    count_field_size(is_big_tiff) + table_size(n, is_big_tiff) + next_field_size(is_big_tiff)
}

/// Byte size of the whole IFD built from `s`: fixed part plus every
/// out-of-line value array.
pub open spec fn ifd_size(s: Seq<TiffIfdEntryToWrite>, is_big_tiff: bool) -> nat {
    fixed_part_size(s.len(), is_big_tiff) + out_of_line_total(s, s.len(), is_big_tiff)
}

/// The out-of-line total grows with the prefix length.
pub proof fn lemma_out_of_line_total_monotone(s: Seq<TiffIfdEntryToWrite>, j: nat, k: nat, is_big_tiff: bool)
    requires
        j <= k,
    ensures
        out_of_line_total(s, j, is_big_tiff) <= out_of_line_total(s, k, is_big_tiff),
    decreases k,
{
    if j < k {
        lemma_out_of_line_total_monotone(s, j, (k - 1) as nat, is_big_tiff);
    }
}

// ---------------------------------------------------------------------------
// Ascending tag order.
// ---------------------------------------------------------------------------

/// Entry `a` of `s` comes before entry `b`: a smaller tag, or the same tag
/// and an earlier position.
pub open spec fn key_before(s: Seq<TiffIfdEntryToWrite>, a: int, b: int) -> bool {
    s[a].tag_id < s[b].tag_id || (s[a].tag_id == s[b].tag_id && a < b)
}

/// `o` lists every index below `k` exactly once, in ascending tag order
/// with ties kept in input order.
pub open spec fn is_tag_order_upto(s: Seq<TiffIfdEntryToWrite>, o: Seq<usize>, k: nat) -> bool {
    &&& o.len() == k
    &&& forall|i: int| 0 <= i < o.len() ==> #[trigger] o[i] < k
    &&& forall|m: usize| m < k ==> #[trigger] o.contains(m)
    &&& forall|i: int, j: int|
        0 <= i < j < o.len() ==> key_before(s, #[trigger] o[i] as int, #[trigger] o[j] as int)
}

/// `o` lists every index of `s` exactly once, in ascending tag order with
/// ties kept in input order.
pub open spec fn is_tag_order(s: Seq<TiffIfdEntryToWrite>, o: Seq<usize>) -> bool {
    is_tag_order_upto(s, o, s.len())
}

/// Inserting index `k` at the place where the smaller-or-equal tags end
/// extends an ascending tag order of the indices below `k`.
proof fn lemma_insert_in_tag_order(s: Seq<TiffIfdEntryToWrite>, o: Seq<usize>, k: usize, j: int)
    requires
        is_tag_order_upto(s, o, k as nat),
        k < s.len(),
        0 <= j <= k,
        j > 0 ==> s[o[j - 1] as int].tag_id <= s[k as int].tag_id,
        forall|i: int| j <= i < k ==> s[o[i] as int].tag_id > s[k as int].tag_id,
    ensures
        is_tag_order_upto(s, o.insert(j, k), (k + 1) as nat),
{
    let no = o.insert(j, k);
    let tag = s[k as int].tag_id;
    assert forall|i: int, l: int| 0 <= i < l < k + 1 implies key_before(
        s,
        #[trigger] no[i] as int,
        #[trigger] no[l] as int,
    ) by {
        if i < j && l < j {
            assert(key_before(s, o[i] as int, o[l] as int));
        } else if i < j && l == j {
            assert(o[i] < k);
            if i < j - 1 {
                assert(key_before(s, o[i] as int, o[j - 1] as int));
            }
        } else if i < j && l > j {
            assert(key_before(s, o[i] as int, o[l - 1] as int));
        } else if i == j {
            assert(s[o[l - 1] as int].tag_id > tag);
        } else {
            assert(key_before(s, o[i - 1] as int, o[l - 1] as int));
        }
    }
    assert forall|m: usize| m < k + 1 implies #[trigger] no.contains(m) by {
        if m == k {
            assert(no[j] == m);
        } else {
            assert(o.contains(m));
            let w = choose|w: int| 0 <= w < o.len() && o[w] == m;
            if w < j {
                assert(no[w] == m);
            } else {
                assert(no[w + 1] == m);
            }
        }
    }
    assert forall|i: int| 0 <= i < k + 1 implies #[trigger] no[i] < k + 1 by {
        if i < j {
            assert(no[i] == o[i]);
        } else if i > j {
            assert(no[i] == o[i - 1]);
        }
    }
}

/// The place to insert index `k` into an ascending tag order of the
/// indices below `k`, found by scanning down from position `j`.
proof fn lemma_insert_position(s: Seq<TiffIfdEntryToWrite>, o: Seq<usize>, k: usize, j: int) -> (p: int)
    requires
        is_tag_order_upto(s, o, k as nat),
        k < s.len(),
        0 <= j <= k,
        forall|i: int| j <= i < k ==> s[o[i] as int].tag_id > s[k as int].tag_id,
    ensures
        0 <= p <= j,
        p > 0 ==> s[o[p - 1] as int].tag_id <= s[k as int].tag_id,
        forall|i: int| p <= i < k ==> s[o[i] as int].tag_id > s[k as int].tag_id,
    decreases j,
{
    if j > 0 && s[o[j - 1] as int].tag_id > s[k as int].tag_id {
        lemma_insert_position(s, o, k, j - 1)
    } else {
        j
    }
}

/// An ascending tag order of the indices below `k` exists.
proof fn lemma_tag_order_upto_exists(s: Seq<TiffIfdEntryToWrite>, k: nat) -> (o: Seq<usize>)
    requires
        k <= s.len(),
        s.len() <= usize::MAX,
    ensures
        is_tag_order_upto(s, o, k),
    decreases k,
{
    if k == 0 {
        Seq::empty()
    } else {
        let prev = lemma_tag_order_upto_exists(s, (k - 1) as nat);
        let kk = (k - 1) as usize;
        let p = lemma_insert_position(s, prev, kk, kk as int);
        lemma_insert_in_tag_order(s, prev, kk, p);
        prev.insert(p, kk)
    }
}

/// Every sequence of entries has an ascending tag order.
pub proof fn lemma_tag_order_exists(s: Seq<TiffIfdEntryToWrite>)
    requires
        s.len() <= usize::MAX,
    ensures
        is_tag_order(s, tag_order(s)),
{
    let o = lemma_tag_order_upto_exists(s, s.len());
    lemma_tag_order_is(s, o);
}

/// The ascending tag order of `s` (unique: see [`lemma_tag_order_unique`]).
pub open spec fn tag_order(s: Seq<TiffIfdEntryToWrite>) -> Seq<usize> {
    choose|o: Seq<usize>| is_tag_order(s, o)
}

/// `s` sorted ascending by tag id, ties kept in input order.
pub open spec fn sorted_by_tag(s: Seq<TiffIfdEntryToWrite>) -> Seq<TiffIfdEntryToWrite> {
    tag_order(s).map_values(|k: usize| s[k as int])
}

/// Two ascending tag orders of the same entries agree up to position `i`.
proof fn lemma_tag_order_prefix(s: Seq<TiffIfdEntryToWrite>, o1: Seq<usize>, o2: Seq<usize>, i: int)
    requires
        is_tag_order(s, o1),
        is_tag_order(s, o2),
        0 <= i < o1.len(),
    ensures
        forall|j: int| 0 <= j <= i ==> o1[j] == o2[j],
    decreases i,
{
    if i > 0 {
        lemma_tag_order_prefix(s, o1, o2, i - 1);
    }
    let a = o1[i];
    let b = o2[i];
    if a != b {
        assert(o2.contains(a));
        let w = choose|w: int| 0 <= w < o2.len() && o2[w] == a;
        assert(o1.contains(b));
        let v = choose|v: int| 0 <= v < o1.len() && o1[v] == b;
        if w < i {
            assert(o1[w] == a);
            assert(key_before(s, o1[w] as int, o1[i] as int));
        }
        if v < i {
            assert(o2[v] == b);
            assert(key_before(s, o2[v] as int, o2[i] as int));
        }
        assert(w > i && v > i);
        assert(key_before(s, o2[i] as int, o2[w] as int));
        assert(key_before(s, o1[i] as int, o1[v] as int));
    }
}

/// The ascending tag order of a sequence of entries is unique.
pub proof fn lemma_tag_order_unique(s: Seq<TiffIfdEntryToWrite>, o1: Seq<usize>, o2: Seq<usize>)
    requires
        is_tag_order(s, o1),
        is_tag_order(s, o2),
    ensures
        o1 == o2,
{
    if o1.len() > 0 {
        lemma_tag_order_prefix(s, o1, o2, o1.len() - 1);
    }
    assert(o1 =~= o2);
}

/// Any ascending tag order of `s` is the one [`tag_order`] names.
pub proof fn lemma_tag_order_is(s: Seq<TiffIfdEntryToWrite>, o: Seq<usize>)
    requires
        is_tag_order(s, o),
    ensures
        tag_order(s) == o,
{
    lemma_tag_order_unique(s, tag_order(s), o);
}

/// The ascending tag order of `entries` (a stable insertion sort of the
/// entry indices).
fn tag_sorted_order(entries: &[TiffIfdEntryToWrite]) -> (order: Vec<usize>)
    ensures
        is_tag_order(entries@, order@),
        order@ == tag_order(entries@),
{
    let n = entries.len();
    let mut order: Vec<usize> = Vec::new();
    let mut k: usize = 0;
    while k < n
        invariant
            n == entries@.len(),
            k <= n,
            is_tag_order_upto(entries@, order@, k as nat),
        decreases n - k,
    {
        let tag = entries[k].tag_id;
        let mut j: usize = k;
        while j > 0 && entries[order[j - 1]].tag_id > tag
            invariant
                n == entries@.len(),
                k < n,
                tag == entries@[k as int].tag_id,
                is_tag_order_upto(entries@, order@, k as nat),
                j <= k,
                forall|i: int| j <= i < k ==> entries@[order@[i] as int].tag_id > tag,
            decreases j,
        {
            j = j - 1;
        }
        proof {
            lemma_insert_in_tag_order(entries@, order@, k, j as int);
        }
        order.insert(j, k);
        k = k + 1;
    }
    proof {
        lemma_tag_order_is(entries@, order@);
    }
    order
}

// ---------------------------------------------------------------------------
// Byte layout.
// ---------------------------------------------------------------------------

/// The value `v` keeps when written as one element of field type `t`
/// (its low `field_size(t)` bytes).
pub open spec fn truncate_to(v: u64, t: FieldType) -> nat {
    match t {
        FieldType::Byte => (v as u8) as nat,
        FieldType::Short => (v as u16) as nat,
        FieldType::Long => (v as u32) as nat,
        FieldType::Long8 => v as nat,
    }
}

/// The little-endian bytes of `v` written as one element of field type `t`.
pub open spec fn elem_bytes(v: u64, t: FieldType) -> Seq<u8> {
    uint_bytes(truncate_to(v, t), field_size(t), Endian::Little)
}

/// The bytes of `vals` written back to back as elements of field type `t`.
pub open spec fn values_bytes(vals: Seq<u64>, t: FieldType) -> Seq<u8>
    decreases vals.len(),
{
    if vals.len() == 0 {
        Seq::empty()
    } else {
        values_bytes(vals.drop_last(), t) + elem_bytes(vals.last(), t)
    }
}

/// `n` zero bytes.
pub open spec fn zeros(n: nat) -> Seq<u8> {
    Seq::new(n, |i: int| 0u8)
}

/// The entry-count field of an IFD with `n` entries (a classic IFD keeps
/// the count's low 16 bits).
pub open spec fn count_bytes(n: nat, is_big_tiff: bool) -> Seq<u8> {
    if is_big_tiff {
        uint_bytes(n, 8, Endian::Little)
    } else {
        uint_bytes((n as u16) as nat, 2, Endian::Little)
    }
}

/// A 4-byte (classic, low 32 bits kept) or 8-byte (BigTIFF) offset field.
pub open spec fn offset_bytes(v: nat, is_big_tiff: bool) -> Seq<u8> {
    if is_big_tiff {
        uint_bytes(v, 8, Endian::Little)
    } else {
        uint_bytes((v as u32) as nat, 4, Endian::Little)
    }
}

/// The value area of `e`'s record: its values padded with zeros when they
/// fit inline, else the offset `ool_at` where they are written.
pub open spec fn value_area_bytes(e: TiffIfdEntryToWrite, is_big_tiff: bool, ool_at: nat) -> Seq<u8> {
    if out_of_line(e, is_big_tiff) {
        offset_bytes(ool_at, is_big_tiff)
    } else {
        values_bytes(e.values@, e.field_type) + zeros(
            (value_area_size(is_big_tiff) - value_byte_size(e)) as nat,
        )
    }
}

/// The entry record of `e`: tag, field type code, element count (low 32
/// bits in a classic record), value area.
pub open spec fn record_bytes(e: TiffIfdEntryToWrite, is_big_tiff: bool, ool_at: nat) -> Seq<u8> {
    uint_bytes(e.tag_id as nat, 2, Endian::Little) + uint_bytes(
        field_type_code(e.field_type) as nat,
        2,
        Endian::Little,
    ) + offset_bytes(e.values@.len(), is_big_tiff) + value_area_bytes(e, is_big_tiff, ool_at)
}

/// The records of the first `k` entries of `s`, whose out-of-line values
/// are laid out from `data_at` on.
pub open spec fn records_bytes(s: Seq<TiffIfdEntryToWrite>, k: nat, is_big_tiff: bool, data_at: nat) -> Seq<u8>
    decreases k,
{
    if k == 0 {
        Seq::empty()
    } else {
        records_bytes(s, (k - 1) as nat, is_big_tiff, data_at) + record_bytes(
            s[k - 1],
            is_big_tiff,
            data_at + out_of_line_total(s, (k - 1) as nat, is_big_tiff),
        )
    }
}

/// The out-of-line value bytes of the first `k` entries of `s`.
pub open spec fn out_of_line_bytes(s: Seq<TiffIfdEntryToWrite>, k: nat, is_big_tiff: bool) -> Seq<u8>
    decreases k,
{
    if k == 0 {
        Seq::empty()
    } else {
        out_of_line_bytes(s, (k - 1) as nat, is_big_tiff) + if out_of_line(s[k - 1], is_big_tiff) {
            values_bytes(s[k - 1].values@, s[k - 1].field_type)
        } else {
            Seq::empty()
        }
    }
}

/// The bytes of the IFD holding the entries `s` (in that order) written at
/// absolute offset `at` and chained to `next`: entry count, records,
/// next-IFD offset, then the out-of-line values in entry order.
pub open spec fn ifd_layout(s: Seq<TiffIfdEntryToWrite>, is_big_tiff: bool, at: nat, next: u64) -> Seq<u8> {
    count_bytes(s.len(), is_big_tiff) + records_bytes(
        s,
        s.len(),
        is_big_tiff,
        at + fixed_part_size(s.len(), is_big_tiff),
    ) + offset_bytes(next as nat, is_big_tiff) + out_of_line_bytes(s, s.len(), is_big_tiff)
}

/// Each element takes `field_size` bytes.
pub proof fn lemma_values_bytes_len(vals: Seq<u64>, t: FieldType)
    ensures
        values_bytes(vals, t).len() == field_size(t) * vals.len(),
    decreases vals.len(),
{
    if vals.len() > 0 {
        lemma_values_bytes_len(vals.drop_last(), t);
        lemma_le_bytes_len(truncate_to(vals.last(), t), field_size(t));
        assert(field_size(t) * vals.len() == field_size(t) * (vals.len() - 1) + field_size(t))
            by (nonlinear_arith);
    }
}

/// A record is exactly one entry-record long.
pub proof fn lemma_record_len(e: TiffIfdEntryToWrite, is_big_tiff: bool, ool_at: nat)
    ensures
        record_bytes(e, is_big_tiff, ool_at).len() == table_size(1, is_big_tiff),
{
    lemma_le_bytes_len(e.tag_id as nat, 2);
    lemma_le_bytes_len(field_type_code(e.field_type) as nat, 2);
    lemma_le_bytes_len(e.values@.len(), 8);
    lemma_le_bytes_len((e.values@.len() as u32) as nat, 4);
    lemma_le_bytes_len(ool_at, 8);
    lemma_le_bytes_len((ool_at as u32) as nat, 4);
    lemma_values_bytes_len(e.values@, e.field_type);
}

/// `k` records take `k` entry records.
pub proof fn lemma_records_len(s: Seq<TiffIfdEntryToWrite>, k: nat, is_big_tiff: bool, data_at: nat)
    ensures
        records_bytes(s, k, is_big_tiff, data_at).len() == table_size(k, is_big_tiff),
    decreases k,
{
    if k > 0 {
        lemma_records_len(s, (k - 1) as nat, is_big_tiff, data_at);
        lemma_record_len(s[k - 1], is_big_tiff, data_at + out_of_line_total(s, (k - 1) as nat, is_big_tiff));
    }
}

/// The out-of-line bytes take the out-of-line total.
pub proof fn lemma_out_of_line_bytes_len(s: Seq<TiffIfdEntryToWrite>, k: nat, is_big_tiff: bool)
    ensures
        out_of_line_bytes(s, k, is_big_tiff).len() == out_of_line_total(s, k, is_big_tiff),
    decreases k,
{
    if k > 0 {
        lemma_out_of_line_bytes_len(s, (k - 1) as nat, is_big_tiff);
        lemma_values_bytes_len(s[k - 1].values@, s[k - 1].field_type);
    }
}

/// An IFD's layout is [`ifd_size`] bytes long.
pub proof fn lemma_ifd_layout_len(s: Seq<TiffIfdEntryToWrite>, is_big_tiff: bool, at: nat, next: u64)
    ensures
        ifd_layout(s, is_big_tiff, at, next).len() == ifd_size(s, is_big_tiff),
{
    lemma_le_bytes_len(s.len(), 8);
    lemma_le_bytes_len((s.len() as u16) as nat, 2);
    lemma_le_bytes_len(next as nat, 8);
    lemma_le_bytes_len((next as u32) as nat, 4);
    lemma_records_len(s, s.len(), is_big_tiff, at + fixed_part_size(s.len(), is_big_tiff));
    lemma_out_of_line_bytes_len(s, s.len(), is_big_tiff);
}

/// The out-of-line total of a prefix depends only on that prefix.
proof fn lemma_total_prefix(s1: Seq<TiffIfdEntryToWrite>, s2: Seq<TiffIfdEntryToWrite>, k: nat, is_big_tiff: bool)
    requires
        k <= s1.len(),
        k <= s2.len(),
        forall|j: int| 0 <= j < k ==> s1[j] == s2[j],
    ensures
        out_of_line_total(s1, k, is_big_tiff) == out_of_line_total(s2, k, is_big_tiff),
    decreases k,
{
    if k > 0 {
        lemma_total_prefix(s1, s2, (k - 1) as nat, is_big_tiff);
    }
}

/// Removing one entry takes its out-of-line size off the total.
proof fn lemma_total_remove(x: Seq<TiffIfdEntryToWrite>, m: int, is_big_tiff: bool)
    requires
        0 <= m < x.len(),
    ensures
        out_of_line_total(x, x.len(), is_big_tiff) == out_of_line_total(
            x.remove(m),
            (x.len() - 1) as nat,
            is_big_tiff,
        ) + out_of_line_size(x[m], is_big_tiff),
    decreases x.len(),
{
    let n = x.len();
    let r = x.remove(m);
    if m == n - 1 {
        lemma_total_prefix(x, r, (n - 1) as nat, is_big_tiff);
    } else {
        let d = x.drop_last();
        lemma_total_prefix(x, d, (n - 1) as nat, is_big_tiff);
        lemma_total_remove(d, m, is_big_tiff);
        assert(r[n - 2] == x[n - 1]);
        lemma_total_prefix(r, d.remove(m), (n - 2) as nat, is_big_tiff);
    }
}

/// Sorting by tag keeps the out-of-line total.
proof fn lemma_sorted_total(s: Seq<TiffIfdEntryToWrite>, is_big_tiff: bool)
    requires
        s.len() <= usize::MAX,
    ensures
        sorted_by_tag(s).len() == s.len(),
        out_of_line_total(sorted_by_tag(s), s.len(), is_big_tiff) == out_of_line_total(s, s.len(), is_big_tiff),
    decreases s.len(),
{
    lemma_tag_order_exists(s);
    let n = s.len();
    let o = tag_order(s);
    let sorted = sorted_by_tag(s);
    if n > 0 {
        let last = (n - 1) as usize;
        assert(o.contains(last));
        let m = choose|m: int| 0 <= m < o.len() && o[m] == last;
        let s2 = s.drop_last();
        let o2 = o.remove(m);
        // Entries of an ascending tag order are distinct.
        assert forall|i: int, j: int| 0 <= i < o.len() && 0 <= j < o.len() && i != j implies o[i]
            != o[j] by {
            if i < j {
                assert(key_before(s, o[i] as int, o[j] as int));
            } else {
                assert(key_before(s, o[j] as int, o[i] as int));
            }
        }
        assert forall|i: int| 0 <= i < o2.len() implies #[trigger] o2[i] < n - 1 by {
            if i < m {
                assert(o2[i] == o[i]);
            } else {
                assert(o2[i] == o[i + 1]);
            }
        }
        assert forall|k: usize| k < n - 1 implies #[trigger] o2.contains(k) by {
            assert(o.contains(k));
            let w = choose|w: int| 0 <= w < o.len() && o[w] == k;
            if w < m {
                assert(o2[w] == k);
            } else {
                assert(w != m);
                assert(o2[w - 1] == k);
            }
        }
        assert forall|i: int, j: int| 0 <= i < j < o2.len() implies key_before(
            s2,
            #[trigger] o2[i] as int,
            #[trigger] o2[j] as int,
        ) by {
            let a = if i < m { i } else { i + 1 };
            let c = if j < m { j } else { j + 1 };
            assert(o2[i] == o[a] && o2[j] == o[c]);
            assert(key_before(s, o[a] as int, o[c] as int));
        }
        lemma_tag_order_is(s2, o2);
        lemma_sorted_total(s2, is_big_tiff);
        assert(sorted.remove(m) =~= sorted_by_tag(s2));
        lemma_total_remove(sorted, m, is_big_tiff);
        lemma_total_prefix(s, s2, (n - 1) as nat, is_big_tiff);
    }
}

/// The IFD byte size does not depend on the order the entries come in: the
/// size computed from the entries as given ([`tiff_ifd_byte_size`]) is the
/// size of the layout [`write_tiff_ifd`] writes.
pub proof fn lemma_ifd_size_order_free(s: Seq<TiffIfdEntryToWrite>, is_big_tiff: bool, at: nat, next: u64)
    requires
        s.len() <= usize::MAX,
    ensures
        ifd_size(sorted_by_tag(s), is_big_tiff) == ifd_size(s, is_big_tiff),
        ifd_layout(sorted_by_tag(s), is_big_tiff, at, next).len() == ifd_size(s, is_big_tiff),
{
    lemma_sorted_total(s, is_big_tiff);
    lemma_ifd_layout_len(sorted_by_tag(s), is_big_tiff, at, next);
}

// ---------------------------------------------------------------------------
// Size computations.
// ---------------------------------------------------------------------------

/// Byte size of one element of `field_type`.
fn element_size(field_type: FieldType) -> (r: u64)
    ensures
        r == field_size(field_type),
{
    match field_type_size(field_type) {
        Some(size) => size as u64,
        None => 0,
    }
}

/// Byte size of `entry`'s values on disk.
fn entry_value_byte_size(entry: &TiffIfdEntryToWrite) -> (r: u64)
    requires
        value_byte_size(*entry) <= u64::MAX,
    ensures
        r == value_byte_size(*entry),
{
    element_size(entry.field_type) * entry.values.len() as u64
}

/// Byte size the IFD built from `entries` occupies on disk: count field,
/// one record per entry, next-IFD offset, plus every value array too large
/// for the inline value area (4 bytes classic, 8 bytes BigTIFF). Pure
/// arithmetic, so callers can place data before writing a byte.
pub fn tiff_ifd_byte_size(entries: &[TiffIfdEntryToWrite], is_big_tiff: bool) -> (r: u64)
    requires
        ifd_size(entries@, is_big_tiff) <= u64::MAX,
    ensures
        r == ifd_size(entries@, is_big_tiff),
{
    let count_field = if is_big_tiff {
        K_BIG_TIFF_COUNT_FIELD_SIZE
    } else {
        K_CLASSIC_COUNT_FIELD_SIZE
    };
    let entry_size = if is_big_tiff {
        K_BIG_TIFF_ENTRY_SIZE
    } else {
        K_CLASSIC_ENTRY_SIZE
    };
    let next_ifd = if is_big_tiff {
        K_BIG_TIFF_NEXT_IFD_SIZE
    } else {
        K_CLASSIC_NEXT_IFD_SIZE
    };
    let value_area = if is_big_tiff {
        K_BIG_TIFF_VALUE_AREA_SIZE
    } else {
        K_CLASSIC_VALUE_AREA_SIZE
    };
    let n = entries.len();
    proof {
        lemma_out_of_line_total_monotone(entries@, 0, n as nat, is_big_tiff);
    }
    let mut size = count_field + (n as u64) * entry_size + next_ifd;
    let mut i: usize = 0;
    while i < n
        invariant
            n == entries@.len(),
            0 <= i <= n,
            ifd_size(entries@, is_big_tiff) <= u64::MAX,
            value_area as nat == value_area_size(is_big_tiff),
            size == fixed_part_size(n as nat, is_big_tiff) + out_of_line_total(
                entries@,
                i as nat,
                is_big_tiff,
            ),
        decreases n - i,
    {
        proof {
            lemma_out_of_line_total_monotone(entries@, (i + 1) as nat, n as nat, is_big_tiff);
        }
        let entry = &entries[i];
        let fits: bool = entry.values.len() as u64 <= 8 && element_size(entry.field_type)
            * entry.values.len() as u64 <= value_area as u64;
        proof {
            let sz = field_size(entry.field_type);
            let len = entry.values@.len();
            assert(sz >= 1);
            assert(len > 8 ==> sz * len > 8) by (nonlinear_arith)
                requires
                    sz >= 1,
            ;
            assert(fits <==> !out_of_line(*entry, is_big_tiff));
        }
        if !fits {
            let value_bytes = entry_value_byte_size(entry);
            size = size + value_bytes;
        }
        i = i + 1;
    }
    size
}

// ---------------------------------------------------------------------------
// Encoding.
// ---------------------------------------------------------------------------

/// Appends `v` written as one element of `field_type` to `out`.
fn push_element(out: &mut Vec<u8>, field_type: FieldType, v: u64)
    ensures
        final(out)@ == old(out)@ + elem_bytes(v, field_type),
{
    proof {
        lemma_pow256_values();
    }
    match field_type {
        FieldType::Byte => push_uint(out, (v as u8) as u64, 1, Endian::Little),
        FieldType::Short => push_uint(out, (v as u16) as u64, 2, Endian::Little),
        FieldType::Long => push_uint(out, (v as u32) as u64, 4, Endian::Little),
        FieldType::Long8 => push_uint(out, v, 8, Endian::Little),
    }
}

/// Appends all of `entry`'s values to `out`.
fn push_elements(out: &mut Vec<u8>, entry: &TiffIfdEntryToWrite)
    ensures
        final(out)@ == old(out)@ + values_bytes(entry.values@, entry.field_type),
{
    let ghost start = out@;
    let mut i: usize = 0;
    while i < entry.values.len()
        invariant
            0 <= i <= entry.values@.len(),
            out@ == start + values_bytes(entry.values@.subrange(0, i as int), entry.field_type),
        decreases entry.values@.len() - i,
    {
        push_element(out, entry.field_type, entry.values[i]);
        proof {
            let pre = entry.values@.subrange(0, i + 1);
            assert(pre.drop_last() =~= entry.values@.subrange(0, i as int));
        }
        i = i + 1;
    }
    assert(entry.values@.subrange(0, i as int) =~= entry.values@);
}

/// The on-disk type code of `field_type`.
fn field_type_code_of(field_type: FieldType) -> (r: u16)
    ensures
        r == field_type_code(field_type),
{
    match field_type {
        FieldType::Byte => 1,
        FieldType::Short => 3,
        FieldType::Long => 4,
        FieldType::Long8 => 16,
    }
}

/// Whether `entry`'s values fit the inline value area (computed without
/// overflow).
fn fits_inline(entry: &TiffIfdEntryToWrite, is_big_tiff: bool) -> (r: bool)
    ensures
        r == !out_of_line(*entry, is_big_tiff),
{
    let value_area: u64 = if is_big_tiff { 8 } else { 4 };
    let len = entry.values.len() as u64;
    let el = element_size(entry.field_type);
    proof {
        assert(len > 8 ==> el * len > 8) by (nonlinear_arith)
            requires
                el >= 1,
        ;
    }
    if len <= 8 {
        assert(el * len <= 64) by (nonlinear_arith)
            requires
                el <= 8,
                len <= 8,
        ;
        el * len <= value_area
    } else {
        false
    }
}

/// The record of `entry`, whose out-of-line values (if any) go to `ool_at`.
fn encode_record(entry: &TiffIfdEntryToWrite, is_big_tiff: bool, ool_at: u64) -> (record: Vec<u8>)
    requires
        !out_of_line(*entry, is_big_tiff) || value_byte_size(*entry) <= u64::MAX,
    ensures
        record@ == record_bytes(*entry, is_big_tiff, ool_at as nat),
{
    proof {
        lemma_pow256_values();
    }
    let mut record: Vec<u8> = Vec::new();
    push_uint(&mut record, entry.tag_id as u64, 2, Endian::Little);
    push_uint(&mut record, field_type_code_of(entry.field_type) as u64, 2, Endian::Little);
    if is_big_tiff {
        push_uint(&mut record, entry.values.len() as u64, 8, Endian::Little);
    } else {
        push_uint(&mut record, (entry.values.len() as u32) as u64, 4, Endian::Little);
    }
    let ghost head = record@;
    if fits_inline(entry, is_big_tiff) {
        push_elements(&mut record, entry);
        let area: usize = if is_big_tiff { 8 } else { 4 };
        let used = (element_size(entry.field_type) * entry.values.len() as u64) as usize;
        let ghost filled = record@;
        let mut k: usize = used;
        while k < area
            invariant
                used <= k <= area,
                record@ == filled + zeros((k - used) as nat),
            decreases area - k,
        {
            record.push(0u8);
            assert(zeros((k + 1 - used) as nat) =~= zeros((k - used) as nat).push(0u8));
            k = k + 1;
        }
        assert(record@ =~= head + value_area_bytes(*entry, is_big_tiff, ool_at as nat));
    } else {
        if is_big_tiff {
            push_uint(&mut record, ool_at, 8, Endian::Little);
        } else {
            push_uint(&mut record, (ool_at as u32) as u64, 4, Endian::Little);
        }
        assert(record@ =~= head + value_area_bytes(*entry, is_big_tiff, ool_at as nat));
    }
    record
}

/// Writes `bytes` at the cursor, ignoring how many were taken.
fn write_chunk<W: BinaryWriter>(writer: &mut W, bytes: &[u8]) -> (r: Result<()>)
    ensures
        final(writer).reliable() == old(writer).reliable(),
        old(writer).reliable() && old(writer).pos() + bytes@.len() <= usize::MAX ==> {
            &&& r is Ok
            &&& final(writer).bytes() == overwrite_at(old(writer).bytes(), old(writer).pos(), bytes@)
            &&& final(writer).pos() == old(writer).pos() + bytes@.len()
        },
{
    let n = writer.write(bytes)?;
    proof {
        if old(writer).reliable() && old(writer).pos() + bytes@.len() <= usize::MAX {
            assert(bytes@.subrange(0, n as int) =~= bytes@);
        }
    }
    Ok(())
}

/// Writes the IFD holding `entries` at the writer's cursor: the entry count,
/// the records sorted ascending by tag id (ties in input order), the
/// next-IFD offset `next_ifd_offset` (0 for the last IFD of a chain), then
/// every out-of-line value array in record order; always little-endian.
/// On a reliable writer the bytes written are exactly
/// [`ifd_layout`] of [`sorted_by_tag`] at the cursor.
pub fn write_tiff_ifd<W: BinaryWriter>(
    writer: &mut W,
    entries: Vec<TiffIfdEntryToWrite>,
    is_big_tiff: bool,
    next_ifd_offset: u64,
) -> (r: Result<()>)
    requires
        old(writer).pos() + ifd_size(entries@, is_big_tiff) <= u64::MAX,
    ensures
        final(writer).reliable() == old(writer).reliable(),
        old(writer).reliable() && old(writer).pos() + ifd_size(entries@, is_big_tiff) <= usize::MAX
            ==> {
            &&& r is Ok
            &&& final(writer).bytes() == overwrite_at(
                old(writer).bytes(),
                old(writer).pos(),
                ifd_layout(sorted_by_tag(entries@), is_big_tiff, old(writer).pos(), next_ifd_offset),
            )
            &&& final(writer).pos() == old(writer).pos() + ifd_size(entries@, is_big_tiff)
        },
{
    let order = tag_sorted_order(entries.as_slice());
    let ghost s = sorted_by_tag(entries@);
    let n = entries.len();
    proof {
        lemma_ifd_size_order_free(entries@, is_big_tiff, 0, next_ifd_offset);
    }
    let ghost b0 = writer.bytes();
    let ghost p0 = writer.pos();
    let ghost reliable = writer.reliable();
    let ghost total = ifd_size(s, is_big_tiff);
    let ghost full = reliable && p0 + total <= usize::MAX;
    let ifd_start = writer.position()?;
    proof {
        lemma_out_of_line_total_monotone(s, 0, n as nat, is_big_tiff);
        lemma_ifd_layout_len(s, is_big_tiff, p0, next_ifd_offset);
        lemma_pow256_values();
        lemma_records_len(s, n as nat, is_big_tiff, p0 + fixed_part_size(n as nat, is_big_tiff));
    }
    let entry_size: u64 = if is_big_tiff { 20 } else { 12 };
    let count_field: u64 = if is_big_tiff { 8 } else { 2 };
    let next_field: u64 = if is_big_tiff { 8 } else { 4 };
    let fixed_size: u64 = count_field + (n as u64) * entry_size + next_field;
    let ghost data_at = p0 + fixed_part_size(n as nat, is_big_tiff);

    // Entry count field.
    let mut count_buf: Vec<u8> = Vec::new();
    if is_big_tiff {
        push_uint(&mut count_buf, n as u64, 8, Endian::Little);
    } else {
        push_uint(&mut count_buf, (n as u16) as u64, 2, Endian::Little);
    }
    proof {
        lemma_le_bytes_len(n as nat, 8);
        lemma_le_bytes_len((n as u16) as nat, 2);
    }
    write_chunk(writer, count_buf.as_slice())?;
    let ghost mut written = count_buf@;
    assert(written == count_bytes(n as nat, is_big_tiff));

    // Entry records.
    let mut ool_cursor: u64 = ifd_start + fixed_size;
    let mut i: usize = 0;
    while i < n
        invariant
            n == entries@.len(),
            order@ == tag_order(entries@),
            is_tag_order(entries@, order@),
            s == sorted_by_tag(entries@),
            s.len() == n,
            total == ifd_size(s, is_big_tiff),
            total == ifd_size(entries@, is_big_tiff),
            full == (reliable && p0 + total <= usize::MAX),
            reliable == old(writer).reliable(),
            b0 == old(writer).bytes(),
            p0 == old(writer).pos(),
            ifd_start == p0,
            p0 + total <= u64::MAX,
            data_at == p0 + fixed_part_size(n as nat, is_big_tiff),
            out_of_line_total(s, 0, is_big_tiff) <= out_of_line_total(s, n as nat, is_big_tiff),
            0 <= i <= n,
            writer.reliable() == reliable,
            full ==> writer.bytes() == overwrite_at(b0, p0, written),
            full ==> writer.pos() == p0 + written.len(),
            written == count_bytes(n as nat, is_big_tiff) + records_bytes(s, i as nat, is_big_tiff, data_at),
            written.len() == count_field_size(is_big_tiff) + table_size(i as nat, is_big_tiff),
            ool_cursor == data_at + out_of_line_total(s, i as nat, is_big_tiff),
        decreases n - i,
    {
        proof {
            lemma_out_of_line_total_monotone(s, (i + 1) as nat, n as nat, is_big_tiff);
            assert(s[i as int] == entries@[order@[i as int] as int]);
        }
        let entry = &entries[order[i]];
        let record = encode_record(entry, is_big_tiff, ool_cursor);
        proof {
            lemma_record_len(*entry, is_big_tiff, ool_cursor as nat);
            assert(table_size((i + 1) as nat, is_big_tiff) <= table_size(n as nat, is_big_tiff));
            if full {
                lemma_overwrite_at_concat(b0, p0, written, record@);
            }
        }
        write_chunk(writer, record.as_slice())?;
        proof {
            assert(written + record@ =~= count_bytes(n as nat, is_big_tiff) + records_bytes(
                s,
                (i + 1) as nat,
                is_big_tiff,
                data_at,
            ));
            written = written + record@;
        }
        if !fits_inline(entry, is_big_tiff) {
            ool_cursor = ool_cursor + entry_value_byte_size(entry);
        }
        i = i + 1;
    }

    // Next-IFD offset.
    let mut next_buf: Vec<u8> = Vec::new();
    if is_big_tiff {
        push_uint(&mut next_buf, next_ifd_offset, 8, Endian::Little);
    } else {
        push_uint(&mut next_buf, (next_ifd_offset as u32) as u64, 4, Endian::Little);
    }
    proof {
        lemma_le_bytes_len(next_ifd_offset as nat, 8);
        lemma_le_bytes_len((next_ifd_offset as u32) as nat, 4);
        if full {
            lemma_overwrite_at_concat(b0, p0, written, next_buf@);
        }
    }
    write_chunk(writer, next_buf.as_slice())?;
    proof {
        written = written + next_buf@;
    }

    // Out-of-line value bytes.
    let mut i: usize = 0;
    while i < n
        invariant
            n == entries@.len(),
            order@ == tag_order(entries@),
            is_tag_order(entries@, order@),
            s == sorted_by_tag(entries@),
            s.len() == n,
            total == ifd_size(s, is_big_tiff),
            total == ifd_size(entries@, is_big_tiff),
            full == (reliable && p0 + total <= usize::MAX),
            reliable == old(writer).reliable(),
            b0 == old(writer).bytes(),
            p0 == old(writer).pos(),
            p0 + total <= u64::MAX,
            0 <= i <= n,
            writer.reliable() == reliable,
            full ==> writer.bytes() == overwrite_at(b0, p0, written),
            full ==> writer.pos() == p0 + written.len(),
            written == count_bytes(n as nat, is_big_tiff) + records_bytes(s, n as nat, is_big_tiff, data_at)
                + offset_bytes(next_ifd_offset as nat, is_big_tiff) + out_of_line_bytes(s, i as nat, is_big_tiff),
            written.len() == fixed_part_size(n as nat, is_big_tiff) + out_of_line_total(s, i as nat, is_big_tiff),
        decreases n - i,
    {
        proof {
            lemma_out_of_line_total_monotone(s, (i + 1) as nat, n as nat, is_big_tiff);
            assert(s[i as int] == entries@[order@[i as int] as int]);
        }
        let entry = &entries[order[i]];
        if !fits_inline(entry, is_big_tiff) {
            let mut buffer: Vec<u8> = Vec::new();
            push_elements(&mut buffer, entry);
            proof {
                lemma_values_bytes_len(entry.values@, entry.field_type);
                if full {
                    lemma_overwrite_at_concat(b0, p0, written, buffer@);
                }
            }
            write_chunk(writer, buffer.as_slice())?;
            proof {
                written = written + buffer@;
            }
        }
        proof {
            assert(written =~= count_bytes(n as nat, is_big_tiff) + records_bytes(s, n as nat, is_big_tiff, data_at)
                + offset_bytes(next_ifd_offset as nat, is_big_tiff) + out_of_line_bytes(s, (i + 1) as nat, is_big_tiff));
        }
        i = i + 1;
    }
    proof {
        assert(written =~= ifd_layout(s, is_big_tiff, p0, next_ifd_offset));
    }
    Ok(())
}

// ---------------------------------------------------------------------------
// Value slot addresses.
// ---------------------------------------------------------------------------

/// Offset, from the IFD's first byte, of the first value slot of entry `i`
/// of `s`: inside its record's value area when inline, else in the
/// out-of-line region after the fixed part.
pub open spec fn slot_base(s: Seq<TiffIfdEntryToWrite>, i: nat, is_big_tiff: bool) -> nat {
    if out_of_line(s[i as int], is_big_tiff) {
        fixed_part_size(s.len(), is_big_tiff) + out_of_line_total(s, i, is_big_tiff)
    } else {
        count_field_size(is_big_tiff) + table_size(i, is_big_tiff) + if is_big_tiff {
            12nat
        } else {
            8nat
        }
    }
}

/// Offsets, from the IFD's first byte, of every value slot of entry `i`.
pub open spec fn slot_offsets(s: Seq<TiffIfdEntryToWrite>, i: nat, is_big_tiff: bool) -> Seq<u64> {
    Seq::new(
        s[i as int].values@.len(),
        |k: int| (slot_base(s, i, is_big_tiff) + k * field_size(s[i as int].field_type)) as u64,
    )
}

/// The slot offsets of the first `k` entries of `s` keyed by tag (a later
/// entry with the same tag replaces an earlier one).
pub open spec fn slot_map(s: Seq<TiffIfdEntryToWrite>, k: nat, is_big_tiff: bool) -> Map<u16, Seq<u64>>
    decreases k,
{
    if k == 0 {
        Map::empty()
    } else {
        slot_map(s, (k - 1) as nat, is_big_tiff).insert(
            s[k - 1].tag_id,
            slot_offsets(s, (k - 1) as nat, is_big_tiff),
        )
    }
}

/// Every slot offset of entry `i` lies within the IFD.
proof fn lemma_slot_offsets_bound(s: Seq<TiffIfdEntryToWrite>, i: nat, is_big_tiff: bool)
    requires
        i < s.len(),
        ifd_size(s, is_big_tiff) <= u64::MAX,
    ensures
        forall|j: int|
            0 <= j < s[i as int].values@.len() ==> #[trigger] slot_offsets(s, i, is_big_tiff)[j]
                <= ifd_size(s, is_big_tiff),
{
    let e = s[i as int];
    let size = field_size(e.field_type);
    let n = s.len();
    lemma_out_of_line_total_monotone(s, i + 1, n, is_big_tiff);
    lemma_out_of_line_total_monotone(s, 0, n, is_big_tiff);
    assert(table_size(i + 1, is_big_tiff) <= table_size(n, is_big_tiff));
    assert forall|j: int| 0 <= j < e.values@.len() implies #[trigger] slot_offsets(s, i, is_big_tiff)[j]
        <= ifd_size(s, is_big_tiff) by {
        assert(j * size + size <= e.values@.len() * size) by (nonlinear_arith)
            requires
                0 <= j < e.values@.len(),
                size >= 1,
        ;
        assert(value_byte_size(e) == size * e.values@.len());
        assert(slot_base(s, i, is_big_tiff) + j * size <= ifd_size(s, is_big_tiff));
    }
}

/// Every slot offset in the slot map lies within the IFD.
pub proof fn lemma_slot_map_bound(s: Seq<TiffIfdEntryToWrite>, k: nat, is_big_tiff: bool)
    requires
        k <= s.len(),
        ifd_size(s, is_big_tiff) <= u64::MAX,
    ensures
        forall|t: u16, j: int|
            slot_map(s, k, is_big_tiff).contains_key(t) && 0 <= j < slot_map(s, k, is_big_tiff)[t].len()
                ==> #[trigger] slot_map(s, k, is_big_tiff)[t][j] <= ifd_size(s, is_big_tiff),
    decreases k,
{
    if k > 0 {
        let prev = slot_map(s, (k - 1) as nat, is_big_tiff);
        let cur = slot_map(s, k, is_big_tiff);
        lemma_slot_map_bound(s, (k - 1) as nat, is_big_tiff);
        lemma_slot_offsets_bound(s, (k - 1) as nat, is_big_tiff);
        assert forall|t: u16, j: int| cur.contains_key(t) && 0 <= j < cur[t].len() implies #[trigger] cur[t][j]
            <= ifd_size(s, is_big_tiff) by {
            if t == s[k - 1].tag_id {
                assert(cur[t] == slot_offsets(s, (k - 1) as nat, is_big_tiff));
            } else {
                assert(cur[t] == prev[t]);
                assert(prev[t][j] <= ifd_size(s, is_big_tiff));
            }
        }
    }
}

/// Offset, relative to the IFD's first byte, of every value slot each entry
/// writes, keyed by tag id: the `k`-th offset is where the entry's `k`-th
/// value lands in the layout `write_tiff_ifd` produces.
pub fn value_slot_offsets_relative(entries: &[TiffIfdEntryToWrite], is_big_tiff: bool) -> (m: BTreeMap<u16, Vec<u64>>)
    requires
        ifd_size(entries@, is_big_tiff) <= u64::MAX,
    ensures
        m@.map_values(|v: Vec<u64>| v@) == slot_map(sorted_by_tag(entries@), entries@.len(), is_big_tiff),
{
    let order = tag_sorted_order(entries);
    let ghost s = sorted_by_tag(entries@);
    let n = entries.len();
    proof {
        lemma_ifd_size_order_free(entries@, is_big_tiff, 0, 0);
    }
    let entry_size: u64 = if is_big_tiff { 20 } else { 12 };
    let count_field: u64 = if is_big_tiff { 8 } else { 2 };
    let next_field: u64 = if is_big_tiff { 8 } else { 4 };
    let value_offset_in_record: u64 = if is_big_tiff { 12 } else { 8 };
    proof {
        lemma_out_of_line_total_monotone(s, 0, n as nat, is_big_tiff);
    }
    let fixed_size: u64 = count_field + (n as u64) * entry_size + next_field;
    let mut map: BTreeMap<u16, Vec<u64>> = BTreeMap::new();
    let mut cursor: u64 = fixed_size;
    let mut i: usize = 0;
    while i < n
        invariant
            n == entries@.len(),
            order@ == tag_order(entries@),
            is_tag_order(entries@, order@),
            s == sorted_by_tag(entries@),
            s.len() == n,
            ifd_size(s, is_big_tiff) <= u64::MAX,
            fixed_size == fixed_part_size(n as nat, is_big_tiff),
            entry_size == table_size(1, is_big_tiff),
            count_field == count_field_size(is_big_tiff),
            value_offset_in_record == (if is_big_tiff { 12nat } else { 8nat }),
            0 <= i <= n,
            cursor == fixed_size + out_of_line_total(s, i as nat, is_big_tiff),
            map@.map_values(|v: Vec<u64>| v@) == slot_map(s, i as nat, is_big_tiff),
        decreases n - i,
    {
        proof {
            lemma_out_of_line_total_monotone(s, (i + 1) as nat, n as nat, is_big_tiff);
            assert(s[i as int] == entries@[order@[i as int] as int]);
        }
        let entry = &entries[order[i]];
        let elem = element_size(entry.field_type);
        let inline = fits_inline(entry, is_big_tiff);
        let base: u64 = if inline {
            count_field + (i as u64) * entry_size + value_offset_in_record
        } else {
            cursor
        };
        assert(base == slot_base(s, i as nat, is_big_tiff));
        proof {
            assert(table_size((i + 1) as nat, is_big_tiff) <= table_size(n as nat, is_big_tiff))
                by (nonlinear_arith)
                requires
                    i < n,
            ;
            assert(field_size(entry.field_type) >= 1);
        }
        let len = entry.values.len();
        let mut slots: Vec<u64> = Vec::new();
        let mut k: usize = 0;
        while k < len
            invariant
                len == entry.values@.len(),
                base == slot_base(s, i as nat, is_big_tiff),
                elem == field_size(entry.field_type),
                *entry == s[i as int],
                i < n,
                base + value_byte_size(*entry) <= u64::MAX,
                0 <= k <= len,
                slots@ =~= slot_offsets(s, i as nat, is_big_tiff).subrange(0, k as int),
            decreases len - k,
        {
            proof {
                assert((k as nat) * elem < value_byte_size(*entry)) by (nonlinear_arith)
                    requires
                        k < len,
                        elem >= 1,
                        value_byte_size(*entry) == elem * len,
                ;
            }
            slots.push(base + (k as u64) * elem);
            k = k + 1;
        }
        assert(slots@ =~= slot_offsets(s, i as nat, is_big_tiff));
        let tag = entry.tag_id;
        let ghost before = map@;
        map.insert(tag, slots);
        assert(map@ == before.insert(tag, slots));
        proof {
            assert(map@.map_values(|v: Vec<u64>| v@) =~= slot_map(s, (i + 1) as nat, is_big_tiff));
        }
        if !inline {
            cursor = cursor + entry_value_byte_size(entry);
        }
        i = i + 1;
    }
    map
}

} // verus!
