//! PTIFF extension metadata: the versioned binary payload carried by the
//! five private TIFF tags 65001-65005.
//!
//! A payload is the magic `PTIFF`, a little-endian 16-bit format version, a
//! 32-bit record count, then per record a 16-bit key length, the key's UTF-8
//! bytes, a 32-bit value length and the value's UTF-8 bytes
//! ([`metadata_payload`]). Records are written sorted by key (byte-wise,
//! ties in input order), so equal metadata always yields equal bytes.
use crate::error::{Error, ErrorCode, Result};
use crate::io::storage_model::{Entries, StorageModel};
use crate::text::{bytes_lt, lemma_bytes_lt_irreflexive, lemma_utf8_injective, lemma_bytes_lt_total, lemma_bytes_lt_transitive, str_eq, str_less, utf8};
use vstd::prelude::*;
use vstd::utf8::{decode_utf8, encode_utf8_decode_utf8, encode_utf8_valid_utf8, valid_utf8};

use super::endian::{lemma_le_bytes_len, lemma_pow256_values, lemma_uint_bytes_round_trip, lemma_uint_round_trip, push_uint, read_uint, uint_bytes, uint_value, Endian};

verus! {

/// PTIFF extension payload format version. A payload of a later version is
/// rejected by the decoder (the reader then treats the domain as absent).
pub const K_PTIFF_METADATA_VERSION: u16 = 1;

/// The ASCII magic `PTIFF` that starts every payload.
pub open spec fn magic() -> Seq<u8> {
    seq![80u8, 84u8, 73u8, 70u8, 70u8]
}

/// One (key, value) record. Unknown keys are kept verbatim.
#[derive(Debug, Clone, PartialEq, Eq)]
pub struct MetadataRecord {
    /// The record key (domain field name).
    pub key: String,
    /// The record value.
    pub value: String,
}

impl MetadataRecord {
    /// The record (`key`, `value`).
    pub fn new(key: String, value: String) -> (r: Self)
        ensures
            r.key@ == key@,
            r.value@ == value@,
    {
        MetadataRecord { key, value }
    }
}

/// Records as (key, value) character sequences.
pub type RecordsView = Seq<(Seq<char>, Seq<char>)>;

/// The (key, value) view of each record.
pub open spec fn records_view(s: Seq<MetadataRecord>) -> RecordsView {
    s.map_values(|r: MetadataRecord| (r.key@, r.value@))
}

// ---------------------------------------------------------------------------
// Encoding.
// ---------------------------------------------------------------------------

/// One record's bytes: 16-bit key length, key bytes, 32-bit value length,
/// value bytes.
pub open spec fn record_encoding(key: Seq<char>, value: Seq<char>) -> Seq<u8> {
    uint_bytes(utf8(key).len(), 2, Endian::Little) + utf8(key) + uint_bytes(
        utf8(value).len(),
        4,
        Endian::Little,
    ) + utf8(value)
}

/// The bytes of the first `n` records of `s`.
pub open spec fn records_encoding(s: RecordsView, n: nat) -> Seq<u8>
    decreases n,
{
    if n == 0 {
        Seq::empty()
    } else {
        records_encoding(s, (n - 1) as nat) + record_encoding(s[n - 1].0, s[n - 1].1)
    }
}

/// The payload header for `n` records: magic, version 1, record count.
pub open spec fn payload_header(n: nat) -> Seq<u8> {
    magic() + uint_bytes(1, 2, Endian::Little) + uint_bytes(n, 4, Endian::Little)
}

/// The payload holding the records `s` in that order.
pub open spec fn metadata_payload(s: RecordsView) -> Seq<u8> {
    payload_header(s.len()) + records_encoding(s, s.len())
}

/// The records fit the format: at most `u32::MAX` records, keys of at most
/// 65535 bytes, values of at most `u32::MAX` bytes.
pub open spec fn encodable(s: RecordsView) -> bool {
    &&& s.len() <= u32::MAX
    &&& forall|i: int|
        0 <= i < s.len() ==> utf8(#[trigger] s[i].0).len() <= 0xFFFF && utf8(s[i].1).len()
            <= 0xFFFF_FFFF
}

/// Record `a` of `s` comes before record `b`: a byte-wise smaller key, or
/// an equal key and an earlier position.
pub open spec fn key_first(s: RecordsView, a: int, b: int) -> bool {
    bytes_lt(utf8(s[a].0), utf8(s[b].0)) || (utf8(s[a].0) == utf8(s[b].0) && a < b)
}

/// `o` lists every index below `k` exactly once, in ascending key order.
pub open spec fn is_key_order_upto(s: RecordsView, o: Seq<usize>, k: nat) -> bool {
    &&& o.len() == k
    &&& forall|i: int| 0 <= i < o.len() ==> #[trigger] o[i] < k
    &&& forall|m: usize| m < k ==> #[trigger] o.contains(m)
    &&& forall|i: int, j: int|
        0 <= i < j < o.len() ==> key_first(s, #[trigger] o[i] as int, #[trigger] o[j] as int)
}

/// `o` lists every index of `s` exactly once, in ascending key order with
/// ties in input order.
pub open spec fn is_key_order(s: RecordsView, o: Seq<usize>) -> bool {
    is_key_order_upto(s, o, s.len())
}

/// The ascending key order of `s` (unique: [`lemma_key_order_unique`]).
pub open spec fn key_order(s: RecordsView) -> Seq<usize> {
    choose|o: Seq<usize>| is_key_order(s, o)
}

/// `s` sorted by key byte-wise, ties kept in input order.
pub open spec fn sorted_by_key(s: RecordsView) -> RecordsView {
    key_order(s).map_values(|i: usize| s[i as int])
}

/// Two ascending key orders agree up to position `i`.
proof fn lemma_key_order_prefix(s: RecordsView, o1: Seq<usize>, o2: Seq<usize>, i: int)
    requires
        is_key_order(s, o1),
        is_key_order(s, o2),
        0 <= i < o1.len(),
    ensures
        forall|j: int| 0 <= j <= i ==> o1[j] == o2[j],
    decreases i,
{
    if i > 0 {
        lemma_key_order_prefix(s, o1, o2, i - 1);
    }
    let a = o1[i];
    let b = o2[i];
    if a != b {
        assert(o2.contains(a));
        let w = choose|w: int| 0 <= w < o2.len() && o2[w] == a;
        assert(o1.contains(b));
        let v = choose|v: int| 0 <= v < o1.len() && o1[v] == b;
        lemma_bytes_lt_irreflexive(utf8(s[a as int].0));
        lemma_bytes_lt_irreflexive(utf8(s[b as int].0));
        if w < i {
            assert(o1[w] == a);
            assert(key_first(s, o1[w] as int, o1[i] as int));
        }
        if v < i {
            assert(o2[v] == b);
            assert(key_first(s, o2[v] as int, o2[i] as int));
        }
        assert(key_first(s, o2[i] as int, o2[w] as int));
        assert(key_first(s, o1[i] as int, o1[v] as int));
        if bytes_lt(utf8(s[a as int].0), utf8(s[b as int].0)) && bytes_lt(
            utf8(s[b as int].0),
            utf8(s[a as int].0),
        ) {
            lemma_bytes_lt_transitive(utf8(s[a as int].0), utf8(s[b as int].0), utf8(s[a as int].0));
        }
    }
}

/// The ascending key order of a sequence of records is unique.
pub proof fn lemma_key_order_unique(s: RecordsView, o1: Seq<usize>, o2: Seq<usize>)
    requires
        is_key_order(s, o1),
        is_key_order(s, o2),
    ensures
        o1 == o2,
{
    if o1.len() > 0 {
        lemma_key_order_prefix(s, o1, o2, o1.len() - 1);
    }
    assert(o1 =~= o2);
}

/// Inserting index `k` where the keys not after its own end extends an
/// ascending key order of the indices below `k`.
proof fn lemma_insert_in_key_order(s: RecordsView, o: Seq<usize>, k: usize, j: int)
    requires
        is_key_order_upto(s, o, k as nat),
        k < s.len(),
        0 <= j <= k,
        j > 0 ==> !bytes_lt(utf8(s[k as int].0), utf8(s[o[j - 1] as int].0)),
        forall|i: int| j <= i < k ==> bytes_lt(utf8(s[k as int].0), utf8(s[o[i] as int].0)),
    ensures
        is_key_order_upto(s, o.insert(j, k), (k + 1) as nat),
{
    let no = o.insert(j, k);
    let kk = utf8(s[k as int].0);
    // Every key placed before position j sorts at or before k's key.
    assert forall|i: int| 0 <= i < j implies key_first(s, o[i] as int, k as int) by {
        let last = utf8(s[o[j - 1] as int].0);
        if last != kk {
            lemma_bytes_lt_total(last, kk);
        }
        let ki = utf8(s[o[i] as int].0);
        if i < j - 1 {
            assert(key_first(s, o[i] as int, o[j - 1] as int));
            if bytes_lt(ki, last) && bytes_lt(last, kk) {
                lemma_bytes_lt_transitive(ki, last, kk);
            }
        }
    }
    assert forall|i: int, l: int| 0 <= i < l < k + 1 implies key_first(
        s,
        #[trigger] no[i] as int,
        #[trigger] no[l] as int,
    ) by {
        if i < j && l < j {
            assert(key_first(s, o[i] as int, o[l] as int));
        } else if i < j && l > j {
            assert(key_first(s, o[i] as int, o[l - 1] as int));
        } else if i == j {
            assert(bytes_lt(kk, utf8(s[o[l - 1] as int].0)));
        } else if i > j {
            assert(key_first(s, o[i - 1] as int, o[l - 1] as int));
        }
    }
    assert forall|m: usize| m < k + 1 implies #[trigger] no.contains(m) by {
        if m == k {
            assert(no[j] == m);
        } else {
            assert(o.contains(m));
            let w = choose|w: int| 0 <= w < o.len() && o[w] == m;
            if w < j {
                assert(no[w] == m);
            } else {
                assert(no[w + 1] == m);
            }
        }
    }
    assert forall|i: int| 0 <= i < k + 1 implies #[trigger] no[i] < k + 1 by {
        if i < j {
            assert(no[i] == o[i]);
        } else if i > j {
            assert(no[i] == o[i - 1]);
        }
    }
}

/// Where index `k` goes in the order `o`: past every entry whose key does
/// not sort after `k`'s, scanning back from position `j`.
spec fn insert_pos(s: RecordsView, o: Seq<usize>, k: usize, j: int) -> int
    decreases j,
{
    if j > 0 && bytes_lt(utf8(s[k as int].0), utf8(s[o[j - 1] as int].0)) {
        insert_pos(s, o, k, j - 1)
    } else {
        j
    }
}

proof fn lemma_insert_pos(s: RecordsView, o: Seq<usize>, k: usize, j: int)
    requires
        0 <= j <= o.len(),
        forall|i: int| j <= i < o.len() ==> bytes_lt(utf8(s[k as int].0), utf8(s[o[i] as int].0)),
    ensures
        0 <= insert_pos(s, o, k, j) <= j,
        insert_pos(s, o, k, j) > 0 ==> !bytes_lt(
            utf8(s[k as int].0),
            utf8(s[o[insert_pos(s, o, k, j) - 1] as int].0),
        ),
        forall|i: int|
            insert_pos(s, o, k, j) <= i < o.len() ==> bytes_lt(utf8(s[k as int].0), utf8(s[o[i] as int].0)),
    decreases j,
{
    if j > 0 && bytes_lt(utf8(s[k as int].0), utf8(s[o[j - 1] as int].0)) {
        lemma_insert_pos(s, o, k, j - 1);
    }
}

/// An ascending key order of the indices below `k` exists.
proof fn lemma_key_order_upto_exists(s: RecordsView, k: nat)
    requires
        k <= s.len(),
        s.len() <= usize::MAX,
    ensures
        exists|o: Seq<usize>| #[trigger] is_key_order_upto(s, o, k),
    decreases k,
{
    if k == 0 {
        assert(is_key_order_upto(s, Seq::<usize>::empty(), 0));
    } else {
        lemma_key_order_upto_exists(s, (k - 1) as nat);
        let o = choose|o: Seq<usize>| #[trigger] is_key_order_upto(s, o, (k - 1) as nat);
        let kk = (k - 1) as usize;
        lemma_insert_pos(s, o, kk, o.len() as int);
        let j = insert_pos(s, o, kk, o.len() as int);
        lemma_insert_in_key_order(s, o, kk, j);
    }
}

/// Records whose keys differ pairwise encode to the same payload whatever
/// their order: for `s2` a permutation `p` of `s1` (`s2[i]` is
/// `s1[p[i]]`), sorting by key gives the same records, hence the same
/// bytes.
pub proof fn lemma_payload_order_free(s1: RecordsView, s2: RecordsView, p: Seq<usize>)
    requires
        s1.len() <= usize::MAX,
        s2.len() == s1.len(),
        p.len() == s1.len(),
        forall|i: int| 0 <= i < p.len() ==> #[trigger] p[i] < s1.len() && s2[i] == s1[p[i] as int],
        forall|i: int, j: int| 0 <= i < j < p.len() ==> #[trigger] p[i] != #[trigger] p[j],
        forall|m: usize| m < s1.len() ==> #[trigger] p.contains(m),
        forall|i: int, j: int| 0 <= i < j < s1.len() ==> #[trigger] s1[i].0 != #[trigger] s1[j].0,
    ensures
        sorted_by_key(s1) == sorted_by_key(s2),
        metadata_payload(sorted_by_key(s1)) == metadata_payload(sorted_by_key(s2)),
{
    let n = s1.len();
    lemma_key_order_upto_exists(s2, n);
    let some = choose|o: Seq<usize>| #[trigger] is_key_order_upto(s2, o, n);
    assert(is_key_order(s2, some));
    let o2 = key_order(s2);
    assert(is_key_order(s2, o2));
    let o1 = o2.map_values(|i: usize| p[i as int]);
    assert forall|i: int| 0 <= i < o1.len() implies #[trigger] o1[i] < n by {
        assert(o2[i] < n);
    }
    assert forall|m: usize| m < n implies #[trigger] o1.contains(m) by {
        assert(p.contains(m));
        let w = choose|w: int| 0 <= w < p.len() && p[w] == m;
        assert(0 <= w < n);
        assert(o2.contains(w as usize));
        let v = choose|v: int| 0 <= v < o2.len() && o2[v] == w as usize;
        assert(o1[v] == m);
    }
    assert forall|a: int, b: int| 0 <= a < b < o1.len() implies key_first(
        s1,
        #[trigger] o1[a] as int,
        #[trigger] o1[b] as int,
    ) by {
        let x = o2[a] as int;
        let y = o2[b] as int;
        assert(key_first(s2, o2[a] as int, o2[b] as int));
        assert(x != y) by {
            if x == y {
                assert(o2.contains(o2[a]));
                assert(o2[a] == o2[b]);
                // An order lists each index once.
                lemma_key_order_no_repeat(s2, o2, a, b);
            }
        }
        assert(p[x] != p[y]) by {
            if x < y {
                assert(p[x] != p[y]);
            } else {
                assert(p[y] != p[x]);
            }
        }
        let px = p[x] as int;
        let py = p[y] as int;
        if px < py {
            assert(s1[px].0 != s1[py].0);
        } else {
            assert(s1[py].0 != s1[px].0);
        }
        lemma_utf8_injective(s1[px].0, s1[py].0);
    }
    assert(is_key_order(s1, o1));
    lemma_key_order_unique(s1, o1, key_order(s1));
    assert(sorted_by_key(s1) =~= sorted_by_key(s2));
}

/// An ascending key order lists no index twice.
proof fn lemma_key_order_no_repeat(s: RecordsView, o: Seq<usize>, a: int, b: int)
    requires
        is_key_order(s, o),
        0 <= a < b < o.len(),
    ensures
        o[a] != o[b],
{
    assert(key_first(s, o[a] as int, o[b] as int));
    lemma_bytes_lt_irreflexive(utf8(s[o[a] as int].0));
}

/// The ascending key order of `records` (a stable insertion sort of the
/// record indices).
fn key_sorted_order(records: &[MetadataRecord]) -> (order: Vec<usize>)
    ensures
        is_key_order(records_view(records@), order@),
        order@ == key_order(records_view(records@)),
{
    let ghost s = records_view(records@);
    let n = records.len();
    let mut order: Vec<usize> = Vec::new();
    let mut k: usize = 0;
    while k < n
        invariant
            n == records@.len(),
            s == records_view(records@),
            k <= n,
            is_key_order_upto(s, order@, k as nat),
        decreases n - k,
    {
        let mut j: usize = k;
        while j > 0 && str_less(records[k].key.as_str(), records[order[j - 1]].key.as_str())
            invariant
                n == records@.len(),
                s == records_view(records@),
                k < n,
                is_key_order_upto(s, order@, k as nat),
                j <= k,
                forall|i: int| j <= i < k ==> bytes_lt(utf8(s[k as int].0), utf8(s[order@[i] as int].0)),
            decreases j,
        {
            j = j - 1;
        }
        proof {
            lemma_insert_in_key_order(s, order@, k, j as int);
        }
        order.insert(j, k);
        k = k + 1;
    }
    proof {
        assert(is_key_order(s, order@));
        lemma_key_order_unique(s, key_order(s), order@);
    }
    order
}

/// Appends `b` to `out`.
fn push_bytes(out: &mut Vec<u8>, b: &[u8])
    ensures
        final(out)@ == old(out)@ + b@,
{
    out.extend_from_slice(b);
    assert(out@ =~= old(out)@ + b@);
}

/// Encodes `records` into a payload, sorted by key (byte-wise, ties in input
/// order) so the encoding is canonical. [`ErrorCode::InvalidArgument`]
/// exactly when a key is longer than 65535 bytes, a value longer than
/// `u32::MAX` bytes, or there are more than `u32::MAX` records.
pub fn encode_metadata_payload(records: &[MetadataRecord]) -> (r: Result<Vec<u8>>)
    ensures
        r is Ok <==> encodable(records_view(records@)),
        r matches Ok(b) ==> b@ == metadata_payload(sorted_by_key(records_view(records@))),
        r matches Err(e) ==> e.kind() == ErrorCode::InvalidArgument,
{
    let order = key_sorted_order(records);
    let ghost s = records_view(records@);
    let ghost sorted = sorted_by_key(s);
    let n = records.len();
    proof {
        lemma_pow256_values();
        assert(sorted.len() == n);
        assert forall|i: int| 0 <= i < n implies #[trigger] sorted[i] == s[order@[i] as int] by {}
    }
    let mut out: Vec<u8> = Vec::new();
    out.push(80u8);
    out.push(84u8);
    out.push(73u8);
    out.push(70u8);
    out.push(70u8);
    assert(out@ =~= magic());
    push_uint(&mut out, K_PTIFF_METADATA_VERSION as u64, 2, Endian::Little);
    if n > 0xFFFF_FFFFusize {
        return Err(Error::invalid_argument("encodeMetadataPayload: too many records"));
    }
    push_uint(&mut out, n as u64, 4, Endian::Little);
    assert(out@ =~= payload_header(n as nat) + records_encoding(sorted, 0));
    let mut i: usize = 0;
    while i < n
        invariant
            n == records@.len(),
            s == records_view(records@),
            sorted == sorted_by_key(s),
            sorted.len() == n,
            n <= 0xFFFF_FFFF,
            is_key_order(s, order@),
            forall|i: int| 0 <= i < n ==> #[trigger] sorted[i] == s[order@[i] as int],
            0 <= i <= n,
            out@ == payload_header(n as nat) + records_encoding(sorted, i as nat),
            forall|j: int|
                0 <= j < i ==> utf8(#[trigger] sorted[j].0).len() <= 0xFFFF && utf8(sorted[j].1).len()
                    <= 0xFFFF_FFFF,
        decreases n - i,
    {
        proof {
            lemma_pow256_values();
        }
        let rec = &records[order[i]];
        let kb = rec.key.as_str().as_bytes();
        let vb = rec.value.as_str().as_bytes();
        assert(kb@ == utf8(sorted[i as int].0));
        assert(vb@ == utf8(sorted[i as int].1));
        if kb.len() > 0xFFFF {
            return Err(
                Error::invalid_argument(
                    "encodeMetadataPayload: metadata key longer than 65535 bytes",
                ),
            );
        }
        if vb.len() > 0xFFFF_FFFFusize {
            return Err(
                Error::invalid_argument("encodeMetadataPayload: metadata value longer than 4 GiB"),
            );
        }
        push_uint(&mut out, kb.len() as u64, 2, Endian::Little);
        push_bytes(&mut out, kb);
        push_uint(&mut out, vb.len() as u64, 4, Endian::Little);
        push_bytes(&mut out, vb);
        assert(out@ =~= payload_header(n as nat) + records_encoding(sorted, (i + 1) as nat));
        i = i + 1;
    }
    proof {
        assert forall|j: int| 0 <= j < n implies utf8(#[trigger] s[j].0).len() <= 0xFFFF && utf8(
            s[j].1,
        ).len() <= 0xFFFF_FFFF by {
            assert(order@.contains(j as usize));
            let w = choose|w: int| 0 <= w < order@.len() && order@[w] == j as usize;
            assert(sorted[w] == s[j]);
        }
    }
    Ok(out)
}

// ---------------------------------------------------------------------------
// Decoding.
// ---------------------------------------------------------------------------

/// What `String::from_utf8_lossy` makes of `b`.
pub uninterp spec fn utf8_lossy(b: Seq<u8>) -> Seq<char>;

/// The text bytes `b` decode to: their characters when they are valid
/// UTF-8, else the lossy conversion.
pub open spec fn text_of(b: Seq<u8>) -> Seq<char> {
    if valid_utf8(b) {
        decode_utf8(b)
    } else {
        utf8_lossy(b)
    }
}

/// `String::from_utf8_lossy(bytes).into_owned()`: the bytes as text, each
/// invalid UTF-8 sequence replaced by U+FFFD; valid UTF-8 is taken as it is.
#[verifier::external_body]
fn string_from_utf8_lossy(bytes: &[u8]) -> (s: String)
    ensures
        s@ == utf8_lossy(bytes@),
        valid_utf8(bytes@) ==> s@ == decode_utf8(bytes@),
{
    String::from_utf8_lossy(bytes).into_owned()
}

/// The little-endian value of the `n` bytes of `b` at `at`.
pub open spec fn le_at(b: Seq<u8>, at: nat, n: nat) -> nat {
    uint_value(b.subrange(at as int, (at + n) as int), n, Endian::Little)
}

/// The `count` records encoded from offset `at` on, or `None` when the
/// bytes end inside one.
pub open spec fn parse_records(b: Seq<u8>, at: nat, count: nat) -> Option<RecordsView>
    decreases count,
{
    if count == 0 {
        Some(Seq::empty())
    } else if at + 2 > b.len() {
        None
    } else {
        let klen = le_at(b, at, 2);
        let ks = at + 2;
        if ks + klen > b.len() {
            None
        } else {
            let vl = ks + klen;
            if vl + 4 > b.len() {
                None
            } else {
                let vlen = le_at(b, vl, 4);
                let vs = vl + 4;
                if vs + vlen > b.len() {
                    None
                } else {
                    match parse_records(b, vs + vlen, (count - 1) as nat) {
                        None => None,
                        Some(rest) => Some(
                            seq![
                                (
                                    text_of(b.subrange(ks as int, (ks + klen) as int)),
                                    text_of(b.subrange(vs as int, (vs + vlen) as int)),
                                ),
                            ] + rest,
                        ),
                    }
                }
            }
        }
    }
}

/// The records a payload holds, or `None` when it lacks the magic, has a
/// later version than [`K_PTIFF_METADATA_VERSION`], or is truncated.
pub open spec fn parse_payload(b: Seq<u8>) -> Option<RecordsView> {
    if b.len() < 5 || b.subrange(0, 5) != magic() {
        None
    } else if b.len() < 7 || le_at(b, 5, 2) > 1 {
        None
    } else if b.len() < 11 {
        None
    } else {
        parse_records(b, 11, le_at(b, 7, 4))
    }
}

/// Every value is a byte.
pub open spec fn all_bytes(v: Seq<u64>) -> bool {
    forall|i: int| 0 <= i < v.len() ==> #[trigger] v[i] <= 0xFF
}

/// The values as bytes.
pub open spec fn byte_seq(v: Seq<u64>) -> Seq<u8> {
    v.map_values(|x: u64| x as u8)
}

/// Decodes the byte values of a PTIFF extension tag into its records, in
/// payload order. [`ErrorCode::InvalidArgument`] exactly when a value is
/// not a byte or the bytes are not a payload ([`parse_payload`]).
pub fn decode_metadata_payload(byte_values: &[u64]) -> (r: Result<Vec<MetadataRecord>>)
    ensures
        r is Ok <==> all_bytes(byte_values@) && parse_payload(byte_seq(byte_values@)) is Some,
        r matches Ok(recs) ==> parse_payload(byte_seq(byte_values@)) == Some(records_view(recs@)),
        r matches Err(e) ==> e.kind() == ErrorCode::InvalidArgument,
{
    let mut bytes: Vec<u8> = Vec::new();
    let mut i: usize = 0;
    while i < byte_values.len()
        invariant
            0 <= i <= byte_values@.len(),
            bytes@ == byte_seq(byte_values@.subrange(0, i as int)),
            all_bytes(byte_values@.subrange(0, i as int)),
        decreases byte_values@.len() - i,
    {
        let v = byte_values[i];
        if v > 0xFF {
            assert(!all_bytes(byte_values@));
            return Err(
                Error::invalid_argument(
                    "decodeMetadataPayload: non-byte value in PTIFF extension tag",
                ),
            );
        }
        bytes.push(v as u8);
        assert(bytes@ =~= byte_seq(byte_values@.subrange(0, i + 1)));
        i = i + 1;
    }
    assert(byte_values@.subrange(0, i as int) =~= byte_values@);
    let ghost b = bytes@;
    let data = bytes.as_slice();
    let len = data.len();
    if len < 5 || data[0] != 80u8 || data[1] != 84u8 || data[2] != 73u8 || data[3] != 70u8
        || data[4] != 70u8 {
        proof {
            if len >= 5 {
                assert(b.subrange(0, 5) != magic()) by {
                    if b.subrange(0, 5) == magic() {
                        assert(b[0] == b.subrange(0, 5)[0]);
                        assert(b[1] == b.subrange(0, 5)[1]);
                        assert(b[2] == b.subrange(0, 5)[2]);
                        assert(b[3] == b.subrange(0, 5)[3]);
                        assert(b[4] == b.subrange(0, 5)[4]);
                    }
                }
            }
        }
        return Err(
            Error::invalid_argument(
                "decodeMetadataPayload: missing PTIFF magic in extension tag payload",
            ),
        );
    }
    assert(b.subrange(0, 5) =~= magic());
    if len < 7 {
        return Err(
            Error::invalid_argument("decodeMetadataPayload: truncated PTIFF extension payload header"),
        );
    }
    let version = read_uint(vstd::slice::slice_subrange(data, 5, 7), 2, Endian::Little);
    assert(b.subrange(5, 7).subrange(0, 2) =~= b.subrange(5, 7));
    if version > K_PTIFF_METADATA_VERSION as u64 {
        return Err(
            Error::invalid_argument(
                "decodeMetadataPayload: unsupported PTIFF extension payload version",
            ),
        );
    }
    if len < 11 {
        return Err(
            Error::invalid_argument("decodeMetadataPayload: truncated PTIFF extension payload header"),
        );
    }
    let rec_count = read_uint(vstd::slice::slice_subrange(data, 7, 11), 4, Endian::Little);
    assert(b.subrange(7, 11).subrange(0, 4) =~= b.subrange(7, 11));
    let ghost count = rec_count as nat;
    let mut records: Vec<MetadataRecord> = Vec::new();
    let mut cursor: usize = 11;
    let mut k: u64 = 0;
    assert(parse_payload(b) == parse_records(b, 11, count));
    while k < rec_count
        invariant
            b == data@,
            b == byte_seq(byte_values@),
            all_bytes(byte_values@),
            parse_payload(b) == parse_records(b, 11, count),
            count == rec_count,
            len == b.len(),
            11 <= cursor <= len,
            k <= rec_count,
            parse_records(b, 11, count) == match parse_records(b, cursor as nat, (count - k) as nat) {
                None => None,
                Some(rest) => Some(records_view(records@) + rest),
            },
        decreases rec_count - k,
    {
        let ghost c = (count - k) as nat;
        if len - cursor < 2 {
            return Err(
                Error::invalid_argument(
                    "decodeMetadataPayload: truncated PTIFF extension record key length",
                ),
            );
        }
        let key_len_raw = read_uint(vstd::slice::slice_subrange(data, cursor, cursor + 2), 2, Endian::Little);
        proof {
            lemma_pow256_values();
            assert(b.subrange(cursor as int, cursor + 2).subrange(0, 2) =~= b.subrange(
                cursor as int,
                cursor + 2,
            ));
            lemma_uint_bytes_round_trip(b.subrange(cursor as int, cursor + 2), 2, Endian::Little);
        }
        let key_len = key_len_raw as usize;
        let ks = cursor + 2;
        if len - ks < key_len {
            return Err(
                Error::invalid_argument("decodeMetadataPayload: truncated PTIFF extension record key"),
            );
        }
        let key = string_from_utf8_lossy(vstd::slice::slice_subrange(data, ks, ks + key_len));
        let vl = ks + key_len;
        if len - vl < 4 {
            return Err(
                Error::invalid_argument(
                    "decodeMetadataPayload: truncated PTIFF extension record value length",
                ),
            );
        }
        let val_len = read_uint(vstd::slice::slice_subrange(data, vl, vl + 4), 4, Endian::Little);
        proof {
            assert(b.subrange(vl as int, vl + 4).subrange(0, 4) =~= b.subrange(vl as int, vl + 4));
            lemma_uint_bytes_round_trip(b.subrange(vl as int, vl + 4), 4, Endian::Little);
        }
        let vs = vl + 4;
        let avail = (len - vs) as u64;
        if avail < val_len {
            return Err(
                Error::invalid_argument("decodeMetadataPayload: truncated PTIFF extension record value"),
            );
        }
        let value = string_from_utf8_lossy(vstd::slice::slice_subrange(data, vs, vs + val_len as usize));
        let ghost before = records@;
        records.push(MetadataRecord::new(key, value));
        proof {
            let item = (
                text_of(b.subrange(ks as int, (ks + key_len) as int)),
                text_of(b.subrange(vs as int, (vs + val_len) as int)),
            );
            assert(records_view(records@) =~= records_view(before).push(item));
            match parse_records(b, (vs + val_len) as nat, (c - 1) as nat) {
                None => {},
                Some(rest) => {
                    assert(records_view(before) + (seq![item] + rest) =~= records_view(records@) + rest);
                },
            }
        }
        cursor = vs + val_len as usize;
        k = k + 1;
    }
    assert(records_view(records@) + Seq::empty() =~= records_view(records@));
    Ok(records)
}

/// A record's encoding takes 6 bytes plus its key and value bytes.
proof fn lemma_record_encoding_len(key: Seq<char>, value: Seq<char>)
    ensures
        record_encoding(key, value).len() == 6 + utf8(key).len() + utf8(value).len(),
{
    lemma_le_bytes_len(utf8(key).len(), 2);
    lemma_le_bytes_len(utf8(value).len(), 4);
}

/// The encoding of the first `j` records begins the encoding of the first
/// `n`.
proof fn lemma_records_encoding_prefix(s: RecordsView, j: nat, n: nat)
    requires
        j <= n,
    ensures
        records_encoding(s, j).len() <= records_encoding(s, n).len(),
        records_encoding(s, n).subrange(0, records_encoding(s, j).len() as int) == records_encoding(s, j),
    decreases n,
{
    if j < n {
        lemma_records_encoding_prefix(s, j, (n - 1) as nat);
        let prev = records_encoding(s, (n - 1) as nat);
        let last = record_encoding(s[n - 1].0, s[n - 1].1);
        assert((prev + last).subrange(0, records_encoding(s, j).len() as int) =~= prev.subrange(
            0,
            records_encoding(s, j).len() as int,
        ));
    } else {
        assert(records_encoding(s, n).subrange(0, records_encoding(s, n).len() as int) =~= records_encoding(s, n));
    }
}

/// Record `j`'s bytes sit right after those of the records before it.
proof fn lemma_record_bytes_at(s: RecordsView, j: nat)
    requires
        j < s.len(),
    ensures
        ({
            let b = metadata_payload(s);
            let at = 11 + records_encoding(s, j).len();
            let rec = record_encoding(s[j as int].0, s[j as int].1);
            &&& at + rec.len() == 11 + records_encoding(s, j + 1).len()
            &&& at + rec.len() <= b.len()
            &&& b.subrange(at as int, (at + rec.len()) as int) == rec
        }),
{
    let n = s.len();
    let b = metadata_payload(s);
    let enc = records_encoding(s, n);
    let pre = records_encoding(s, j);
    let rec = record_encoding(s[j as int].0, s[j as int].1);
    let at = 11 + pre.len();
    lemma_pow256_values();
    lemma_le_bytes_len(n, 4);
    lemma_le_bytes_len(1, 2);
    assert(payload_header(n).len() == 11);
    lemma_records_encoding_prefix(s, j + 1, n);
    assert(records_encoding(s, j + 1) == pre + rec);
    assert forall|i: int| 0 <= i < rec.len() implies b.subrange(at as int, (at + rec.len()) as int)[i]
        == rec[i] by {
        assert(b[at + i] == enc[pre.len() + i]);
        assert(enc[pre.len() + i] == enc.subrange(0, (pre + rec).len() as int)[pre.len() + i]);
    }
    assert(b.subrange(at as int, (at + rec.len()) as int) =~= rec);
}

/// Parsing one record whose bytes the encoder wrote at `at`.
proof fn lemma_parse_one(b: Seq<u8>, at: nat, key: Seq<char>, value: Seq<char>, c: nat, rest: RecordsView)
    requires
        utf8(key).len() <= 0xFFFF,
        utf8(value).len() <= 0xFFFF_FFFF,
        at + record_encoding(key, value).len() <= b.len(),
        b.subrange(at as int, (at + record_encoding(key, value).len()) as int) == record_encoding(key, value),
        parse_records(b, at + record_encoding(key, value).len(), c) == Some(rest),
    ensures
        parse_records(b, at, c + 1) == Some(seq![(key, value)] + rest),
{
    let kb = utf8(key);
    let vb = utf8(value);
    let rec = record_encoding(key, value);
    lemma_pow256_values();
    lemma_record_encoding_len(key, value);
    lemma_uint_round_trip(kb.len(), 2, Endian::Little);
    lemma_uint_round_trip(vb.len(), 4, Endian::Little);
    let ai: int = at as int;
    let kl: int = kb.len() as int;
    let vn: int = vb.len() as int;
    let rl: int = rec.len() as int;
    assert(b.subrange(ai, ai + 2) =~= rec.subrange(0, 2));
    assert(rec.subrange(0, 2) =~= uint_bytes(kb.len(), 2, Endian::Little));
    assert(b.subrange(ai + 2, ai + 2 + kl) =~= rec.subrange(2, 2 + kl));
    assert(rec.subrange(2, 2 + kl) =~= kb);
    assert(b.subrange(ai + 2 + kl, ai + 6 + kl) =~= rec.subrange(2 + kl, 6 + kl));
    assert(rec.subrange(2 + kl, 6 + kl) =~= uint_bytes(vb.len(), 4, Endian::Little));
    assert(b.subrange(ai + 6 + kl, ai + 6 + kl + vn) =~= rec.subrange(6 + kl, rl));
    assert(rec.subrange(6 + kl, rl) =~= vb);
    encode_utf8_valid_utf8(key);
    encode_utf8_valid_utf8(value);
    encode_utf8_decode_utf8(key);
    encode_utf8_decode_utf8(value);
    assert(text_of(kb) == key);
    assert(text_of(vb) == value);
}

/// Parsing from the start of record `j` gives back records `j..`.
proof fn lemma_parse_from(s: RecordsView, j: nat)
    requires
        encodable(s),
        j <= s.len(),
    ensures
        parse_records(metadata_payload(s), 11 + records_encoding(s, j).len(), (s.len() - j) as nat)
            == Some(s.subrange(j as int, s.len() as int)),
    decreases s.len() - j,
{
    let n = s.len();
    if j == n {
        assert(s.subrange(j as int, n as int) =~= Seq::<(Seq<char>, Seq<char>)>::empty());
    } else {
        let key = s[j as int].0;
        let value = s[j as int].1;
        lemma_record_bytes_at(s, j);
        lemma_parse_from(s, j + 1);
        lemma_parse_one(
            metadata_payload(s),
            11 + records_encoding(s, j).len(),
            key,
            value,
            (n - j - 1) as nat,
            s.subrange((j + 1) as int, n as int),
        );
        assert(seq![(key, value)] + s.subrange((j + 1) as int, n as int) =~= s.subrange(j as int, n as int));
    }
}

/// Decoding the payload encoded from any records that fit the format gives
/// those records back, in order.
pub proof fn lemma_payload_round_trip(s: RecordsView)
    requires
        encodable(s),
    ensures
        parse_payload(metadata_payload(s)) == Some(s),
{
    let n = s.len();
    let b = metadata_payload(s);
    lemma_pow256_values();
    lemma_le_bytes_len(n, 4);
    lemma_le_bytes_len(1, 2);
    lemma_uint_round_trip(1, 2, Endian::Little);
    lemma_uint_round_trip(n, 4, Endian::Little);
    assert(b.subrange(0, 5) =~= magic());
    assert(b.subrange(5, 7) =~= uint_bytes(1, 2, Endian::Little));
    assert(b.subrange(7, 11) =~= uint_bytes(n, 4, Endian::Little));
    lemma_parse_from(s, 0);
    assert(s.subrange(0, n as int) =~= s);
}

// ---------------------------------------------------------------------------
// Storage-model fields.
// ---------------------------------------------------------------------------

/// `ptiff.`, the field-name prefix of every PTIFF extension field.
pub open spec fn ptiff_dot() -> Seq<char> {
    seq!['p', 't', 'i', 'f', 'f', '.']
}

/// The field-name prefix of domain `prefix`: `ptiff.<prefix>.`.
pub open spec fn domain_prefix(prefix: Seq<char>) -> Seq<char> {
    ptiff_dot() + prefix + seq!['.']
}

/// `p` is a proper prefix of `key`.
pub open spec fn proper_prefix(p: Seq<char>, key: Seq<char>) -> bool {
    p.len() < key.len() && key.subrange(0, p.len() as int) == p
}

/// The records of the fields among the first `k` entries of `e` whose key
/// properly starts with `p`, the prefix stripped, in table order.
pub open spec fn records_with_prefix(e: Entries, p: Seq<char>, k: nat) -> RecordsView
    decreases k,
{
    if k == 0 {
        Seq::empty()
    } else {
        let prev = records_with_prefix(e, p, (k - 1) as nat);
        let key = e[k - 1].0;
        if proper_prefix(p, key) {
            prev.push((key.subrange(p.len() as int, key.len() as int), e[k - 1].1))
        } else {
            prev
        }
    }
}

/// The records of domain `prefix` held in `node`: every field named
/// `ptiff.<prefix>.<key>` (with a non-empty `<key>`) as the record
/// (`<key>`, value), in ascending field order.
pub fn records_from_storage_model(node: &StorageModel, prefix: &str) -> (r: Vec<MetadataRecord>)
    ensures
        records_view(r@) == records_with_prefix(
            node.entries(),
            domain_prefix(prefix@),
            node.entries().len(),
        ),
{
    let mut pfx = String::from_str("ptiff.");
    pfx.append(prefix);
    pfx.append(".");
    proof {
        reveal_strlit("ptiff.");
        reveal_strlit(".");
        assert(pfx@ =~= domain_prefix(prefix@));
    }
    let plen = pfx.as_str().unicode_len();
    let n = node.field_count();
    let mut records: Vec<MetadataRecord> = Vec::new();
    let mut i: usize = 0;
    while i < n
        invariant
            n == node.entries().len(),
            pfx@ == domain_prefix(prefix@),
            plen == pfx@.len(),
            0 <= i <= n,
            records_view(records@) == records_with_prefix(node.entries(), pfx@, i as nat),
        decreases n - i,
    {
        let (key, value) = node.field_at(i);
        let klen = key.unicode_len();
        if klen > plen && str_eq(key.substring_char(0, plen), pfx.as_str()) {
            let rest = key.substring_char(plen, klen);
            let ghost before = records@;
            records.push(MetadataRecord::new(String::from_str(rest), String::from_str(value)));
            assert(records_view(records@) =~= records_view(before).push(
                (key@.subrange(plen as int, klen as int), value@),
            ));
        }
        i = i + 1;
    }
    records
}

} // verus!
