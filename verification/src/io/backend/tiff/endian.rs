//! TIFF byte-order helpers.
//!
//! An unsigned integer of `n` bytes is modelled by its little-endian byte
//! sequence [`le_bytes`] and read back by [`le_value`]; big-endian order is
//! the reverse of that sequence.
use vstd::arithmetic::div_mod::{lemma_div_denominator, lemma_fundamental_div_mod};
use vstd::prelude::*;

verus! {

/// Byte order a TIFF/BigTIFF file declares in its header ("II" = little-endian,
/// "MM" = big-endian). Every multi-byte field in the file is in this order.
#[derive(Debug, Clone, Copy, PartialEq, Eq, Structural)]
pub enum Endian {
    /// Least-significant byte first.
    Little,
    /// Most-significant byte first.
    Big,
}

/// `256^n`.
pub open spec fn pow256(n: nat) -> nat
    decreases n,
{
    if n == 0 {
        1
    } else {
        256 * pow256((n - 1) as nat)
    }
}

/// The value of a little-endian byte sequence.
pub open spec fn le_value(b: Seq<u8>) -> nat
    decreases b.len(),
{
    if b.len() == 0 {
        0
    } else {
        (b[0] + 256 * le_value(b.drop_first())) as nat
    }
}

/// The `n` least significant bytes of `v`, least significant first.
pub open spec fn le_bytes(v: nat, n: nat) -> Seq<u8>
    decreases n,
{
    if n == 0 {
        Seq::empty()
    } else {
        seq![(v % 256) as u8] + le_bytes(v / 256, (n - 1) as nat)
    }
}

/// A byte sequence in file order turned into least-significant-first order.
pub open spec fn in_order(b: Seq<u8>, endian: Endian) -> Seq<u8> {
    match endian {
        Endian::Little => b,
        Endian::Big => b.reverse(),
    }
}

/// The unsigned value of the first `n` bytes of `b`, in byte order `endian`.
pub open spec fn uint_value(b: Seq<u8>, n: nat, endian: Endian) -> nat {
    le_value(in_order(b.subrange(0, n as int), endian))
}

/// The `n`-byte encoding of `v` in byte order `endian`.
pub open spec fn uint_bytes(v: nat, n: nat, endian: Endian) -> Seq<u8> {
    in_order(le_bytes(v, n), endian)
}

/// `out` with its first `n` bytes replaced by `bytes`.
pub open spec fn with_prefix(out: Seq<u8>, bytes: Seq<u8>) -> Seq<u8> {
    bytes + out.subrange(bytes.len() as int, out.len() as int)
}

/// `256^n` is positive and grows with `n`.
pub proof fn lemma_pow256_facts(n: nat)
    ensures
        pow256(n) > 0,
        pow256(n + 1) == 256 * pow256(n),
    decreases n,
{
    if n > 0 {
        lemma_pow256_facts((n - 1) as nat);
    }
}

/// The powers used by 2-, 4- and 8-byte fields.
pub proof fn lemma_pow256_values()
    ensures
        pow256(1) == 256,
        pow256(2) == 65536,
        pow256(4) == 4294967296,
        pow256(8) == 18446744073709551616,
{
    reveal_with_fuel(pow256, 9);
}

/// A little-endian sequence of `n` bytes holds a value below `256^n`.
pub proof fn lemma_le_value_bound(b: Seq<u8>)
    ensures
        le_value(b) < pow256(b.len()),
    decreases b.len(),
{
    if b.len() > 0 {
        lemma_le_value_bound(b.drop_first());
        lemma_pow256_facts((b.len() - 1) as nat);
    }
}

/// `le_bytes` yields exactly `n` bytes.
pub proof fn lemma_le_bytes_len(v: nat, n: nat)
    ensures
        le_bytes(v, n).len() == n,
    decreases n,
{
    if n > 0 {
        lemma_le_bytes_len(v / 256, (n - 1) as nat);
    }
}

/// Byte `i` of `le_bytes(v, n)` is `(v / 256^i) % 256`.
pub proof fn lemma_le_bytes_index(v: nat, n: nat, i: nat)
    requires
        i < n,
    ensures
        le_bytes(v, n)[i as int] == ((v / pow256(i)) % 256) as u8,
    decreases n,
{
    lemma_le_bytes_len(v, n);
    if i > 0 {
        let p = pow256((i - 1) as nat);
        lemma_le_bytes_index(v / 256, (n - 1) as nat, (i - 1) as nat);
        lemma_pow256_facts((i - 1) as nat);
        lemma_div_denominator(v as int, 256, p as int);
        assert(((v / 256) / p) == v / pow256(i));
        lemma_le_bytes_len(v / 256, (n - 1) as nat);
        assert(le_bytes(v, n)[i as int] == le_bytes(v / 256, (n - 1) as nat)[i - 1]);
    } else {
        assert(pow256(0) == 1);
        assert(v / 1 == v);
    }
}

/// Writing `v` then reading it back yields `v`.
pub proof fn lemma_le_value_of_bytes(v: nat, n: nat)
    requires
        v < pow256(n),
    ensures
        le_value(le_bytes(v, n)) == v,
    decreases n,
{
    if n > 0 {
        lemma_pow256_facts((n - 1) as nat);
        lemma_fundamental_div_mod(v as int, 256);
        assert(v / 256 < pow256((n - 1) as nat));
        lemma_le_value_of_bytes(v / 256, (n - 1) as nat);
        assert(le_bytes(v, n).drop_first() =~= le_bytes(v / 256, (n - 1) as nat));
    }
}

/// Reading bytes then writing the value back yields the same bytes.
pub proof fn lemma_le_bytes_of_value(b: Seq<u8>)
    ensures
        le_bytes(le_value(b), b.len()) == b,
    decreases b.len(),
{
    if b.len() > 0 {
        let rest = b.drop_first();
        lemma_le_bytes_of_value(rest);
        let v = le_value(b);
        assert(v % 256 == b[0] && v / 256 == le_value(rest)) by {
            lemma_fundamental_div_mod(v as int, 256);
        }
        assert(le_bytes(v, b.len()) =~= seq![b[0]] + rest);
        assert(b =~= seq![b[0]] + rest);
    } else {
        assert(b =~= Seq::<u8>::empty());
    }
}

/// Encoding in either byte order then decoding in the same order yields the
/// original value: `read_uN(write_uN(v, e), e) == v`.
pub proof fn lemma_uint_round_trip(v: nat, n: nat, endian: Endian)
    requires
        v < pow256(n),
    ensures
        uint_bytes(v, n, endian).len() == n,
        uint_value(uint_bytes(v, n, endian), n, endian) == v,
{
    lemma_le_bytes_len(v, n);
    lemma_le_value_of_bytes(v, n);
    let b = uint_bytes(v, n, endian);
    assert(b.subrange(0, n as int) =~= b);
    if endian == Endian::Big {
        assert(b.reverse() =~= le_bytes(v, n));
    }
}

/// Decoding the first `n` bytes then encoding the value in the same byte
/// order yields those bytes back: `write_uN(read_uN(b, e), e) == b[..N]`.
pub proof fn lemma_uint_bytes_round_trip(b: Seq<u8>, n: nat, endian: Endian)
    requires
        n <= b.len(),
    ensures
        uint_value(b, n, endian) < pow256(n),
        uint_bytes(uint_value(b, n, endian), n, endian) == b.subrange(0, n as int),
{
    let pre = b.subrange(0, n as int);
    let ord = in_order(pre, endian);
    lemma_le_value_bound(ord);
    lemma_le_bytes_of_value(ord);
    if endian == Endian::Big {
        assert(ord.reverse() =~= pre);
    }
}

/// The unsigned value of the first `n` bytes of `bytes` in byte order `endian`.
pub(crate) fn read_uint(bytes: &[u8], n: usize, endian: Endian) -> (v: u64)
    requires
        n <= 8,
        n <= bytes@.len(),
    ensures
        v == uint_value(bytes@, n as nat, endian),
{
    proof {
        lemma_pow256_values();
    }
    let ghost pre = bytes@.subrange(0, n as int);
    let mut value: u64 = 0;
    match endian {
        Endian::Little => {
            let mut i: usize = n;
            assert(pre.subrange(n as int, n as int) =~= Seq::<u8>::empty());
            while i > 0
                invariant
                    n <= 8,
                    n <= bytes@.len(),
                    pre == bytes@.subrange(0, n as int),
                    pow256(8) == 18446744073709551616,
                    0 <= i <= n,
                    value == le_value(pre.subrange(i as int, n as int)),
                decreases i,
            {
                let ghost s = pre.subrange(i - 1, n as int);
                assert(s.drop_first() =~= pre.subrange(i as int, n as int));
                proof {
                    lemma_le_value_bound(s);
                    let mut k: nat = s.len();
                    lemma_pow256_monotone(k, 8);
                }
                value = bytes[i - 1] as u64 + 256 * value;
                i = i - 1;
            }
            assert(pre.subrange(0, n as int) =~= pre);
        },
        Endian::Big => {
            let mut i: usize = 0;
            assert(pre.subrange(0, 0).reverse() =~= Seq::<u8>::empty());
            while i < n
                invariant
                    n <= 8,
                    n <= bytes@.len(),
                    pre == bytes@.subrange(0, n as int),
                    pow256(8) == 18446744073709551616,
                    0 <= i <= n,
                    value == le_value(pre.subrange(0, i as int).reverse()),
                decreases n - i,
            {
                let ghost s = pre.subrange(0, i + 1).reverse();
                assert(s.drop_first() =~= pre.subrange(0, i as int).reverse());
                proof {
                    lemma_le_value_bound(s);
                    lemma_pow256_monotone(s.len(), 8);
                }
                value = bytes[i] as u64 + 256 * value;
                i = i + 1;
            }
            assert(pre.subrange(0, n as int) =~= pre);
        },
    }
    value
}

/// `256^a <= 256^b` when `a <= b`.
pub proof fn lemma_pow256_monotone(a: nat, b: nat)
    requires
        a <= b,
    ensures
        pow256(a) <= pow256(b),
    decreases b,
{
    if a < b {
        lemma_pow256_monotone(a, (b - 1) as nat);
        lemma_pow256_facts((b - 1) as nat);
    }
}

/// Writes the `n`-byte encoding of `v` into the first `n` bytes of `out`.
fn write_uint(out: &mut [u8], v: u64, n: usize, endian: Endian)
    requires
        n <= 8,
        n <= old(out)@.len(),
        v < pow256(n as nat),
    ensures
        final(out)@ == with_prefix(old(out)@, uint_bytes(v as nat, n as nat, endian)),
{
    let ghost target = uint_bytes(v as nat, n as nat, endian);
    let ghost le = le_bytes(v as nat, n as nat);
    proof {
        lemma_le_bytes_len(v as nat, n as nat);
    }
    let ghost orig = out@;
    let mut cur: u64 = v;
    let mut i: usize = 0;
    assert(pow256(0) == 1);
    assert((v as nat) / 1 == v);
    while i < n
        invariant
            n <= 8,
            n <= orig.len(),
            out@.len() == orig.len(),
            le == le_bytes(v as nat, n as nat),
            le.len() == n,
            target == in_order(le, endian),
            0 <= i <= n,
            cur == (v as nat) / pow256(i as nat),
            forall|k: int|
                0 <= k < orig.len() ==> #[trigger] out@[k] == if k >= n {
                    orig[k]
                } else if endian == Endian::Little && k < i {
                    le[k]
                } else if endian == Endian::Big && n - 1 - k < i {
                    le[n - 1 - k]
                } else {
                    orig[k]
                },
        decreases n - i,
    {
        proof {
            lemma_le_bytes_index(v as nat, n as nat, i as nat);
            lemma_pow256_facts(i as nat);
            lemma_div_denominator(v as int, pow256(i as nat) as int, 256);
        }
        let byte = (cur % 256) as u8;
        match endian {
            Endian::Little => {
                out[i] = byte;
            },
            Endian::Big => {
                out[n - 1 - i] = byte;
            },
        }
        cur = cur / 256;
        i = i + 1;
    }
    assert(out@ =~= with_prefix(orig, target));
}

/// Reads a 2-byte unsigned integer from the first 2 bytes of `bytes`.
pub fn read_u16(bytes: &[u8], endian: Endian) -> (v: u16)
    requires
        bytes@.len() >= 2,
    ensures
        v == uint_value(bytes@, 2, endian),
{
    let v = read_uint(bytes, 2, endian);
    proof {
        lemma_le_value_bound(in_order(bytes@.subrange(0, 2), endian));
        lemma_pow256_values();
    }
    v as u16
}

/// Reads a 4-byte unsigned integer from the first 4 bytes of `bytes`.
pub fn read_u32(bytes: &[u8], endian: Endian) -> (v: u32)
    requires
        bytes@.len() >= 4,
    ensures
        v == uint_value(bytes@, 4, endian),
{
    let v = read_uint(bytes, 4, endian);
    proof {
        lemma_le_value_bound(in_order(bytes@.subrange(0, 4), endian));
        lemma_pow256_values();
    }
    v as u32
}

/// Reads an 8-byte unsigned integer from the first 8 bytes of `bytes`.
pub fn read_u64(bytes: &[u8], endian: Endian) -> (v: u64)
    requires
        bytes@.len() >= 8,
    ensures
        v == uint_value(bytes@, 8, endian),
{
    read_uint(bytes, 8, endian)
}

/// Writes `value` into the first 2 bytes of `out`.
pub fn write_u16(out: &mut [u8], value: u16, endian: Endian)
    requires
        old(out)@.len() >= 2,
    ensures
        final(out)@ == with_prefix(old(out)@, uint_bytes(value as nat, 2, endian)),
{
    proof {
        lemma_pow256_values();
    }
    write_uint(out, value as u64, 2, endian);
}

/// Writes `value` into the first 4 bytes of `out`.
pub fn write_u32(out: &mut [u8], value: u32, endian: Endian)
    requires
        old(out)@.len() >= 4,
    ensures
        final(out)@ == with_prefix(old(out)@, uint_bytes(value as nat, 4, endian)),
{
    proof {
        lemma_pow256_values();
    }
    write_uint(out, value as u64, 4, endian);
}

/// Writes `value` into the first 8 bytes of `out`.
pub fn write_u64(out: &mut [u8], value: u64, endian: Endian)
    requires
        old(out)@.len() >= 8,
    ensures
        final(out)@ == with_prefix(old(out)@, uint_bytes(value as nat, 8, endian)),
{
    proof {
        lemma_pow256_values();
    }
    write_uint(out, value, 8, endian);
}

/// Appends the `n`-byte encoding of `v` in byte order `endian` to `out`.
pub(crate) fn push_uint(out: &mut Vec<u8>, v: u64, n: usize, endian: Endian)
    requires
        n <= 8,
        v < pow256(n as nat),
    ensures
        final(out)@ == old(out)@ + uint_bytes(v as nat, n as nat, endian),
{
    let mut buf: Vec<u8> = vec![0u8; n];
    write_uint(buf.as_mut_slice(), v, n, endian);
    proof {
        lemma_le_bytes_len(v as nat, n as nat);
    }
    assert(buf@ =~= uint_bytes(v as nat, n as nat, endian));
    let mut i: usize = 0;
    let ghost start = out@;
    while i < n
        invariant
            n == buf@.len(),
            0 <= i <= n,
            out@ =~= start + buf@.subrange(0, i as int),
        decreases n - i,
    {
        out.push(buf[i]);
        i = i + 1;
    }
    assert(buf@.subrange(0, n as int) =~= buf@);
}

} // verus!
