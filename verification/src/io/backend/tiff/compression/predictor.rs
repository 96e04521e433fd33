//! TIFF Predictor=2 (horizontal differencing), encode and decode.
//!
//! The data is a sequence of samples of `bytes_per_sample` bytes each
//! ([`samples_of`]), rows of `row_width * samples_per_pixel` samples. Each
//! sample component is differenced against the same component of the
//! previous pixel in its row, modulo `2^(8 * bytes_per_sample)`.
use crate::error::{Error, ErrorCode, Result};
use vstd::prelude::*;

use super::super::endian::{lemma_le_bytes_len, lemma_pow256_values, in_order, le_value, lemma_uint_bytes_round_trip, lemma_uint_round_trip, pow256, push_uint, read_uint, uint_bytes, uint_value, Endian};

verus! {

/// The byte order of samples.
pub open spec fn sample_order(big_endian: bool) -> Endian {
    if big_endian {
        Endian::Big
    } else {
        Endian::Little
    }
}

/// The samples of `d`: consecutive `bps`-byte unsigned integers.
pub open spec fn samples_of(d: Seq<u8>, bps: nat, e: Endian) -> Seq<nat> {
    Seq::new(d.len() / bps, |j: int| uint_value(d.subrange(j * bps, j * bps + bps), bps, e))
}

/// Whether sample `j` is the first of its component in its row (rows of
/// `row` samples, `spp` components per pixel).
pub open spec fn starts_row(j: int, row: nat, spp: nat) -> bool {
    j % (row as int) < spp
}

/// Sample `j` after undoing differencing: the running sum, modulo `m`, of
/// its component from the start of its row.
pub open spec fn undone_sample(s: Seq<nat>, j: int, row: nat, spp: nat, m: nat) -> nat
    decreases j,
{
    if j < spp || spp == 0 || starts_row(j, row, spp) {
        s[j]
    } else {
        ((undone_sample(s, j - spp, row, spp, m) + s[j]) as int % (m as int)) as nat
    }
}

/// The samples after undoing differencing.
pub open spec fn undo_samples(s: Seq<nat>, row: nat, spp: nat, m: nat) -> Seq<nat> {
    Seq::new(s.len(), |j: int| undone_sample(s, j, row, spp, m))
}

/// The samples after differencing: each sample minus the previous one of
/// its component in its row, modulo `m`.
pub open spec fn apply_samples(s: Seq<nat>, row: nat, spp: nat, m: nat) -> Seq<nat> {
    Seq::new(
        s.len(),
        |j: int|
            if starts_row(j, row, spp) {
                s[j]
            } else {
                ((s[j] - s[j - spp]) % (m as int)) as nat
            },
    )
}

/// The sample geometry is supported: 1, 2 or 4 bytes per sample, and the
/// data a whole number of nonempty rows.
pub open spec fn geometry_ok(len: nat, row_width: u32, spp: u32, bps: u8) -> bool {
    let stride = row_width * spp * bps;
    &&& bps == 1 || bps == 2 || bps == 4
    &&& stride <= u64::MAX
    &&& stride != 0
    &&& len % (stride as nat) == 0
}

/// Checks the sample geometry; returns one row's byte stride.
fn validate(data_len: usize, row_width: u32, samples_per_pixel: u32, bytes_per_sample: u8) -> (r: Result<u64>)
    ensures
        r is Ok <==> geometry_ok(data_len as nat, row_width, samples_per_pixel, bytes_per_sample),
        r matches Ok(s) ==> s == row_width * samples_per_pixel * bytes_per_sample,
        r matches Err(e) ==> e.kind() == ErrorCode::InvalidArgument,
{
    if bytes_per_sample != 1 && bytes_per_sample != 2 && bytes_per_sample != 4 {
        return Err(Error::invalid_argument("undoHorizontalDifferencing: unsupported bytesPerSample"));
    }
    proof {
        assert(row_width as u64 * samples_per_pixel as u64 <= u64::MAX) by (nonlinear_arith)
            requires
                row_width <= u32::MAX,
                samples_per_pixel <= u32::MAX,
        ;
    }
    let pixels = (row_width as u64) * (samples_per_pixel as u64);
    let row_stride = match pixels.checked_mul(bytes_per_sample as u64) {
        Some(s) => s,
        None => {
            return Err(
                Error::invalid_argument("undoHorizontalDifferencing: row stride computation overflows"),
            );
        },
    };
    if row_stride == 0 || (data_len as u64) % row_stride != 0 {
        return Err(
            Error::invalid_argument(
                "undoHorizontalDifferencing: data size is not a multiple of rowWidth * samplesPerPixel * bytesPerSample",
            ),
        );
    }
    Ok(row_stride)
}

/// The sample of `bps` bytes at byte offset `off`.
fn read_sample_at(data: &[u8], off: usize, bps: usize, e: Endian) -> (v: u64)
    requires
        off + bps <= data@.len(),
        bps <= 8,
    ensures
        v == uint_value(data@.subrange(off as int, off + bps), bps as nat, e),
        v < pow256(bps as nat),
{
    let len = data.len();
    let s = vstd::slice::slice_subrange(data, off, off + bps);
    let v = read_uint(s, bps, e);
    assert(s@.subrange(0, bps as int) =~= s@);
    assert(data@.subrange(off as int, off + bps).subrange(0, bps as int) =~= data@.subrange(off as int, off + bps));
    proof {
        super::super::endian::lemma_uint_bytes_round_trip(data@.subrange(off as int, off + bps), bps as nat, e);
    }
    v
}

/// Writes `v` as the `bps`-byte sample at byte offset `off`.
fn write_sample_at(data: &mut [u8], off: usize, v: u64, bps: usize, e: Endian)
    requires
        off + bps <= old(data)@.len(),
        bps <= 8,
        v < pow256(bps as nat),
    ensures
        final(data)@.len() == old(data)@.len(),
        final(data)@.subrange(off as int, off + bps) == uint_bytes(v as nat, bps as nat, e),
        forall|k: int|
            0 <= k < old(data)@.len() && (k < off || k >= off + bps) ==> #[trigger] final(data)@[k]
                == old(data)@[k],
{
    let mut buf: Vec<u8> = Vec::new();
    push_uint(&mut buf, v, bps, e);
    proof {
        lemma_le_bytes_len(v as nat, bps as nat);
    }
    assert(buf@ =~= uint_bytes(v as nat, bps as nat, e));
    let ghost orig = data@;
    let len = data.len();
    let mut i: usize = 0;
    while i < bps
        invariant
            buf@ == uint_bytes(v as nat, bps as nat, e),
            buf@.len() == bps,
            off + bps <= orig.len(),
            len == orig.len(),
            data@.len() == orig.len(),
            0 <= i <= bps,
            forall|k: int| 0 <= k < i ==> #[trigger] data@[off + k] == buf@[k],
            forall|k: int|
                0 <= k < orig.len() && (k < off || k >= off + i) ==> #[trigger] data@[k] == orig[k],
        decreases bps - i,
    {
        data[off + i] = buf[i];
        i = i + 1;
    }
    assert forall|k: int| 0 <= k < bps implies data@.subrange(off as int, off + bps)[k] == buf@[k] by {
        assert(data@[off + k] == buf@[k]);
    }
    assert(data@.subrange(off as int, off + bps) =~= uint_bytes(v as nat, bps as nat, e));
}

/// Writing sample `j` changes that sample alone.
proof fn lemma_write_sample(old_d: Seq<u8>, new_d: Seq<u8>, j: int, v: nat, bps: nat, e: Endian)
    requires
        bps > 0,
        0 <= j,
        j * bps + bps <= old_d.len(),
        new_d.len() == old_d.len(),
        new_d.subrange(j * bps, j * bps + bps) == uint_bytes(v, bps, e),
        forall|k: int|
            0 <= k < old_d.len() && (k < j * bps || k >= j * bps + bps) ==> #[trigger] new_d[k] == old_d[k],
        v < pow256(bps),
    ensures
        samples_of(new_d, bps, e) == samples_of(old_d, bps, e).update(j, v),
{
    let sn = samples_of(new_d, bps, e);
    let so = samples_of(old_d, bps, e);
    lemma_uint_round_trip(v, bps, e);
    assert(j < old_d.len() / bps) by (nonlinear_arith)
        requires
            j * bps + bps <= old_d.len(),
            bps > 0,
            j >= 0,
    ;
    assert forall|k: int| 0 <= k < sn.len() implies sn[k] == so.update(j, v)[k] by {
        assert(k * bps + bps <= old_d.len()) by (nonlinear_arith)
            requires
                0 <= k < old_d.len() / bps,
                bps > 0,
        ;
        if k == j {
            assert(sn[k] == uint_value(uint_bytes(v, bps, e), bps, e));
        } else {
            if k < j {
                assert(k * bps + bps <= j * bps) by (nonlinear_arith)
                    requires
                        k < j,
                        bps > 0,
                ;
            } else {
                assert(k * bps >= j * bps + bps) by (nonlinear_arith)
                    requires
                        k > j,
                        bps > 0,
                ;
            }
            assert(k * bps >= 0) by (nonlinear_arith)
                requires
                    k >= 0,
                    bps > 0,
            ;
            assert(new_d.subrange(k * bps, k * bps + bps) =~= old_d.subrange(k * bps, k * bps + bps));
        }
    }
    assert(sn =~= so.update(j, v));
}

/// The modulus of `bps`-byte samples.
fn sample_modulus(bytes_per_sample: u8) -> (m: u64)
    requires
        bytes_per_sample == 1 || bytes_per_sample == 2 || bytes_per_sample == 4,
    ensures
        m == pow256(bytes_per_sample as nat),
{
    proof {
        lemma_pow256_values();
    }
    if bytes_per_sample == 1 {
        256
    } else if bytes_per_sample == 2 {
        65536
    } else {
        0x1_0000_0000
    }
}

/// Undoes horizontal differencing in place: each sample becomes the running
/// sum, modulo `2^(8 * bytes_per_sample)`, of its component from the start
/// of its row. [`ErrorCode::InvalidArgument`] (data untouched) exactly when
/// `bytes_per_sample` is not 1, 2 or 4, or the data is not a whole number
/// of rows of `row_width * samples_per_pixel` samples.
pub fn undo_horizontal_differencing(
    data: &mut [u8],
    row_width: u32,
    samples_per_pixel: u32,
    bytes_per_sample: u8,
    big_endian: bool,
) -> (r: Result<()>)
    ensures
        r is Ok <==> geometry_ok(old(data)@.len(), row_width, samples_per_pixel, bytes_per_sample),
        r is Err ==> final(data)@ == old(data)@,
        r is Ok ==> {
            &&& final(data)@.len() == old(data)@.len()
            &&& samples_of(final(data)@, bytes_per_sample as nat, sample_order(big_endian)) == undo_samples(
                samples_of(old(data)@, bytes_per_sample as nat, sample_order(big_endian)),
                (row_width * samples_per_pixel) as nat,
                samples_per_pixel as nat,
                pow256(bytes_per_sample as nat),
            )
        },
        r matches Err(e) ==> e.kind() == ErrorCode::InvalidArgument,
{
    let stride = validate(data.len(), row_width, samples_per_pixel, bytes_per_sample)?;
    let e = if big_endian {
        Endian::Big
    } else {
        Endian::Little
    };
    let bps = bytes_per_sample as usize;
    let spp = samples_per_pixel as usize;
    let row_samples = (row_width as u64) * (samples_per_pixel as u64);
    let m = sample_modulus(bytes_per_sample);
    let dlen = data.len();
    let n = dlen / bps;
    let ghost s = samples_of(data@, bps as nat, e);
    let ghost row = row_samples as nat;
    let ghost len = data@.len();
    proof {
        assert(row_samples > 0) by (nonlinear_arith)
            requires
                stride == row_width * samples_per_pixel * bytes_per_sample,
                stride != 0,
                row_samples == row_width * samples_per_pixel,
        ;
        assert(samples_per_pixel > 0) by (nonlinear_arith)
            requires
                row_samples > 0,
                row_samples == row_width * samples_per_pixel,
        ;
    }
    let mut j: usize = 0;
    while j < n
        invariant
            n == len / (bps as nat),
            len == data@.len(),
            dlen == len,
            bps == bytes_per_sample,
            bps == 1 || bps == 2 || bps == 4,
            spp == samples_per_pixel,
            row == row_samples,
            row > 0,
            spp > 0,
            m == pow256(bps as nat),
            s.len() == n,
            0 <= j <= n,
            samples_of(data@, bps as nat, e).len() == n,
            forall|k: int| 0 <= k < j ==> #[trigger] samples_of(data@, bps as nat, e)[k] == undone_sample(s, k, row, spp as nat, m as nat),
            forall|k: int| j <= k < n ==> #[trigger] samples_of(data@, bps as nat, e)[k] == s[k],
        decreases n - j,
    {
        proof {
            assert(j * bps + bps <= len) by (nonlinear_arith)
                requires
                    j < n,
                    n == len / (bps as nat),
                    bps > 0,
            ;
            lemma_pow256_values();
        }
        if (j as u64) % row_samples >= spp as u64 {
            assert((j as u64) % row_samples <= j) by (nonlinear_arith)
                requires
                    row_samples > 0,
            ;
            let ghost d0 = data@;
            assert((j - spp) * bps <= j * bps) by (nonlinear_arith)
                requires
                    spp <= j,
            ;
            let prev = read_sample_at(data, (j - spp) * bps, bps, e);
            let cur = read_sample_at(data, j * bps, bps, e);
            proof {
                assert(spp > 0);
                assert((j - spp) * bps == j * bps - spp * bps) by (nonlinear_arith);
                assert(spp * bps >= bps) by (nonlinear_arith)
                    requires
                        spp > 0,
                        bps > 0,
                ;
                assert(samples_of(d0, bps as nat, e)[j - spp] == prev);
                assert(samples_of(d0, bps as nat, e)[j as int] == cur);
                lemma_uint_round_trip(0, bps as nat, e);
            }
            let value = (prev + cur) % m;
            write_sample_at(data, j * bps, value, bps, e);
            proof {
                lemma_write_sample(d0, data@, j as int, value as nat, bps as nat, e);
                assert(!starts_row(j as int, row, spp as nat));
            }
        } else {
            proof {
                assert(starts_row(j as int, row, spp as nat));
            }
        }
        j = j + 1;
    }
    proof {
        assert(samples_of(data@, bps as nat, e) =~= undo_samples(s, row, spp as nat, m as nat));
    }
    Ok(())
}

/// Applies horizontal differencing in place, the inverse of
/// [`undo_horizontal_differencing`]: each sample but the first of its
/// component in its row becomes its difference, modulo
/// `2^(8 * bytes_per_sample)`, from the previous sample of that component.
/// Same errors as [`undo_horizontal_differencing`].
pub fn apply_horizontal_differencing(
    data: &mut [u8],
    row_width: u32,
    samples_per_pixel: u32,
    bytes_per_sample: u8,
    big_endian: bool,
) -> (r: Result<()>)
    ensures
        r is Ok <==> geometry_ok(old(data)@.len(), row_width, samples_per_pixel, bytes_per_sample),
        r is Err ==> final(data)@ == old(data)@,
        r is Ok ==> {
            &&& final(data)@.len() == old(data)@.len()
            &&& samples_of(final(data)@, bytes_per_sample as nat, sample_order(big_endian)) == apply_samples(
                samples_of(old(data)@, bytes_per_sample as nat, sample_order(big_endian)),
                (row_width * samples_per_pixel) as nat,
                samples_per_pixel as nat,
                pow256(bytes_per_sample as nat),
            )
        },
        r matches Err(e) ==> e.kind() == ErrorCode::InvalidArgument,
{
    let stride = validate(data.len(), row_width, samples_per_pixel, bytes_per_sample)?;
    let e = if big_endian {
        Endian::Big
    } else {
        Endian::Little
    };
    let bps = bytes_per_sample as usize;
    let spp = samples_per_pixel as usize;
    let row_samples = (row_width as u64) * (samples_per_pixel as u64);
    let m = sample_modulus(bytes_per_sample);
    let dlen = data.len();
    let n = dlen / bps;
    let ghost s = samples_of(data@, bps as nat, e);
    let ghost row = row_samples as nat;
    let ghost len = data@.len();
    proof {
        assert(row_samples > 0) by (nonlinear_arith)
            requires
                stride == row_width * samples_per_pixel * bytes_per_sample,
                stride != 0,
                row_samples == row_width * samples_per_pixel,
        ;
        assert(samples_per_pixel > 0) by (nonlinear_arith)
            requires
                row_samples > 0,
                row_samples == row_width * samples_per_pixel,
        ;
    }
    let mut j: usize = n;
    while j > 0
        invariant
            n == len / (bps as nat),
            len == data@.len(),
            dlen == len,
            bps == bytes_per_sample,
            bps == 1 || bps == 2 || bps == 4,
            spp == samples_per_pixel,
            row == row_samples,
            row > 0,
            spp > 0,
            m == pow256(bps as nat),
            s.len() == n,
            0 <= j <= n,
            samples_of(data@, bps as nat, e).len() == n,
            forall|k: int| j <= k < n ==> #[trigger] samples_of(data@, bps as nat, e)[k] == apply_samples(s, row, spp as nat, m as nat)[k],
            forall|k: int| 0 <= k < j ==> #[trigger] samples_of(data@, bps as nat, e)[k] == s[k],
        decreases j,
    {
        let i = j - 1;
        proof {
            assert(i * bps + bps <= len) by (nonlinear_arith)
                requires
                    i < n,
                    n == len / (bps as nat),
                    bps > 0,
            ;
            lemma_pow256_values();
        }
        if (i as u64) % row_samples >= spp as u64 {
            assert((i as u64) % row_samples <= i) by (nonlinear_arith)
                requires
                    row_samples > 0,
            ;
            let ghost d0 = data@;
            assert((i - spp) * bps <= i * bps) by (nonlinear_arith)
                requires
                    spp <= i,
            ;
            let prev = read_sample_at(data, (i - spp) * bps, bps, e);
            let cur = read_sample_at(data, i * bps, bps, e);
            proof {
                assert(spp > 0);
                assert((i - spp) * bps == i * bps - spp * bps) by (nonlinear_arith);
                assert(spp * bps >= bps) by (nonlinear_arith)
                    requires
                        spp > 0,
                        bps > 0,
                ;
                assert(samples_of(d0, bps as nat, e)[i - spp] == prev);
                assert(samples_of(d0, bps as nat, e)[i as int] == cur);
            }
            let value = (cur + m - prev) % m;
            proof {
                assert((cur + m - prev) % (m as int) == (cur - prev) % (m as int)) by (nonlinear_arith)
                    requires
                        m > 0,
                ;
            }
            write_sample_at(data, i * bps, value, bps, e);
            proof {
                lemma_write_sample(d0, data@, i as int, value as nat, bps as nat, e);
            }
        }
        j = i;
    }
    proof {
        assert(samples_of(data@, bps as nat, e) =~= apply_samples(s, row, spp as nat, m as nat));
    }
    Ok(())
}

/// Undoing differencing after applying it gives the samples back: each is
/// below the modulus, as every `bps`-byte sample is.
pub proof fn lemma_undo_apply(s: Seq<nat>, row: nat, spp: nat, m: nat)
    requires
        row > 0,
        spp > 0,
        m > 0,
        forall|j: int| 0 <= j < s.len() ==> #[trigger] s[j] < m,
    ensures
        undo_samples(apply_samples(s, row, spp, m), row, spp, m) == s,
{
    let a = apply_samples(s, row, spp, m);
    assert forall|j: int| 0 <= j < s.len() implies #[trigger] undone_sample(a, j, row, spp, m) == s[j] by {
        lemma_undone_of_applied(s, row, spp, m, j);
    }
    assert(undo_samples(a, row, spp, m) =~= s);
}

/// One sample of [`lemma_undo_apply`].
proof fn lemma_undone_of_applied(s: Seq<nat>, row: nat, spp: nat, m: nat, j: int)
    requires
        row > 0,
        spp > 0,
        m > 0,
        forall|k: int| 0 <= k < s.len() ==> #[trigger] s[k] < m,
        0 <= j < s.len(),
    ensures
        undone_sample(apply_samples(s, row, spp, m), j, row, spp, m) == s[j],
    decreases j,
{
    let a = apply_samples(s, row, spp, m);
    if !starts_row(j, row, spp) {
        assert(j >= spp) by {
            if j < spp {
                assert(j % (row as int) == j) by {
                    if j >= row {
                        assert(j % (row as int) < row);
                    }
                    vstd::arithmetic::div_mod::lemma_small_mod(j as nat, row);
                }
            }
        }
        lemma_undone_of_applied(s, row, spp, m, j - spp);
        let x = s[j] as int;
        let y = s[j - spp] as int;
        assert(((y + (x - y) % (m as int)) % (m as int)) == x) by (nonlinear_arith)
            requires
                0 <= x < m,
                0 <= y < m,
                m > 0,
        ;
    }
}

/// Bytes are fixed by their samples: two byte strings of the same length,
/// a whole number of `bps`-byte samples, with the same samples are equal.
pub proof fn lemma_samples_determine_bytes(x: Seq<u8>, y: Seq<u8>, bps: nat, e: Endian)
    requires
        bps > 0,
        x.len() == y.len(),
        x.len() % bps == 0,
        samples_of(x, bps, e) == samples_of(y, bps, e),
    ensures
        x == y,
{
    assert forall|k: int| 0 <= k < x.len() implies x[k] == y[k] by {
        let j = k / (bps as int);
        assert(j * bps <= k < j * bps + bps && 0 <= j < x.len() / bps) by (nonlinear_arith)
            requires
                bps > 0,
                0 <= k < x.len(),
                x.len() % bps == 0,
                j == k / (bps as int),
        ;
        assert(j * bps + bps <= x.len()) by (nonlinear_arith)
            requires
                bps > 0,
                0 <= j < x.len() / bps,
        ;
        let cx = x.subrange(j * bps, j * bps + bps);
        let cy = y.subrange(j * bps, j * bps + bps);
        assert(samples_of(x, bps, e)[j] == samples_of(y, bps, e)[j]);
        assert(samples_of(x, bps, e)[j] == uint_value(cx, bps, e));
        assert(samples_of(y, bps, e)[j] == uint_value(cy, bps, e));
        lemma_uint_bytes_round_trip(cx, bps, e);
        lemma_uint_bytes_round_trip(cy, bps, e);
        assert(cx.subrange(0, bps as int) =~= cx);
        assert(cy.subrange(0, bps as int) =~= cy);
        assert(cx == cy);
        assert(cx[k - j * bps] == x[k]);
        assert(cy[k - j * bps] == y[k]);
    }
    assert(x =~= y);
}

/// Undoing horizontal differencing gives back the bytes it was applied
/// to: for `a` what [`apply_horizontal_differencing`] makes of `d` and `u`
/// what [`undo_horizontal_differencing`] makes of `a`, `u` is `d`.
pub proof fn lemma_undo_apply_bytes(
    d: Seq<u8>,
    a: Seq<u8>,
    u: Seq<u8>,
    row_width: u32,
    samples_per_pixel: u32,
    bytes_per_sample: u8,
    big_endian: bool,
)
    requires
        geometry_ok(d.len(), row_width, samples_per_pixel, bytes_per_sample),
        a.len() == d.len(),
        samples_of(a, bytes_per_sample as nat, sample_order(big_endian)) == apply_samples(
            samples_of(d, bytes_per_sample as nat, sample_order(big_endian)),
            (row_width * samples_per_pixel) as nat,
            samples_per_pixel as nat,
            pow256(bytes_per_sample as nat),
        ),
        u.len() == a.len(),
        samples_of(u, bytes_per_sample as nat, sample_order(big_endian)) == undo_samples(
            samples_of(a, bytes_per_sample as nat, sample_order(big_endian)),
            (row_width * samples_per_pixel) as nat,
            samples_per_pixel as nat,
            pow256(bytes_per_sample as nat),
        ),
    ensures
        u == d,
{
    let bps = bytes_per_sample as nat;
    let e = sample_order(big_endian);
    let sd = samples_of(d, bps, e);
    lemma_pow256_values();
    assert(row_width * samples_per_pixel > 0 && samples_per_pixel > 0) by (nonlinear_arith)
        requires
            row_width * samples_per_pixel * bytes_per_sample != 0,
    ;
    assert forall|j: int| 0 <= j < sd.len() implies #[trigger] sd[j] < pow256(bps) by {
        assert(j * bps + bps <= d.len()) by (nonlinear_arith)
            requires
                bps > 0,
                0 <= j < d.len() / bps,
        ;
        lemma_uint_bytes_round_trip(d.subrange(j * bps, j * bps + bps), bps, e);
    }
    lemma_undo_apply(sd, (row_width * samples_per_pixel) as nat, samples_per_pixel as nat, pow256(bps));
    assert(d.len() % bps == 0) by {
        let st = (row_width * samples_per_pixel) as int;
        let q = d.len() as int / (st * bps);
        vstd::arithmetic::div_mod::lemma_fundamental_div_mod(d.len() as int, st * bps);
        vstd::arithmetic::mul::lemma_mul_is_associative(q, st, bps as int);
        assert(d.len() == (st * bps) * q);
        assert(d.len() == (q * st) * bps) by (nonlinear_arith)
            requires
                d.len() == (st * bps) * q,
        ;
        vstd::arithmetic::div_mod::lemma_mod_multiples_basic(q * st, bps as int);
    }
    lemma_samples_determine_bytes(u, d, bps, e);
}

/// Samples are read in the declared byte order: without `big_endian` the
/// first byte of a sample is its least significant, with it the most
/// significant. Differencing and its undoing work on these values.
pub proof fn lemma_sample_byte_order(d: Seq<u8>, bps: nat, big_endian: bool, j: int)
    requires
        bps == 1 || bps == 2 || bps == 4,
        0 <= j,
        j * bps + bps <= d.len(),
    ensures
        ({
            let v = samples_of(d, bps, sample_order(big_endian))[j];
            let k = j * bps;
            &&& j < samples_of(d, bps, sample_order(big_endian)).len()
            &&& bps == 1 ==> v == d[k]
            &&& bps == 2 ==> v == if big_endian {
                256 * d[k] + d[k + 1]
            } else {
                d[k] + 256 * d[k + 1]
            }
            &&& bps == 4 ==> v == if big_endian {
                16777216 * d[k] + 65536 * d[k + 1] + 256 * d[k + 2] + d[k + 3]
            } else {
                d[k] + 256 * d[k + 1] + 65536 * d[k + 2] + 16777216 * d[k + 3]
            }
        }),
{
    let k = j * bps;
    assert(j < d.len() / bps) by (nonlinear_arith)
        requires
            bps > 0,
            0 <= j,
            j * bps + bps <= d.len(),
    ;
    let e = sample_order(big_endian);
    let c = d.subrange(k, k + bps as int);
    assert(c.subrange(0, bps as int) =~= c);
    let o = in_order(c, e);
    reveal_with_fuel(le_value, 5);
    if bps == 1 {
        if big_endian {
            assert(o[0] == c[0]);
        }
        assert(o.drop_first().len() == 0);
    } else if bps == 2 {
        assert(o.drop_first().drop_first().len() == 0);
        assert(le_value(o) == o[0] + 256 * (o[1] + 256 * le_value(o.drop_first().drop_first())));
    } else {
        let o1 = o.drop_first();
        let o2 = o1.drop_first();
        let o3 = o2.drop_first();
        assert(o3.drop_first().len() == 0);
        assert(le_value(o) == o[0] + 256 * (o[1] + 256 * (o[2] + 256 * (o[3] + 256 * le_value(
            o3.drop_first(),
        )))));
    }
}

} // verus!
