//! TIFF PackBits compression (Compression = 32773).
//!
//! A signed control byte `n` is followed by `n + 1` literal bytes
//! (`0 <= n <= 127`) or by one byte repeated `1 - n` times
//! (`-127 <= n <= -1`); `n == -128` is a no-op.
use crate::error::{Error, ErrorCode, Result};
use vstd::prelude::*;

verus! {

/// The output of decoding `input` from position `pos`, `out` decoded so
/// far, stopping once `expected` bytes are produced; `None` when a run
/// reads past the input, the output would exceed `expected`, or the input
/// ends first.
pub open spec fn unpack(input: Seq<u8>, pos: nat, out: Seq<u8>, expected: nat) -> Option<Seq<u8>>
    decreases input.len() - pos,
{
    if out.len() >= expected {
        if out.len() == expected {
            Some(out)
        } else {
            None
        }
    } else if pos >= input.len() {
        None
    } else {
        let c = input[pos as int] as i8;
        if c >= 0 {
            let count = (c + 1) as nat;
            if pos + 1 + count > input.len() || out.len() + count > expected {
                None
            } else {
                unpack(
                    input,
                    pos + 1 + count,
                    out + input.subrange((pos + 1) as int, (pos + 1 + count) as int),
                    expected,
                )
            }
        } else if c != -128 {
            let count = (1 - c) as nat;
            if pos + 1 >= input.len() || out.len() + count > expected {
                None
            } else {
                unpack(input, pos + 2, out + Seq::new(count, |i: int| input[(pos + 1) as int]), expected)
            }
        } else {
            unpack(input, pos + 1, out, expected)
        }
    }
}

/// A successful decoding holds exactly the bytes wanted.
pub proof fn lemma_unpack_len(input: Seq<u8>, pos: nat, out: Seq<u8>, expected: nat)
    ensures
        unpack(input, pos, out, expected) matches Some(v) ==> v.len() == expected,
    decreases input.len() - pos,
{
    if out.len() < expected && pos < input.len() {
        let c = input[pos as int] as i8;
        if c >= 0 {
            let count = (c + 1) as nat;
            if !(pos + 1 + count > input.len() || out.len() + count > expected) {
                lemma_unpack_len(
                    input,
                    pos + 1 + count,
                    out + input.subrange((pos + 1) as int, (pos + 1 + count) as int),
                    expected,
                );
            }
        } else if c != -128 {
            let count = (1 - c) as nat;
            if !(pos + 1 >= input.len() || out.len() + count > expected) {
                lemma_unpack_len(input, pos + 2, out + Seq::new(count, |i: int| input[(pos + 1) as int]), expected);
            }
        } else {
            lemma_unpack_len(input, pos + 1, out, expected);
        }
    }
}

/// Decodes PackBits data until exactly `expected_size` bytes are produced.
/// [`ErrorCode::InvalidArgument`] exactly when [`unpack`] fails: a run reads
/// past the input, the output would exceed `expected_size`, or the input
/// ends first.
pub fn decode_pack_bits(input: &[u8], expected_size: usize) -> (r: Result<Vec<u8>>)
    ensures
        r is Ok <==> unpack(input@, 0, Seq::empty(), expected_size as nat) is Some,
        r matches Ok(v) ==> unpack(input@, 0, Seq::empty(), expected_size as nat) == Some(v@),
        r matches Err(e) ==> e.kind() == ErrorCode::InvalidArgument,
{
    let ghost goal = unpack(input@, 0, Seq::empty(), expected_size as nat);
    let n = input.len();
    let mut output: Vec<u8> = Vec::new();
    let mut pos: usize = 0;
    assert(output@ =~= Seq::<u8>::empty());
    while output.len() < expected_size
        invariant
            n == input@.len(),
            pos <= n,
            output@.len() <= expected_size,
            goal == unpack(input@, 0, Seq::empty(), expected_size as nat),
            unpack(input@, pos as nat, output@, expected_size as nat) == goal,
        decreases n - pos,
    {
        if pos >= n {
            return Err(Error::invalid_argument("decodePackBits: input exhausted before expectedSize"));
        }
        let ghost p0 = pos;
        let ghost o0 = output@;
        let control = input[pos] as i8;
        assert(control == input@[p0 as int] as i8);
        pos = pos + 1;
        if control >= 0 {
            let count = (control as usize) + 1;
            if count > n - pos {
                return Err(Error::invalid_argument("decodePackBits: literal run reads past input end"));
            }
            if count > expected_size - output.len() {
                return Err(
                    Error::invalid_argument("decodePackBits: decoded output exceeds expectedSize"),
                );
            }
            let ghost before = output@;
            let mut k: usize = 0;
            while k < count
                invariant
                    n == input@.len(),
                    pos + count <= n,
                    0 <= k <= count,
                    output@ == before + input@.subrange(pos as int, pos + k),
                decreases count - k,
            {
                output.push(input[pos + k]);
                assert(output@ =~= before + input@.subrange(pos as int, pos + k + 1));
                k = k + 1;
            }
            pos = pos + count;
        } else if control != -128 {
            let count = (1 - (control as i16)) as usize;
            if pos >= n {
                return Err(Error::invalid_argument("decodePackBits: repeat run missing its byte"));
            }
            if count > expected_size - output.len() {
                return Err(
                    Error::invalid_argument("decodePackBits: decoded output exceeds expectedSize"),
                );
            }
            let value = input[pos];
            pos = pos + 1;
            let ghost before = output@;
            let mut k: usize = 0;
            while k < count
                invariant
                    0 <= k <= count,
                    output@ == before + Seq::new(k as nat, |i: int| value),
                decreases count - k,
            {
                output.push(value);
                assert(output@ =~= before + Seq::new((k + 1) as nat, |i: int| value));
                k = k + 1;
            }
            assert(Seq::new(count as nat, |i: int| value) =~= Seq::new(count as nat, |i: int| input@[pos - 1]));
        }
    }
    Ok(output)
}

// ---------------------------------------------------------------------------
// Encoding.
// ---------------------------------------------------------------------------

/// Length of the run of bytes equal to `x[pos]` starting at `pos`, found by
/// extending a run of `k` such bytes.
pub open spec fn run_len(x: Seq<u8>, pos: nat, k: nat) -> nat
    decreases x.len() - pos - k,
{
    if pos + k < x.len() && x[(pos + k) as int] == x[pos as int] {
        run_len(x, pos, k + 1)
    } else {
        k
    }
}

/// Length of the literal stretch starting at `pos`: at most 128 bytes,
/// stopping just before a run of two or more equal bytes begins, found by
/// extending a stretch of `k` bytes.
pub open spec fn lit_len(x: Seq<u8>, pos: nat, k: nat) -> nat
    decreases x.len() - pos - k,
{
    if pos + k < x.len() && k < 128 && !(pos + k + 1 < x.len() && x[(pos + k) as int] == x[(pos + k + 1) as int]) {
        lit_len(x, pos, k + 1)
    } else {
        k
    }
}

/// The repeat controls of a run of `r` bytes `b`: pairs (control, `b`) of
/// at most 128 repeats each.
pub open spec fn repeat_chunks(r: nat, b: u8) -> Seq<u8>
    decreases r,
{
    if r == 0 {
        Seq::empty()
    } else {
        let c: nat = if r < 128 {
            r
        } else {
            128
        };
        seq![((257 - c) % 256) as u8, b] + repeat_chunks((r - c) as nat, b)
    }
}

/// The PackBits encoding of `x` from `pos` on: a run of two or more equal
/// bytes becomes repeat controls, else a literal stretch of up to 128 bytes
/// becomes a literal control and those bytes.
pub open spec fn pack_from(x: Seq<u8>, pos: nat) -> Seq<u8>
    decreases x.len() - pos,
{
    if pos >= x.len() {
        Seq::empty()
    } else {
        let r = run_len(x, pos, 1);
        proof {
            lemma_run_len_bounds(x, pos, 1);
            lemma_lit_len_bounds(x, pos, 1);
        }
        if r >= 2 {
            repeat_chunks(r, x[pos as int]) + pack_from(x, pos + r)
        } else {
            let l = lit_len(x, pos, 1);
            seq![(l - 1) as u8] + x.subrange(pos as int, (pos + l) as int) + pack_from(x, pos + l)
        }
    }
}

/// A run found by extending stays within the input and is at least as long
/// as the stretch it extended.
pub proof fn lemma_run_len_bounds(x: Seq<u8>, pos: nat, k: nat)
    requires
        pos + k <= x.len(),
    ensures
        k <= run_len(x, pos, k) <= x.len() - pos,
    decreases x.len() - pos - k,
{
    if pos + k < x.len() && x[(pos + k) as int] == x[pos as int] {
        lemma_run_len_bounds(x, pos, k + 1);
    }
}

/// A literal stretch found by extending stays within the input and at most
/// 128 bytes.
pub proof fn lemma_lit_len_bounds(x: Seq<u8>, pos: nat, k: nat)
    requires
        pos + k <= x.len(),
        k <= 128,
    ensures
        k <= lit_len(x, pos, k) <= x.len() - pos,
        lit_len(x, pos, k) <= 128,
    decreases x.len() - pos - k,
{
    if pos + k < x.len() && k < 128 && !(pos + k + 1 < x.len() && x[(pos + k) as int] == x[(pos + k + 1) as int]) {
        lemma_lit_len_bounds(x, pos, k + 1);
    }
}

/// Encodes `input` with PackBits: runs of two or more equal bytes as repeat
/// controls of at most 128 repeats, other stretches as literal controls of
/// at most 128 bytes ([`pack_from`]). [`ErrorCode::InvalidArgument`]
/// exactly when the input is longer than `u32::MAX` bytes.
pub fn encode_pack_bits(input: &[u8]) -> (r: Result<Vec<u8>>)
    ensures
        r is Ok <==> input@.len() <= u32::MAX,
        r matches Ok(v) ==> v@ == pack_from(input@, 0),
        r matches Err(e) ==> e.kind() == ErrorCode::InvalidArgument,
{
    let n = input.len();
    if n as u64 > 0xFFFF_FFFFu64 {
        return Err(Error::invalid_argument("encodePackBits: input exceeds uint32 strip byte count"));
    }
    let ghost x = input@;
    let mut out: Vec<u8> = Vec::new();
    let mut pos: usize = 0;
    assert(out@ + pack_from(x, 0) =~= pack_from(x, 0));
    while pos < n
        invariant
            n == x.len(),
            x == input@,
            pos <= n,
            out@ + pack_from(x, pos as nat) == pack_from(x, 0),
        decreases n - pos,
    {
        let mut run: usize = 1;
        while run < n - pos && input[pos + run] == input[pos]
            invariant
                n == x.len(),
                x == input@,
                pos < n,
                1 <= run <= n - pos,
                run_len(x, pos as nat, run as nat) == run_len(x, pos as nat, 1),
            decreases n - pos - run,
        {
            run = run + 1;
        }
        proof {
            lemma_run_len_bounds(x, pos as nat, 1);
        }
        if run >= 2 {
            let run_before = run;
            let b = input[pos];
            let ghost rest = pack_from(x, (pos + run_before) as nat);
            assert(pack_from(x, pos as nat) == repeat_chunks(run as nat, b) + rest);
            while run > 0
                invariant
                    out@ + repeat_chunks(run as nat, b) + rest == pack_from(x, 0),
                decreases run,
            {
                let chunk: usize = if run < 128 { run } else { 128 };
                let ghost prev = out@;
                out.push(((257 - chunk) % 256) as u8);
                out.push(b);
                assert(out@ + repeat_chunks((run - chunk) as nat, b) + rest =~= prev + repeat_chunks(
                    run as nat,
                    b,
                ) + rest);
                run = run - chunk;
            }
            assert(out@ + rest =~= out@ + repeat_chunks(0, b) + rest);
            pos = pos + run_before;
        } else {
            let lit_start = pos;
            pos = pos + 1;
            while pos < n && (pos - lit_start) < 128 && !(pos + 1 < n && input[pos] == input[pos + 1])
                invariant
                    n == x.len(),
                    x == input@,
                    lit_start < pos <= n,
                    pos - lit_start <= 128,
                    lit_len(x, lit_start as nat, (pos - lit_start) as nat) == lit_len(x, lit_start as nat, 1),
                decreases n - pos,
            {
                pos = pos + 1;
            }
            let literal_count = pos - lit_start;
            let ghost prev = out@;
            out.push((literal_count - 1) as u8);
            let mut k: usize = lit_start;
            while k < pos
                invariant
                    lit_start <= k <= pos,
                    pos <= n,
                    n == x.len(),
                    x == input@,
                    out@ == prev.push((literal_count - 1) as u8) + x.subrange(lit_start as int, k as int),
                decreases pos - k,
            {
                out.push(input[k]);
                assert(out@ =~= prev.push((literal_count - 1) as u8) + x.subrange(lit_start as int, k + 1));
                k = k + 1;
            }
            assert(out@ + pack_from(x, pos as nat) =~= prev + pack_from(x, lit_start as nat));
        }
    }
    assert(out@ =~= out@ + pack_from(x, pos as nat));
    Ok(out)
}

// ---------------------------------------------------------------------------
// Decoding what was encoded.
// ---------------------------------------------------------------------------

/// A byte read as a signed control byte.
proof fn lemma_control_value(v: u8)
    ensures
        v < 128 ==> (v as i8) as int == v as int,
        v >= 128 ==> (v as i8) as int == v as int - 256,
{
    assert(v < 128 ==> (v as i8) as int == v as int) by (bit_vector);
    assert(v >= 128 ==> (v as i8) as int == v as int - 256) by (bit_vector);
}

/// Every byte of `x[pos..pos + r]` equals `x[pos]` for the run found from
/// a run of `k` such bytes.
proof fn lemma_run_same(x: Seq<u8>, pos: nat, k: nat)
    requires
        pos + k <= x.len(),
        k >= 1,
        forall|i: int| pos <= i < pos + k ==> #[trigger] x[i] == x[pos as int],
    ensures
        forall|i: int| pos <= i < pos + run_len(x, pos, k) ==> #[trigger] x[i] == x[pos as int],
    decreases x.len() - pos - k,
{
    if pos + k < x.len() && x[(pos + k) as int] == x[pos as int] {
        lemma_run_same(x, pos, k + 1);
    }
}

/// Decoding the repeat controls of the rest of a run appends that rest.
proof fn lemma_unpack_repeat(x: Seq<u8>, pos: nat, r: nat, q: nat, inp: Seq<u8>, p: nat, tail: Seq<u8>)
    requires
        r >= 1,
        q <= r,
        pos + r <= x.len(),
        forall|i: int| pos <= i < pos + r ==> #[trigger] x[i] == x[pos as int],
        p <= inp.len(),
        inp.subrange(p as int, inp.len() as int) == repeat_chunks((r - q) as nat, x[pos as int]) + tail,
    ensures
        unpack(inp, p, x.subrange(0, (pos + q) as int), x.len()) == unpack(
            inp,
            (inp.len() - tail.len()) as nat,
            x.subrange(0, (pos + r) as int),
            x.len(),
        ),
    decreases r - q,
{
    let b = x[pos as int];
    let rem = (r - q) as nat;
    if rem == 0 {
        assert(inp.subrange(p as int, inp.len() as int) =~= tail);
    } else {
        let c: nat = if rem < 128 {
            rem
        } else {
            128
        };
        let ctl = ((257 - c) % 256) as u8;
        let chunks = repeat_chunks(rem, b);
        let rest_chunks = repeat_chunks((rem - c) as nat, b);
        assert(chunks == seq![ctl, b] + rest_chunks);
        let s = inp.subrange(p as int, inp.len() as int);
        assert(s =~= seq![ctl, b] + (rest_chunks + tail));
        assert(s[0] == ctl && s[1] == b);
        assert(inp[p as int] == s[0]);
        assert(inp[(p + 1) as int] == s[1]);
        assert(s.len() == inp.len() - p);
        assert forall|i: int| 0 <= i < inp.len() - (p + 2) implies #[trigger] inp.subrange(
            (p + 2) as int,
            inp.len() as int,
        )[i] == (rest_chunks + tail)[i] by {
            assert(s[i + 2] == (rest_chunks + tail)[i]);
        }
        assert(inp.subrange((p + 2) as int, inp.len() as int) =~= rest_chunks + tail);
        lemma_control_value(ctl);
        let out = x.subrange(0, (pos + q) as int);
        let next = x.subrange(0, (pos + q + c) as int);
        if c == 1 {
            assert(ctl == 0);
            assert(out + inp.subrange((p + 1) as int, (p + 2) as int) =~= next);
        } else {
            assert((ctl as i8) as int == 1 - c);
            assert(out + Seq::new(c, |i: int| inp[(p + 1) as int]) =~= next);
        }
        lemma_unpack_repeat(x, pos, r, q + c, inp, p + 2, tail);
    }
}

/// Decoding the encoding of `x` from position `pos` on, with `x[..pos]`
/// already decoded, gives `x`.
proof fn lemma_unpack_pack_from(x: Seq<u8>, pos: nat, inp: Seq<u8>, p: nat)
    requires
        pos <= x.len(),
        p <= inp.len(),
        inp.subrange(p as int, inp.len() as int) == pack_from(x, pos),
    ensures
        unpack(inp, p, x.subrange(0, pos as int), x.len()) == Some(x),
    decreases x.len() - pos,
{
    if pos >= x.len() {
        assert(x.subrange(0, pos as int) =~= x);
    } else {
        let r = run_len(x, pos, 1);
        lemma_run_len_bounds(x, pos, 1);
        lemma_lit_len_bounds(x, pos, 1);
        if r >= 2 {
            let rest = pack_from(x, pos + r);
            lemma_run_same(x, pos, 1);
            lemma_unpack_repeat(x, pos, r, 0, inp, p, rest);
            let p2 = (inp.len() - rest.len()) as nat;
            let s = inp.subrange(p as int, inp.len() as int);
            let rc = repeat_chunks(r, x[pos as int]);
            assert(s == rc + rest);
            assert(s.len() == inp.len() - p);
            assert(p + rc.len() == p2);
            assert forall|i: int| 0 <= i < rest.len() implies #[trigger] inp.subrange(p2 as int, inp.len() as int)[i]
                == rest[i] by {
                assert(s[rc.len() + i] == rest[i]);
            }
            assert(inp.subrange(p2 as int, inp.len() as int) =~= rest);
            lemma_unpack_pack_from(x, pos + r, inp, p2);
        } else {
            let l = lit_len(x, pos, 1);
            let ctl = (l - 1) as u8;
            let s = inp.subrange(p as int, inp.len() as int);
            assert(s == seq![ctl] + x.subrange(pos as int, (pos + l) as int) + pack_from(x, pos + l));
            assert(s[0] == ctl);
            assert(inp[p as int] == ctl);
            lemma_control_value(ctl);
            assert(inp.subrange((p + 1) as int, (p + 1 + l) as int) =~= x.subrange(pos as int, (pos + l) as int))
                by {
                assert forall|i: int| 0 <= i < l implies #[trigger] inp.subrange((p + 1) as int, (p + 1 + l) as int)[i]
                    == x.subrange(pos as int, (pos + l) as int)[i] by {
                    assert(inp[p + 1 + i] == inp.subrange(p as int, inp.len() as int)[1 + i]);
                }
            }
            assert(x.subrange(0, pos as int) + x.subrange(pos as int, (pos + l) as int) =~= x.subrange(
                0,
                (pos + l) as int,
            ));
            let tail = pack_from(x, pos + l);
            assert(s.len() == inp.len() - p);
            assert forall|i: int| 0 <= i < tail.len() implies #[trigger] inp.subrange(
                (p + 1 + l) as int,
                inp.len() as int,
            )[i] == tail[i] by {
                assert(s[1 + l + i] == tail[i]);
            }
            assert(inp.subrange((p + 1 + l) as int, inp.len() as int) =~= tail);
            lemma_unpack_pack_from(x, pos + l, inp, p + 1 + l);
        }
    }
}

/// Decoding the PackBits encoding of any input, expecting its length, gives
/// the input back.
pub proof fn lemma_pack_bits_round_trip(x: Seq<u8>)
    ensures
        unpack(pack_from(x, 0), 0, Seq::empty(), x.len()) == Some(x),
{
    let inp = pack_from(x, 0);
    assert(inp.subrange(0, inp.len() as int) =~= inp);
    assert(x.subrange(0, 0) =~= Seq::<u8>::empty());
    lemma_unpack_pack_from(x, 0, inp, 0);
}

} // verus!
