//! TIFF-variant LZW compression (Compression = 5).
//!
//! Codes are packed MSB-first, start at 9 bits and grow to 12; 256 clears
//! the dictionary and 257 ends the stream. The width grows one code early
//! (at 511, 1023 and 2047), as TIFF readers expect.
use crate::error::{Error, ErrorCode, Result};
use vstd::prelude::*;

verus! {

const CLEAR_CODE: u16 = 256;

const EOI_CODE: u16 = 257;

const FIRST_DICTIONARY_CODE: u16 = 258;

const MAX_DICTIONARY_CODE: u16 = 4094;

/// The code width once the dictionary holds `next_code` codes.
pub open spec fn width_for(next_code: int) -> nat {
    if next_code >= 2047 {
        12
    } else if next_code >= 1023 {
        11
    } else if next_code >= 511 {
        10
    } else {
        9
    }
}

fn code_width_for(next_code: usize) -> (w: u8)
    ensures
        w as nat == width_for(next_code as int),
        9 <= w <= 12,
{
    if next_code >= 2047 {
        12
    } else if next_code >= 1023 {
        11
    } else if next_code >= 511 {
        10
    } else {
        9
    }
}

// ---------------------------------------------------------------------------
// Decoding.
// ---------------------------------------------------------------------------

/// Bit `k` of `input`, counting from the most significant bit of byte 0.
pub open spec fn input_bit(input: Seq<u8>, k: int) -> u8 {
    (input[k / 8] >> ((7 - k % 8) as u8)) & 1u8
}

/// The `w`-bit code starting at bit `pos`, most significant bit first.
pub open spec fn read_bits(input: Seq<u8>, pos: int, w: nat) -> nat
    decreases w,
{
    if w == 0 {
        0
    } else {
        read_bits(input, pos, (w - 1) as nat) * 2 + input_bit(input, pos + w - 1) as nat
    }
}

/// `2^k`.
pub open spec fn bit_capacity(k: nat) -> nat
    decreases k,
{
    if k == 0 {
        1
    } else {
        2 * bit_capacity((k - 1) as nat)
    }
}

proof fn lemma_bit_capacity_mono(a: nat, b: nat)
    requires
        a <= b,
    ensures
        bit_capacity(a) <= bit_capacity(b),
    decreases b - a,
{
    if a < b {
        lemma_bit_capacity_mono(a, (b - 1) as nat);
    }
}

proof fn lemma_bit_capacity_12()
    ensures
        bit_capacity(12) == 4096,
{
    reveal_with_fuel(bit_capacity, 13);
}

/// The dictionary after a clear code: the 256 one-byte strings, then the
/// two unused slots of the clear and end codes.
pub open spec fn initial_dict() -> Seq<Seq<u8>> {
    Seq::new(258, |i: int| if i < 256 { seq![i as u8] } else { Seq::empty() })
}

/// What a code stands for, given the dictionary and the previous entry:
/// a one-byte code or a dictionary code, or (the code being the next one
/// to be defined) the previous entry followed by its own first byte.
pub open spec fn code_entry(code: nat, dict: Seq<Seq<u8>>, old: Option<Seq<u8>>) -> Option<Seq<u8>> {
    if code < 256 || (258 <= code && code < dict.len()) {
        Some(dict[code as int])
    } else if code == dict.len() && old is Some {
        Some(old->0 + seq![old->0[0]])
    } else {
        None
    }
}

/// The result of decoding from bit `bit_pos` with dictionary `dict`,
/// previous entry `old` and output `out` so far, `expected` bytes wanted:
/// `None` when the bits run out before the end code, a code is undefined,
/// the output would exceed `expected`, the dictionary would pass code 4094,
/// or the end code comes with fewer than `expected` bytes.
pub open spec fn lzw_decode_from(
    input: Seq<u8>,
    bit_pos: nat,
    dict: Seq<Seq<u8>>,
    old: Option<Seq<u8>>,
    out: Seq<u8>,
    expected: nat,
) -> Option<Seq<u8>>
    decreases input.len() * 8 - bit_pos,
{
    let w = width_for(dict.len() as int);
    if bit_pos + w > input.len() * 8 {
        None
    } else {
        let code = read_bits(input, bit_pos as int, w);
        let next_pos = bit_pos + w;
        if code == 256 {
            lzw_decode_from(input, next_pos, initial_dict(), None, out, expected)
        } else if code == 257 {
            if out.len() == expected {
                Some(out)
            } else {
                None
            }
        } else {
            match code_entry(code, dict, old) {
                None => None,
                Some(e) => {
                    if out.len() + e.len() > expected {
                        None
                    } else if old is Some && dict.len() > 4094 {
                        None
                    } else {
                        let dict2 = if old is Some {
                            dict.push(old->0 + seq![e[0]])
                        } else {
                            dict
                        };
                        lzw_decode_from(input, next_pos, dict2, Some(e), out + e, expected)
                    }
                },
            }
        }
    }
}

/// The decoding of a whole stream.
pub open spec fn lzw_decode(input: Seq<u8>, expected: nat) -> Option<Seq<u8>> {
    lzw_decode_from(input, 0, initial_dict(), None, Seq::empty(), expected)
}

/// A successful decoding holds exactly the bytes wanted.
pub proof fn lemma_lzw_decode_len(
    input: Seq<u8>,
    bit_pos: nat,
    dict: Seq<Seq<u8>>,
    old: Option<Seq<u8>>,
    out: Seq<u8>,
    expected: nat,
)
    ensures
        lzw_decode_from(input, bit_pos, dict, old, out, expected) matches Some(v) ==> v.len() == expected,
    decreases input.len() * 8 - bit_pos,
{
    let w = width_for(dict.len() as int);
    if bit_pos + w <= input.len() * 8 {
        let code = read_bits(input, bit_pos as int, w);
        let next_pos = bit_pos + w;
        if code == 256 {
            lemma_lzw_decode_len(input, next_pos, initial_dict(), None, out, expected);
        } else if code != 257 {
            match code_entry(code, dict, old) {
                None => {},
                Some(e) => {
                    if out.len() + e.len() <= expected && !(old is Some && dict.len() > 4094) {
                        let dict2 = if old is Some {
                            dict.push(old->0 + seq![e[0]])
                        } else {
                            dict
                        };
                        lemma_lzw_decode_len(input, next_pos, dict2, Some(e), out + e, expected);
                    }
                },
            }
        }
    }
}

/// Reads the `w`-bit code at bit `bit_pos`.
fn read_code(input: &[u8], bit_pos: u128, w: u8) -> (code: u16)
    requires
        1 <= w <= 12,
        bit_pos + w <= input@.len() * 8,
    ensures
        code as nat == read_bits(input@, bit_pos as int, w as nat),
        code < 4096,
{
    let mut code: u32 = 0;
    let mut k: u8 = 0;
    while k < w
        invariant
            k <= w <= 12,
            bit_pos + w <= input@.len() * 8,
            code as nat == read_bits(input@, bit_pos as int, k as nat),
            code < bit_capacity(k as nat),
            bit_capacity(k as nat) <= 4096,
        decreases w - k,
    {
        let p: u128 = bit_pos + k as u128;
        let byte = input[(p / 8) as usize];
        let shift = (7 - (p % 8)) as u8;
        let bit = (byte >> shift) & 1u8;
        assert(bit <= 1) by (bit_vector)
            requires
                bit == (byte >> shift) & 1u8,
        ;
        proof {
            lemma_bit_capacity_mono((k + 1) as nat, 12);
            lemma_bit_capacity_12();
        }
        code = code * 2 + bit as u32;
        k = k + 1;
    }
    code as u16
}

/// The dictionary as a table of byte vectors.
fn initial_table() -> (t: Vec<Vec<u8>>)
    ensures
        t@.len() == 258,
        forall|i: int| 0 <= i < 258 ==> (#[trigger] t@[i])@ == initial_dict()[i],
{
    let mut t: Vec<Vec<u8>> = Vec::new();
    let mut i: u16 = 0;
    while i < 258
        invariant
            i <= 258,
            t@.len() == i,
            forall|j: int| 0 <= j < i ==> (#[trigger] t@[j])@ == initial_dict()[j],
        decreases 258 - i,
    {
        if i < 256 {
            let v: Vec<u8> = vec![i as u8];
            assert(v@ =~= initial_dict()[i as int]);
            t.push(v);
        } else {
            let v: Vec<u8> = Vec::new();
            assert(v@ =~= initial_dict()[i as int]);
            t.push(v);
        }
        i = i + 1;
    }
    t
}

fn append_bytes(out: &mut Vec<u8>, b: &Vec<u8>)
    ensures
        final(out)@ == old(out)@ + b@,
{
    out.extend_from_slice(b.as_slice());
    assert(out@ =~= old(out)@ + b@);
}

fn copy_bytes(b: &Vec<u8>) -> (r: Vec<u8>)
    ensures
        r@ == b@,
{
    let mut r: Vec<u8> = Vec::new();
    append_bytes(&mut r, b);
    assert(r@ =~= b@);
    r
}

/// The table holds the dictionary: one-byte codes below 256, non-empty
/// entries from 258 on, between 258 and 4095 codes.
spec fn table_holds(t: Seq<Vec<u8>>, dict: Seq<Seq<u8>>) -> bool {
    &&& t.len() == dict.len()
    &&& 258 <= dict.len() <= 4095
    &&& forall|i: int| 0 <= i < t.len() ==> (#[trigger] t[i])@ == dict[i]
    &&& forall|i: int| 0 <= i < 256 ==> (#[trigger] dict[i]) == seq![i as u8]
    &&& forall|i: int| 258 <= i < dict.len() ==> (#[trigger] dict[i]).len() >= 1
}

/// Decodes TIFF-variant LZW data until the end code, wanting exactly
/// `expected_size` bytes. [`ErrorCode::InvalidArgument`] exactly when
/// [`lzw_decode`] fails: the bits run out before the end code, a code is
/// undefined, the output would exceed `expected_size`, the dictionary would
/// pass code 4094, or the stream ends short of `expected_size` bytes.
pub fn decode_lzw(input: &[u8], expected_size: usize) -> (r: Result<Vec<u8>>)
    ensures
        r is Ok <==> lzw_decode(input@, expected_size as nat) is Some,
        r matches Ok(v) ==> lzw_decode(input@, expected_size as nat) == Some(v@),
        r matches Err(e) ==> e.kind() == ErrorCode::InvalidArgument,
{
    let ghost goal = lzw_decode(input@, expected_size as nat);
    let total_bits: u128 = input.len() as u128 * 8;
    let mut table = initial_table();
    let mut bit_pos: u128 = 0;
    let mut output: Vec<u8> = Vec::new();
    let mut have_old = false;
    let mut old_entry: Vec<u8> = Vec::new();
    let ghost mut dict = initial_dict();
    proof {
        assert(forall|i: int| 0 <= i < 256 ==> (#[trigger] dict[i]) == seq![i as u8]);
    }
    loop
        invariant
            total_bits == input@.len() * 8,
            input@.len() <= usize::MAX,
            bit_pos <= total_bits,
            table_holds(table@, dict),
            have_old ==> old_entry@.len() >= 1,
            output@.len() <= expected_size,
            goal == lzw_decode(input@, expected_size as nat),
            lzw_decode_from(
                input@,
                bit_pos as nat,
                dict,
                if have_old { Some(old_entry@) } else { None },
                output@,
                expected_size as nat,
            ) == goal,
        decreases total_bits - bit_pos,
    {
        let ghost old_opt: Option<Seq<u8>> = if have_old { Some(old_entry@) } else { None };
        let next_code = table.len();
        let w = code_width_for(next_code);
        if bit_pos + w as u128 > total_bits {
            return Err(Error::invalid_argument("decodeLzw: bitstream exhausted before EOI"));
        }
        let code = read_code(input, bit_pos, w);
        bit_pos = bit_pos + w as u128;
        if code == CLEAR_CODE {
            table = initial_table();
            have_old = false;
            old_entry = Vec::new();
            proof {
                dict = initial_dict();
            }
            continue;
        }
        if code == EOI_CODE {
            if output.len() != expected_size {
                return Err(Error::invalid_argument("decodeLzw: decoded output shorter than expectedSize"));
            }
            return Ok(output);
        }
        let entry: Vec<u8>;
        if code < 256 || (code >= FIRST_DICTIONARY_CODE && (code as usize) < next_code) {
            entry = copy_bytes(&table[code as usize]);
        } else if code as usize == next_code && have_old {
            let mut e = copy_bytes(&old_entry);
            e.push(old_entry[0]);
            entry = e;
        } else {
            return Err(Error::invalid_argument("decodeLzw: invalid code in compressed stream"));
        }
        assert(code_entry(code as nat, dict, old_opt) == Some(entry@));
        if entry.len() > expected_size - output.len() {
            return Err(Error::invalid_argument("decodeLzw: decoded output exceeds expectedSize"));
        }
        append_bytes(&mut output, &entry);
        if have_old {
            if next_code > 4094 {
                return Err(Error::invalid_argument("decodeLzw: dictionary exceeded 12-bit table"));
            }
            let mut new_entry = copy_bytes(&old_entry);
            new_entry.push(entry[0]);
            proof {
                dict = dict.push(old_entry@ + seq![entry@[0]]);
            }
            assert(new_entry@ =~= old_entry@ + seq![entry@[0]]);
            table.push(new_entry);
        }
        old_entry = entry;
        have_old = true;
    }
}

// ---------------------------------------------------------------------------
// Encoding.
// ---------------------------------------------------------------------------

/// The codes the greedy encoder emits for `x` from position `pos` on. The
/// dictionary maps a (prefix code, next byte) pair to the code of the
/// longer string; `cur` is the code of the string matched so far. When the
/// dictionary reaches code 4094 a clear code follows and it starts anew.
pub open spec fn lzw_encode_from(
    x: Seq<u8>,
    pos: nat,
    dict: Map<(u16, u8), u16>,
    next_code: u16,
    cur: u16,
    codes: Seq<u16>,
) -> Seq<u16>
    decreases x.len() - pos,
{
    if pos >= x.len() {
        codes.push(cur).push(257)
    } else {
        let next = x[pos as int];
        if dict.contains_key((cur, next)) {
            lzw_encode_from(x, pos + 1, dict, next_code, dict[(cur, next)], codes)
        } else if next_code < 4094 {
            if next_code + 1 >= 4094 {
                lzw_encode_from(x, pos + 1, Map::empty(), 258, next as u16, codes.push(cur).push(256))
            } else {
                lzw_encode_from(
                    x,
                    pos + 1,
                    dict.insert((cur, next), next_code),
                    (next_code + 1) as u16,
                    next as u16,
                    codes.push(cur),
                )
            }
        } else {
            lzw_encode_from(x, pos + 1, dict, next_code, next as u16, codes.push(cur))
        }
    }
}

/// The codes of the encoding of `x`: a clear code, the greedy matches, the
/// end code.
pub open spec fn lzw_codes(x: Seq<u8>) -> Seq<u16> {
    if x.len() == 0 {
        seq![256u16, 257u16]
    } else {
        lzw_encode_from(x, 1, Map::empty(), 258, x[0] as u16, seq![256u16])
    }
}

/// Bit `j` (from the most significant) of the `w`-bit field of `code`.
pub open spec fn code_bit(code: u16, w: nat, j: nat) -> bool {
    ((code >> ((w - 1 - j) as u16)) & 1u16) == 1u16
}

/// The low `w` bits of `code`, most significant first.
pub open spec fn code_bits(code: u16, w: nat) -> Seq<bool> {
    Seq::new(w, |j: int| code_bit(code, w, j as nat))
}

/// The decoder's dictionary size after reading `code` at size `table_size`
/// (`have_prev`: a code was read since the last clear), and whether a code
/// has then been read since the last clear.
pub open spec fn next_table_state(code: u16, table_size: u16, have_prev: bool) -> (u16, bool) {
    if code == 256 {
        (258, false)
    } else if code != 257 {
        (if have_prev && table_size < 4094 {
            (table_size + 1) as u16
        } else {
            table_size
        }, true)
    } else {
        (table_size, have_prev)
    }
}

/// The bits of `codes[i..]`, each at the width the decoder will read it
/// with.
pub open spec fn stream_bits(codes: Seq<u16>, i: nat, table_size: u16, have_prev: bool) -> Seq<bool>
    decreases codes.len() - i,
{
    if i >= codes.len() {
        Seq::empty()
    } else {
        let code = codes[i as int];
        let (ts, hp) = next_table_state(code, table_size, have_prev);
        code_bits(code, width_for(table_size as int)) + stream_bits(codes, i + 1, ts, hp)
    }
}

/// The number written by `s`, most significant bit first.
pub open spec fn bits_value(s: Seq<bool>) -> nat
    decreases s.len(),
{
    if s.len() == 0 {
        0
    } else {
        bits_value(s.drop_last()) * 2 + if s.last() {
            1nat
        } else {
            0nat
        }
    }
}

/// `s` filled up with zero bits to a whole byte.
pub open spec fn pad_to_byte(s: Seq<bool>) -> Seq<bool> {
    s + Seq::new((8 - s.len()) as nat, |i: int| false)
}

/// The bytes of a bit stream, eight bits each, the last byte filled up
/// with zero bits.
pub open spec fn bits_to_bytes(s: Seq<bool>) -> Seq<u8>
    decreases s.len(),
{
    if s.len() == 0 {
        Seq::empty()
    } else if s.len() < 8 {
        seq![bits_value(pad_to_byte(s)) as u8]
    } else {
        seq![bits_value(s.take(8)) as u8] + bits_to_bytes(s.skip(8))
    }
}

/// The bytes of a code sequence.
pub open spec fn lzw_pack(codes: Seq<u16>) -> Seq<u8> {
    bits_to_bytes(stream_bits(codes, 0, 258, false))
}

proof fn lemma_bits_value_bound(s: Seq<bool>)
    ensures
        bits_value(s) < bit_capacity(s.len()),
    decreases s.len(),
{
    if s.len() > 0 {
        lemma_bits_value_bound(s.drop_last());
    }
}

/// Packs `codes` MSB-first at the widths the decoder reads them with.
fn write_codes_to_bits(codes: &Vec<u16>) -> (out: Vec<u8>)
    ensures
        out@ == lzw_pack(codes@),
{
    let ghost goal = lzw_pack(codes@);
    let mut out: Vec<u8> = Vec::new();
    let mut acc: u8 = 0;
    let mut nacc: u8 = 0;
    let ghost mut pend: Seq<bool> = Seq::empty();
    let mut table_size: u16 = FIRST_DICTIONARY_CODE;
    let mut have_prev = false;
    let mut i: usize = 0;
    assert(pend + stream_bits(codes@, 0, 258, false) =~= stream_bits(codes@, 0, 258, false));
    while i < codes.len()
        invariant
            i <= codes@.len(),
            nacc < 8,
            pend.len() == nacc,
            bits_value(pend) == acc,
            258 <= table_size <= 4094,
            goal == lzw_pack(codes@),
            out@ + bits_to_bytes(pend + stream_bits(codes@, i as nat, table_size, have_prev)) == goal,
        decreases codes@.len() - i,
    {
        let code = codes[i];
        let w = code_width_for(table_size as usize);
        let ghost (ts2, hp2) = next_table_state(code, table_size, have_prev);
        let ghost rest = stream_bits(codes@, (i + 1) as nat, ts2, hp2);
        let ghost cb = code_bits(code, w as nat);
        assert(stream_bits(codes@, i as nat, table_size, have_prev) == cb + rest);
        assert(pend + (cb + rest) =~= pend + cb.skip(0) + rest);
        let mut j: u8 = 0;
        while j < w
            invariant
                j <= w <= 12,
                nacc < 8,
                pend.len() == nacc,
                bits_value(pend) == acc,
                cb == code_bits(code, w as nat),
                out@ + bits_to_bytes(pend + cb.skip(j as int) + rest) == goal,
            decreases w - j,
        {
            let shift = (w - 1 - j) as u16;
            let bit = (code >> shift) & 1u16;
            assert(bit <= 1) by (bit_vector)
                requires
                    bit == (code >> shift) & 1u16,
            ;
            let ghost b = code_bit(code, w as nat, j as nat);
            assert(b == (bit == 1));
            assert(cb.skip(j as int) =~= seq![b] + cb.skip(j + 1));
            assert(pend + cb.skip(j as int) + rest =~= pend.push(b) + cb.skip(j + 1) + rest);
            proof {
                lemma_bits_value_bound(pend);
                lemma_bit_capacity_mono(pend.len(), 7);
                reveal_with_fuel(bit_capacity, 8);
                assert(pend.push(b).drop_last() =~= pend);
            }
            acc = acc * 2 + bit as u8;
            nacc = nacc + 1;
            proof {
                pend = pend.push(b);
            }
            if nacc == 8 {
                let ghost tail = cb.skip(j + 1) + rest;
                let ghost whole = pend + tail;
                let ghost before = out@;
                assert(whole =~= pend + cb.skip(j + 1) + rest);
                assert(whole.take(8) =~= pend);
                assert(whole.skip(8) =~= tail);
                assert(bits_to_bytes(whole) == seq![bits_value(whole.take(8)) as u8] + bits_to_bytes(
                    whole.skip(8),
                ));
                out.push(acc);
                assert(out@ + bits_to_bytes(tail) =~= before + bits_to_bytes(whole));
                assert(Seq::<bool>::empty() + cb.skip(j + 1) + rest =~= tail);
                acc = 0;
                nacc = 0;
                proof {
                    pend = Seq::empty();
                }
            }
            j = j + 1;
        }
        assert(cb.skip(w as int) =~= Seq::<bool>::empty());
        assert(pend + cb.skip(w as int) + rest =~= pend + rest);
        if code == CLEAR_CODE {
            table_size = FIRST_DICTIONARY_CODE;
            have_prev = false;
        } else if code != EOI_CODE {
            if have_prev && table_size < MAX_DICTIONARY_CODE {
                table_size = table_size + 1;
            }
            have_prev = true;
        }
        i = i + 1;
    }
    assert(pend + stream_bits(codes@, i as nat, table_size, have_prev) =~= pend);
    if nacc > 0 {
        let ghost padded = pad_to_byte(pend);
        while nacc < 8
            invariant
                0 < nacc <= 8,
                pend.len() == nacc,
                bits_value(pend) == acc,
                pad_to_byte(pend) == padded,
            decreases 8 - nacc,
        {
            proof {
                lemma_bits_value_bound(pend);
                lemma_bit_capacity_mono(pend.len(), 7);
                reveal_with_fuel(bit_capacity, 8);
                assert(pend.push(false).drop_last() =~= pend);
                assert(pad_to_byte(pend.push(false)) =~= pad_to_byte(pend));
            }
            acc = acc * 2;
            nacc = nacc + 1;
            proof {
                pend = pend.push(false);
            }
        }
        assert(pad_to_byte(pend) =~= pend);
        out.push(acc);
    }
    assert(out@ =~= goal);
    out
}

/// The code-table slot of the pair (`c`, `b`).
spec fn slot(c: u16, b: u8) -> int {
    c as int * 256 + b as int
}

/// Slot (`c`, `b`) of the table is zero exactly when the pair is not in
/// the dictionary, and holds its code when it is.
spec fn slot_ok(t: Seq<u16>, dict: Map<(u16, u8), u16>, c: u16, b: u8) -> bool {
    &&& (t[slot(c, b)] != 0) == dict.contains_key((c, b))
    &&& dict.contains_key((c, b)) ==> t[slot(c, b)] == dict[(c, b)]
}

/// The flat table holds the dictionary, whose codes lie in
/// `258..next_code`.
spec fn table_matches(t: Seq<u16>, dict: Map<(u16, u8), u16>, next_code: u16) -> bool {
    &&& t.len() == 1048576
    &&& forall|c: u16, b: u8| c < 4096 ==> #[trigger] slot_ok(t, dict, c, b)
    &&& forall|k: (u16, u8)| dict.contains_key(k) ==> 258 <= #[trigger] dict[k] < next_code
}

fn empty_table() -> (t: Vec<u16>)
    ensures
        table_matches(t@, Map::empty(), 258),
{
    let t: Vec<u16> = vec![0u16; 1048576];
    assert forall|c: u16, b: u8| c < 4096 implies #[trigger] slot_ok(t@, Map::empty(), c, b) by {
        assert(0 <= slot(c, b) < 1048576);
    }
    t
}

/// Encodes `input` with TIFF-variant LZW: a clear code, the greedy
/// dictionary matches ([`lzw_codes`]), the end code, packed as
/// [`lzw_pack`] says. [`ErrorCode::InvalidArgument`] exactly when the input
/// is longer than `u32::MAX` bytes.
pub fn encode_lzw(input: &[u8]) -> (r: Result<Vec<u8>>)
    ensures
        r is Ok <==> input@.len() <= u32::MAX,
        r matches Ok(v) ==> v@ == lzw_pack(lzw_codes(input@)),
        r matches Err(e) ==> e.kind() == ErrorCode::InvalidArgument,
{
    let n = input.len();
    if n as u64 > 0xFFFF_FFFFu64 {
        return Err(Error::invalid_argument("encodeLzw: input exceeds uint32 strip byte count"));
    }
    let mut codes: Vec<u16> = vec![CLEAR_CODE];
    if n == 0 {
        codes.push(EOI_CODE);
        assert(codes@ =~= lzw_codes(input@));
        return Ok(write_codes_to_bits(&codes));
    }
    let ghost x = input@;
    let ghost goal = lzw_codes(x);
    let mut table = empty_table();
    let ghost mut dict: Map<(u16, u8), u16> = Map::empty();
    let mut next_code: u16 = FIRST_DICTIONARY_CODE;
    let mut cur: u16 = input[0] as u16;
    let mut pos: usize = 1;
    assert(codes@ =~= seq![256u16]);
    while pos < n
        invariant
            n == x.len(),
            x == input@,
            1 <= pos <= n,
            258 <= next_code <= 4094,
            cur < next_code,
            table_matches(table@, dict, next_code),
            goal == lzw_codes(x),
            lzw_encode_from(x, pos as nat, dict, next_code, cur, codes@) == goal,
        decreases n - pos,
    {
        let next = input[pos];
        let idx = cur as usize * 256 + next as usize;
        assert(idx == slot(cur, next));
        assert(slot_ok(table@, dict, cur, next));
        let found = table[idx];
        if found != 0 {
            cur = found;
        } else {
            codes.push(cur);
            if next_code < MAX_DICTIONARY_CODE {
                if next_code + 1 >= MAX_DICTIONARY_CODE {
                    codes.push(CLEAR_CODE);
                    table = empty_table();
                    next_code = FIRST_DICTIONARY_CODE;
                    proof {
                        dict = Map::empty();
                    }
                } else {
                    let ghost old_t = table@;
                    let ghost old_dict = dict;
                    table.set(idx, next_code);
                    proof {
                        dict = dict.insert((cur, next), next_code);
                        assert forall|c: u16, b: u8| c < 4096 implies #[trigger] slot_ok(table@, dict, c, b) by {
                            if c != cur || b != next {
                                assert(slot_ok(old_t, old_dict, c, b));
                                assert(slot(c, b) != slot(cur, next));
                            }
                        }
                    }
                    next_code = next_code + 1;
                }
            }
            cur = next as u16;
        }
        pos = pos + 1;
    }
    codes.push(cur);
    codes.push(EOI_CODE);
    Ok(write_codes_to_bits(&codes))
}

} // verus!
