//! Byte-level text helpers: string equality and ordering, decimal parsing and
//! decimal formatting.
//!
//! Text is reasoned about through its UTF-8 encoding (`encode_utf8(s@)`),
//! which is what the byte-wise comparisons below actually inspect.
use vstd::prelude::*;
use vstd::utf8::*;

verus! {

broadcast use vstd::utf8::group_utf8_lib;

/// The UTF-8 bytes of a character sequence.
pub open spec fn utf8(s: Seq<char>) -> Seq<u8> {
    encode_utf8(s)
}

/// Two character sequences are equal exactly when their UTF-8 encodings are.
pub proof fn lemma_utf8_injective(a: Seq<char>, b: Seq<char>)
    ensures
        (utf8(a) == utf8(b)) <==> (a == b),
{
    if utf8(a) == utf8(b) {
        assert(decode_utf8(encode_utf8(a)) == a);
        assert(decode_utf8(encode_utf8(b)) == b);
    }
}

/// Byte-wise lexicographic "strictly less than".
pub open spec fn bytes_lt(a: Seq<u8>, b: Seq<u8>) -> bool
    decreases a.len(),
{
    if a.len() == 0 {
        b.len() > 0
    } else if b.len() == 0 {
        false
    } else if a[0] != b[0] {
        a[0] < b[0]
    } else {
        bytes_lt(a.drop_first(), b.drop_first())
    }
}

/// `bytes_lt` is irreflexive.
pub proof fn lemma_bytes_lt_irreflexive(a: Seq<u8>)
    ensures
        !bytes_lt(a, a),
    decreases a.len(),
{
    if a.len() > 0 {
        lemma_bytes_lt_irreflexive(a.drop_first());
    }
}

/// `bytes_lt` is transitive.
pub proof fn lemma_bytes_lt_transitive(a: Seq<u8>, b: Seq<u8>, c: Seq<u8>)
    requires
        bytes_lt(a, b),
        bytes_lt(b, c),
    ensures
        bytes_lt(a, c),
    decreases a.len(),
{
    if a.len() > 0 && b.len() > 0 && c.len() > 0 {
        if a[0] == b[0] && b[0] == c[0] {
            lemma_bytes_lt_transitive(a.drop_first(), b.drop_first(), c.drop_first());
        }
    }
}

/// `bytes_lt` is total on distinct sequences.
pub proof fn lemma_bytes_lt_total(a: Seq<u8>, b: Seq<u8>)
    requires
        a != b,
    ensures
        bytes_lt(a, b) || bytes_lt(b, a),
    decreases a.len(),
{
    if a.len() > 0 && b.len() > 0 && a[0] == b[0] {
        if a.drop_first() == b.drop_first() {
            assert(a =~= seq![a[0]] + a.drop_first());
            assert(b =~= seq![b[0]] + b.drop_first());
        }
        lemma_bytes_lt_total(a.drop_first(), b.drop_first());
    } else if a.len() == 0 && b.len() == 0 {
        assert(a =~= b);
    }
}

/// Whether byte slices `a` and `b` hold the same bytes.
pub fn bytes_eq(a: &[u8], b: &[u8]) -> (r: bool)
    ensures
        r == (a@ == b@),
{
    if a.len() != b.len() {
        return false;
    }
    let mut i: usize = 0;
    while i < a.len()
        invariant
            a@.len() == b@.len(),
            0 <= i <= a@.len(),
            forall|k: int| 0 <= k < i ==> a@[k] == b@[k],
        decreases a@.len() - i,
    {
        if a[i] != b[i] {
            return false;
        }
        i = i + 1;
    }
    assert(a@ =~= b@);
    true
}

/// Whether `a` is byte-wise lexicographically smaller than `b`.
pub fn bytes_less(a: &[u8], b: &[u8]) -> (r: bool)
    ensures
        r == bytes_lt(a@, b@),
{
    let mut i: usize = 0;
    assert(a@.skip(0) =~= a@);
    assert(b@.skip(0) =~= b@);
    while i < a.len() && i < b.len()
        invariant
            0 <= i <= a@.len(),
            i <= b@.len(),
            forall|k: int| 0 <= k < i ==> a@[k] == b@[k],
            bytes_lt(a@, b@) == bytes_lt(a@.skip(i as int), b@.skip(i as int)),
        decreases a@.len() - i,
    {
        if a[i] != b[i] {
            return a[i] < b[i];
        }
        assert(a@.skip(i as int).drop_first() =~= a@.skip(i + 1));
        assert(b@.skip(i as int).drop_first() =~= b@.skip(i + 1));
        i = i + 1;
    }
    i == a.len() && i < b.len()
}

/// Whether the strings `a` and `b` are equal.
pub fn str_eq(a: &str, b: &str) -> (r: bool)
    ensures
        r == (a@ == b@),
{
    let r = bytes_eq(a.as_bytes(), b.as_bytes());
    proof {
        lemma_utf8_injective(a@, b@);
    }
    r
}

/// Whether `a` sorts strictly before `b` (byte-wise on their UTF-8 bytes).
pub fn str_less(a: &str, b: &str) -> (r: bool)
    ensures
        r == bytes_lt(utf8(a@), utf8(b@)),
{
    bytes_less(a.as_bytes(), b.as_bytes())
}

/// Whether `prefix`'s bytes begin `s`'s bytes.
pub open spec fn bytes_prefix(prefix: Seq<u8>, s: Seq<u8>) -> bool {
    prefix.len() <= s.len() && s.subrange(0, prefix.len() as int) == prefix
}

/// Whether the UTF-8 bytes of `s` start with those of `prefix`.
pub fn str_starts_with(s: &str, prefix: &str) -> (r: bool)
    ensures
        r == bytes_prefix(utf8(prefix@), utf8(s@)),
{
    let sb = s.as_bytes();
    let pb = prefix.as_bytes();
    assert(sb@ == utf8(s@));
    assert(pb@ == utf8(prefix@));
    if pb.len() > sb.len() {
        return false;
    }
    let mut i: usize = 0;
    while i < pb.len()
        invariant
            sb@ == utf8(s@),
            pb@ == utf8(prefix@),
            pb@.len() <= sb@.len(),
            0 <= i <= pb@.len(),
            forall|k: int| 0 <= k < i ==> sb@[k] == pb@[k],
        decreases pb@.len() - i,
    {
        if sb[i] != pb[i] {
            assert(sb@.subrange(0, pb@.len() as int)[i as int] != pb@[i as int]);
            return false;
        }
        i = i + 1;
    }
    assert(sb@.subrange(0, pb@.len() as int) =~= pb@);
    true
}

/// The ASCII code of decimal digit `d`.
pub open spec fn digit_byte(d: int) -> u8 {
    (48 + d) as u8
}

/// Whether `b` is an ASCII decimal digit.
pub open spec fn is_digit(b: u8) -> bool {
    48 <= b <= 57
}

/// The value of a run of ASCII decimal digits (most significant first).
pub open spec fn digits_value(b: Seq<u8>) -> nat
    decreases b.len(),
{
    if b.len() == 0 {
        0
    } else {
        (digits_value(b.drop_last()) * 10 + (b.last() - 48)) as nat
    }
}

/// Whether every byte of `b` is an ASCII decimal digit.
pub open spec fn all_digits(b: Seq<u8>) -> bool {
    forall|i: int| 0 <= i < b.len() ==> is_digit(#[trigger] b[i])
}

/// The digit bytes of an unsigned decimal numeral: an optional leading `+`
/// is not part of them.
pub open spec fn numeral_digits(b: Seq<u8>) -> Seq<u8> {
    if b.len() > 0 && b[0] == 43 {
        b.drop_first()
    } else {
        b
    }
}

/// The value of the unsigned decimal numeral `b` when it is at most `max`:
/// an optional `+` followed by one or more ASCII digits. This is how Rust's
/// unsigned integer `from_str` reads text.
pub open spec fn parse_decimal(b: Seq<u8>, max: nat) -> Option<nat> {
    let d = numeral_digits(b);
    if d.len() > 0 && all_digits(d) && digits_value(d) <= max {
        Some(digits_value(d))
    } else {
        None
    }
}

/// The decimal digits of `n`, most significant first, without leading zeros.
pub open spec fn decimal_bytes(n: nat) -> Seq<u8>
    decreases n,
{
    if n < 10 {
        seq![digit_byte(n as int)]
    } else {
        decimal_bytes(n / 10).push(digit_byte((n % 10) as int))
    }
}

/// The decimal representation of `n` as characters.
pub open spec fn decimal_chars(n: nat) -> Seq<char> {
    decimal_bytes(n).map_values(|b: u8| b as char)
}

/// The decimal digits of `n` are ASCII digits, at least one, worth `n`.
pub proof fn lemma_decimal_bytes(n: nat)
    ensures
        decimal_bytes(n).len() > 0,
        all_digits(decimal_bytes(n)),
        digits_value(decimal_bytes(n)) == n,
    decreases n,
{
    if n >= 10 {
        lemma_decimal_bytes(n / 10);
        let d = decimal_bytes(n);
        assert(d.drop_last() == decimal_bytes(n / 10));
        assert(d.last() == digit_byte((n % 10) as int));
        assert(d.last() - 48 == n % 10);
        assert(n == (n / 10) * 10 + n % 10) by (nonlinear_arith);
        assert(digits_value(d) == digits_value(d.drop_last()) * 10 + (d.last() - 48));
    } else {
        let d = decimal_bytes(n);
        assert(d.drop_last() =~= Seq::<u8>::empty());
        assert(digits_value(d) == digits_value(d.drop_last()) * 10 + (d.last() - 48));
    }
}

/// ASCII bytes read as characters encode back to themselves.
pub proof fn lemma_utf8_ascii(b: Seq<u8>)
    requires
        forall|i: int| 0 <= i < b.len() ==> #[trigger] b[i] < 128,
    ensures
        utf8(b.map_values(|x: u8| x as char)) == b,
    decreases b.len(),
{
    let c = b.map_values(|x: u8| x as char);
    if b.len() > 0 {
        lemma_utf8_ascii(b.drop_first());
        assert(c.drop_first() =~= b.drop_first().map_values(|x: u8| x as char));
        let v = b[0];
        assert((v as u32) & 0x7F == v as u32) by (bit_vector)
            requires
                v < 128,
        ;
        assert(encode_utf8(c) =~= seq![b[0]] + encode_utf8(c.drop_first()));
        assert(b =~= seq![b[0]] + b.drop_first());
    } else {
        assert(encode_utf8(c) =~= b);
    }
}

/// A decimal representation reads back as its value.
pub proof fn lemma_parse_decimal_chars(n: nat, max: nat)
    requires
        n <= max,
    ensures
        parse_decimal(utf8(decimal_chars(n)), max) == Some(n),
{
    lemma_decimal_bytes(n);
    let d = decimal_bytes(n);
    assert forall|i: int| 0 <= i < d.len() implies #[trigger] d[i] < 128 by {
        assert(is_digit(d[i]));
    }
    lemma_utf8_ascii(d);
    assert(numeral_digits(d) == d) by {
        assert(is_digit(d[0]));
    }
}

proof fn lemma_digits_value_prefix_le(b: Seq<u8>, i: int)
    requires
        0 <= i <= b.len(),
        all_digits(b),
    ensures
        digits_value(b.subrange(0, i)) <= digits_value(b),
    decreases b.len() - i,
{
    if i < b.len() {
        lemma_digits_value_prefix_le(b, i + 1);
        assert(b.subrange(0, i + 1).drop_last() =~= b.subrange(0, i));
        assert(is_digit(b[i]));
    } else {
        assert(b.subrange(0, i) =~= b);
    }
}

/// Parses `s` as an unsigned decimal numeral no larger than `max`.
pub fn parse_decimal_str(s: &str, max: u64) -> (r: Option<u64>)
    ensures
        r matches Some(v) ==> parse_decimal(utf8(s@), max as nat) == Some(v as nat),
        r is None ==> parse_decimal(utf8(s@), max as nat) is None,
{
    let b = s.as_bytes();
    let ghost all = b@;
    assert(all == utf8(s@));
    let mut start: usize = 0;
    if b.len() > 0 && b[0] == 43u8 {
        start = 1;
    }
    let ghost d = numeral_digits(all);
    assert(d =~= all.subrange(start as int, all.len() as int));
    if start >= b.len() {
        return None;
    }
    let mut acc: u64 = 0;
    let mut i: usize = start;
    while i < b.len()
        invariant
            b@ == all,
            all == utf8(s@),
            d == numeral_digits(all),
            start <= i <= all.len(),
            d =~= all.subrange(start as int, all.len() as int),
            all_digits(d.subrange(0, i - start)),
            acc == digits_value(d.subrange(0, i - start)),
            acc <= max,
        decreases all.len() - i,
    {
        let c = b[i];
        if c < 48u8 || c > 57u8 {
            assert(d[i - start] == c);
            assert(!is_digit(d[i - start]));
            return None;
        }
        let digit = (c - 48u8) as u64;
        assert(d.subrange(0, i + 1 - start).drop_last() =~= d.subrange(0, i - start));
        if digit > max || acc > (max - digit) / 10 {
            proof {
                if digit <= max {
                    assert(acc * 10 + digit > max) by (nonlinear_arith)
                        requires
                            acc > (max - digit) / 10,
                            digit <= max,
                    ;
                }
                if all_digits(d) {
                    lemma_digits_value_prefix_le(d, i + 1 - start);
                }
            }
            return None;
        }
        proof {
            assert(acc * 10 + digit <= max) by (nonlinear_arith)
                requires
                    acc <= (max - digit) / 10,
                    digit <= max,
            ;
        }
        acc = acc * 10 + digit;
        i = i + 1;
    }
    assert(d.subrange(0, i - start) =~= d);
    Some(acc)
}

/// Parses `s` as a `u32` decimal numeral, as Rust's `u32::from_str` does.
pub fn parse_u32_str(s: &str) -> (r: Option<u32>)
    ensures
        r matches Some(v) ==> parse_decimal(utf8(s@), u32::MAX as nat) == Some(v as nat),
        r is None ==> parse_decimal(utf8(s@), u32::MAX as nat) is None,
{
    match parse_decimal_str(s, u32::MAX as u64) {
        Some(v) => Some(v as u32),
        None => None,
    }
}

fn digit_str(d: u64) -> (s: &'static str)
    requires
        d < 10,
    ensures
        s@ == seq![digit_byte(d as int) as char],
{
    proof {
        reveal_strlit("0");
        reveal_strlit("1");
        reveal_strlit("2");
        reveal_strlit("3");
        reveal_strlit("4");
        reveal_strlit("5");
        reveal_strlit("6");
        reveal_strlit("7");
        reveal_strlit("8");
        reveal_strlit("9");
    }
    if d == 0 {
        "0"
    } else if d == 1 {
        "1"
    } else if d == 2 {
        "2"
    } else if d == 3 {
        "3"
    } else if d == 4 {
        "4"
    } else if d == 5 {
        "5"
    } else if d == 6 {
        "6"
    } else if d == 7 {
        "7"
    } else if d == 8 {
        "8"
    } else {
        "9"
    }
}

/// The decimal representation of `n`, as `n.to_string()` gives it.
pub fn decimal_string(n: u64) -> (s: String)
    ensures
        s@ == decimal_chars(n as nat),
{
    // Collect digits least significant first.
    let mut digits: Vec<u64> = Vec::new();
    let mut m: u64 = n;
    while m >= 10
        invariant
            m <= n,
            decimal_bytes(n as nat) =~= decimal_bytes(m as nat) + Seq::new(
                digits@.len(),
                |k: int| digit_byte(digits@[digits@.len() - 1 - k] as int),
            ),
            forall|k: int| 0 <= k < digits@.len() ==> digits@[k] < 10,
        decreases m,
    {
        let ghost old_digits = digits@;
        digits.push(m % 10);
        assert(decimal_bytes(m as nat) == decimal_bytes((m / 10) as nat).push(
            digit_byte((m % 10) as int),
        ));
        m = m / 10;
    }
    let mut s = String::new();
    s.append(digit_str(m));
    let ghost head = decimal_bytes(m as nat);
    assert(head =~= seq![digit_byte(m as int)]);
    let mut j: usize = digits.len();
    while j > 0
        invariant
            j <= digits@.len(),
            forall|k: int| 0 <= k < digits@.len() ==> digits@[k] < 10,
            decimal_bytes(n as nat) =~= head + Seq::new(
                digits@.len(),
                |k: int| digit_byte(digits@[digits@.len() - 1 - k] as int),
            ),
            s@ =~= (head + Seq::new(
                (digits@.len() - j) as nat,
                |k: int| digit_byte(digits@[digits@.len() - 1 - k] as int),
            )).map_values(|b: u8| b as char),
        decreases j,
    {
        j = j - 1;
        s.append(digit_str(digits[j]));
    }
    s
}

/// Decimal text of a `u32`.
pub fn u32_to_string(n: u32) -> (s: String)
    ensures
        s@ == decimal_chars(n as nat),
{
    decimal_string(n as u64)
}

/// `std::str::from_utf8`: `Some` exactly when `bytes` is valid UTF-8, and
/// then the text those bytes encode.
#[verifier::external_body]
pub(crate) fn str_from_utf8(bytes: &[u8]) -> (r: Option<&str>)
    ensures
        r is Some <==> valid_utf8(bytes@),
        r matches Some(s) ==> utf8(s@) == bytes@,
{
    std::str::from_utf8(bytes).ok()
}

/// The characters of `s`, in order (`str::chars`, collected).
#[verifier::external_body]
pub(crate) fn chars_of(s: &str) -> (r: Vec<char>)
    ensures
        r@ == s@,
{
    s.chars().collect()
}

/// The string of the characters `c`, in order (collected from
/// `slice::iter`).
#[verifier::external_body]
pub(crate) fn string_of_chars(c: &[char]) -> (r: String)
    ensures
        r@ == c@,
{
    c.iter().collect()
}

} // verus!
