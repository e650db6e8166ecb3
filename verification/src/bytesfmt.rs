//! Byte-level text utilities: lowercase hex encoding and decoding, decimal
//! rendering of integers, and building `String`s from ASCII bytes.
//!
//! Identities, op hashes, topics and signatures all travel as lowercase hex
//! strings, so the codec here is shared by most of the crate.

use vstd::prelude::*;
use vstd::utf8::{encode_utf8, valid_utf8, encode_utf8_decode_utf8, encode_utf8_valid_utf8};
use vstd::utf8::{is_ascii_chars, is_ascii_chars_encode_utf8};

verus! {

/// The characters spelled by a sequence of ASCII bytes.
#[verifier::opaque]
pub open spec fn chars_of_ascii(bytes: Seq<u8>) -> Seq<char> {
    bytes.map_values(|b: u8| b as char)
}

/// True when every byte is an ASCII code point.
pub open spec fn all_ascii(bytes: Seq<u8>) -> bool {
    forall|i: int| 0 <= i < bytes.len() ==> bytes[i] < 128
}

/// UTF-8 encoding of an ASCII byte sequence read as characters is the sequence itself.
pub proof fn lemma_ascii_encode_utf8(bytes: Seq<u8>)
    requires
        all_ascii(bytes),
    ensures
        encode_utf8(chars_of_ascii(bytes)) =~= bytes,
{
    reveal(chars_of_ascii);
    assert(is_ascii_chars(chars_of_ascii(bytes)));
    is_ascii_chars_encode_utf8(chars_of_ascii(bytes));
}

/// Relies on std's `String::from_utf8`: it returns `Ok` exactly on valid
/// UTF-8 input, and the returned string's byte encoding is the input.
#[verifier::external_body]
pub(crate) fn string_from_utf8(v: Vec<u8>) -> (r: Option<String>)
    ensures
        r is Some ==> encode_utf8(r->0@) == v@,
        valid_utf8(v@) ==> r is Some,
{
    match String::from_utf8(v) {
        Ok(s) => Some(s),
        Err(_) => None,
    }
}

/// Build a `String` whose characters are exactly the given ASCII bytes.
pub fn string_from_ascii(v: Vec<u8>) -> (r: String)
    requires
        all_ascii(v@),
    ensures
        r@ == chars_of_ascii(v@),
{
    proof {
        lemma_ascii_encode_utf8(v@);
        encode_utf8_valid_utf8(chars_of_ascii(v@));
    }
    let ghost target = chars_of_ascii(v@);
    match string_from_utf8(v) {
        Some(s) => {
            proof {
                encode_utf8_decode_utf8(s@);
                encode_utf8_decode_utf8(target);
            }
            s
        },
        None => {
            proof {
                assert(false);
            }
            unreached()
        },
    }
}

/// Relies on std's `TryFrom` for fixed-size arrays: copies the 32 bytes.
#[verifier::external_body]
pub fn bytes32(v: &[u8]) -> (r: [u8; 32])
    requires
        v@.len() == 32,
    ensures
        r@ == v@,
{
    v.try_into().unwrap()
}

/// Relies on std's `TryFrom` for fixed-size arrays: copies the 24 bytes.
#[verifier::external_body]
pub fn bytes24(v: &[u8]) -> (r: [u8; 24])
    requires
        v@.len() == 24,
    ensures
        r@ == v@,
{
    v.try_into().unwrap()
}

/// The ASCII code of the lowercase hex digit for a value below 16.
pub open spec fn hex_digit(n: u8) -> u8
    recommends
        n < 16,
{
    if n < 10 {
        (0x30 + n) as u8
    } else {
        (0x57 + n) as u8
    }
}

/// Lowercase hex spelling of a byte sequence, as ASCII bytes: two digits per byte.
#[verifier::opaque]
pub open spec fn hex_bytes_of(bytes: Seq<u8>) -> Seq<u8> {
    Seq::new(
        bytes.len() * 2,
        |i: int| if i % 2 == 0 { hex_digit(bytes[i / 2] / 16) } else { hex_digit(bytes[i / 2] % 16) },
    )
}

/// Lowercase hex spelling of a byte sequence, as characters.
pub open spec fn hex_chars_of(bytes: Seq<u8>) -> Seq<char> {
    chars_of_ascii(hex_bytes_of(bytes))
}

/// Every hex digit byte is ASCII.
pub proof fn lemma_hex_bytes_ascii(bytes: Seq<u8>)
    ensures
        all_ascii(hex_bytes_of(bytes)),
{
    reveal(hex_bytes_of);
}

/// Encode bytes as lowercase hex ASCII bytes.
pub fn hex_encode_bytes(v: &[u8]) -> (r: Vec<u8>)
    ensures
        r@ == hex_bytes_of(v@),
{
    proof {
        reveal(hex_bytes_of);
    }
    let mut out: Vec<u8> = Vec::new();
    let mut i: usize = 0;
    while i < v.len()
        invariant
            i <= v.len(),
            out@ == hex_bytes_of(v@.take(i as int)),
        decreases v.len() - i,
    {
        proof {
            reveal(hex_bytes_of);
        }
        let b = v[i];
        let hi: u8 = b / 16;
        let lo: u8 = b % 16;
        let hi_d: u8 = if hi < 10 { 0x30 + hi } else { 0x57 + hi };
        let lo_d: u8 = if lo < 10 { 0x30 + lo } else { 0x57 + lo };
        out.push(hi_d);
        out.push(lo_d);
        i = i + 1;
        proof {
            assert(out@ =~= hex_bytes_of(v@.take(i as int)));
        }
    }
    proof {
        assert(v@.take(v@.len() as int) =~= v@);
    }
    out
}

/// Encode bytes as a lowercase hex `String`.
pub fn hex_string(v: &[u8]) -> (r: String)
    ensures
        r@ == hex_chars_of(v@),
{
    let bytes = hex_encode_bytes(v);
    proof {
        lemma_hex_bytes_ascii(v@);
    }
    string_from_ascii(bytes)
}

/// The 64-digit lowercase hex spelling of a 32-byte identifier.
pub fn bytes_to_hex(bytes: &[u8; 32]) -> (r: String)
    ensures
        r@ == hex_chars_of(bytes@),
        r@.len() == 64,
{
    let r = hex_string(bytes.as_slice());
    proof {
        reveal(hex_bytes_of);
        reveal(chars_of_ascii);
    }
    r
}

/// Value of one hex digit byte (either case), or 255 for a non-digit.
pub open spec fn hex_val(b: u8) -> u8 {
    if 0x30 <= b && b <= 0x39 {
        (b - 0x30) as u8
    } else if 0x61 <= b && b <= 0x66 {
        (b - 0x57) as u8
    } else if 0x41 <= b && b <= 0x46 {
        (b - 0x37) as u8
    } else {
        255
    }
}

/// True when the byte spells a hex digit in either case.
pub open spec fn is_hex_digit(b: u8) -> bool {
    hex_val(b) < 16
}

/// True when the ASCII bytes spell a well-formed hex string: even length, all digits.
pub open spec fn valid_hex_bytes(s: Seq<u8>) -> bool {
    s.len() % 2 == 0 && forall|i: int| 0 <= i < s.len() ==> is_hex_digit(#[trigger] s[i])
}

/// The bytes spelled by a well-formed hex string.
pub open spec fn hex_parse(s: Seq<u8>) -> Seq<u8>
    recommends
        valid_hex_bytes(s),
{
    Seq::new(s.len() / 2, |i: int| (hex_val(s[2 * i]) * 16 + hex_val(s[2 * i + 1])) as u8)
}

/// Parsing inverts encoding.
pub proof fn lemma_hex_round_trip(bytes: Seq<u8>)
    ensures
        valid_hex_bytes(hex_bytes_of(bytes)),
        hex_parse(hex_bytes_of(bytes)) =~= bytes,
{
    reveal(hex_bytes_of);
    let h = hex_bytes_of(bytes);
    assert forall|i: int| 0 <= i < h.len() implies is_hex_digit(#[trigger] h[i]) by {
        let b = bytes[i / 2];
        assert(b / 16 < 16 && b % 16 < 16);
    }
    assert forall|i: int| 0 <= i < bytes.len() implies hex_parse(h)[i] == bytes[i] by {
        assert(h[2 * i] == hex_digit(bytes[i] / 16));
        assert(h[2 * i + 1] == hex_digit(bytes[i] % 16));
        assert(hex_val(hex_digit(bytes[i] / 16)) == bytes[i] / 16);
        assert(hex_val(hex_digit(bytes[i] % 16)) == bytes[i] % 16);
    }
}

/// Decode a hex ASCII byte string; `None` exactly on malformed input.
pub fn hex_decode_bytes(s: &[u8]) -> (r: Option<Vec<u8>>)
    ensures
        r is Some <==> valid_hex_bytes(s@),
        r is Some ==> r->0@ == hex_parse(s@),
{
    if s.len() % 2 != 0 {
        return None;
    }
    let mut out: Vec<u8> = Vec::new();
    let mut i: usize = 0;
    while i < s.len()
        invariant
            i <= s.len(),
            i % 2 == 0,
            s@.len() % 2 == 0,
            forall|j: int| 0 <= j < i ==> is_hex_digit(#[trigger] s@[j]),
            out@ == hex_parse(s@.take(i as int)),
        decreases s.len() - i,
    {
        let hi = s[i];
        let lo = s[i + 1];
        let hv: u8 = if 0x30 <= hi && hi <= 0x39 {
            hi - 0x30
        } else if 0x61 <= hi && hi <= 0x66 {
            hi - 0x57
        } else if 0x41 <= hi && hi <= 0x46 {
            hi - 0x37
        } else {
            255
        };
        let lv: u8 = if 0x30 <= lo && lo <= 0x39 {
            lo - 0x30
        } else if 0x61 <= lo && lo <= 0x66 {
            lo - 0x57
        } else if 0x41 <= lo && lo <= 0x46 {
            lo - 0x37
        } else {
            255
        };
        if hv == 255 || lv == 255 {
            return None;
        }
        out.push(hv * 16 + lv);
        i = i + 2;
        proof {
            assert(out@ =~= hex_parse(s@.take(i as int)));
        }
    }
    proof {
        assert(s@.take(s@.len() as int) =~= s@);
    }
    Some(out)
}

/// Decimal ASCII spelling of a natural number.
pub open spec fn dec_bytes_of(n: nat) -> Seq<u8>
    decreases n,
{
    if n < 10 {
        seq![(0x30 + n) as u8]
    } else {
        dec_bytes_of(n / 10).push((0x30 + n % 10) as u8)
    }
}

/// Decimal ASCII spelling of a signed integer: a minus sign, then digits.
pub open spec fn dec_bytes_of_int(n: int) -> Seq<u8> {
    if n < 0 {
        seq![0x2du8] + dec_bytes_of((-n) as nat)
    } else {
        dec_bytes_of(n as nat)
    }
}

/// Every decimal spelling is nonempty ASCII.
pub proof fn lemma_dec_bytes_ascii(n: nat)
    ensures
        dec_bytes_of(n).len() >= 1,
        all_ascii(dec_bytes_of(n)),
        forall|i: int|
            0 <= i < dec_bytes_of(n).len() ==> 0x30 <= #[trigger] dec_bytes_of(n)[i] <= 0x39,
    decreases n,
{
    if n >= 10 {
        lemma_dec_bytes_ascii(n / 10);
    }
}

/// Render a `u64` in decimal ASCII.
pub fn u64_dec_bytes(n: u64) -> (r: Vec<u8>)
    ensures
        r@ == dec_bytes_of(n as nat),
{
    let mut out: Vec<u8> = Vec::new();
    if n == 0 {
        out.push(0x30);
        proof {
            assert(out@ =~= dec_bytes_of(0nat));
        }
        return out;
    }
    // Collect digits least-significant first, then reverse.
    let mut digits: Vec<u8> = Vec::new();
    let mut m: u64 = n;
    while m > 0
        invariant
            m > 0 ==> dec_bytes_of(n as nat) == dec_bytes_of(m as nat) + digits@.reverse(),
            m == 0 ==> dec_bytes_of(n as nat) == digits@.reverse(),
        decreases m,
    {
        let ghost pre = digits@;
        let d: u8 = (m % 10) as u8;
        digits.push(0x30 + d);
        proof {
            assert(digits@ =~= pre.push((0x30 + (m as nat) % 10) as u8));
            assert(digits@.reverse() =~= seq![(0x30 + (m as nat) % 10) as u8] + pre.reverse());
            if m >= 10 {
                assert(dec_bytes_of(m as nat) == dec_bytes_of((m as nat) / 10).push(
                    (0x30 + (m as nat) % 10) as u8,
                ));
                assert(dec_bytes_of((m as nat) / 10) + digits@.reverse() =~= (dec_bytes_of(
                    (m as nat) / 10,
                ) + seq![(0x30 + (m as nat) % 10) as u8]) + pre.reverse());
                assert(dec_bytes_of((m as nat) / 10).push((0x30 + (m as nat) % 10) as u8)
                    =~= dec_bytes_of((m as nat) / 10) + seq![(0x30 + (m as nat) % 10) as u8]);
            } else {
                assert(dec_bytes_of(m as nat) =~= seq![(0x30 + (m as nat) % 10) as u8]);
                assert(dec_bytes_of(m as nat) + pre.reverse() =~= digits@.reverse());
            }
        }
        m = m / 10;
    }
    let mut i: usize = digits.len();
    while i > 0
        invariant
            i <= digits.len(),
            out@ == digits@.reverse().take(digits@.len() - i),
        decreases i,
    {
        i = i - 1;
        let b = digits[i];
        out.push(b);
        proof {
            assert(out@ =~= digits@.reverse().take(digits@.len() - i));
        }
    }
    proof {
        assert(digits@.reverse().take(digits@.len() as int) =~= digits@.reverse());
    }
    out
}

/// Render an `i64` in decimal ASCII, with a leading minus sign when negative.
pub fn i64_dec_bytes(n: i64) -> (r: Vec<u8>)
    ensures
        r@ == dec_bytes_of_int(n as int),
{
    if n >= 0 {
        u64_dec_bytes(n as u64)
    } else {
        let mag: u64 = if n == i64::MIN {
            0x8000_0000_0000_0000u64
        } else {
            (-n) as u64
        };
        let mut out: Vec<u8> = Vec::new();
        out.push(0x2d);
        let digits = u64_dec_bytes(mag);
        let mut i: usize = 0;
        while i < digits.len()
            invariant
                i <= digits.len(),
                digits@ == dec_bytes_of(mag as nat),
                out@ == seq![0x2du8] + digits@.take(i as int),
            decreases digits.len() - i,
        {
            let b = digits[i];
            out.push(b);
            i = i + 1;
            proof {
                assert(out@ =~= seq![0x2du8] + digits@.take(i as int));
            }
        }
        proof {
            assert(digits@.take(digits@.len() as int) =~= digits@);
            assert(mag as nat == (-(n as int)) as nat);
        }
        out
    }
}

/// A rendered integer holds only digits and a possible leading minus: in
/// particular, never a comma.
pub proof fn lemma_dec_bytes_int_no_comma(n: int)
    ensures
        forall|i: int|
            0 <= i < dec_bytes_of_int(n).len() ==> #[trigger] dec_bytes_of_int(n)[i] != 0x2c,
{
    if n < 0 {
        lemma_dec_bytes_ascii((-n) as nat);
        assert forall|i: int|
            0 <= i < dec_bytes_of_int(n).len() implies #[trigger] dec_bytes_of_int(n)[i]
            != 0x2c by {
            if i > 0 {
                assert(dec_bytes_of_int(n)[i] == dec_bytes_of((-n) as nat)[i - 1]);
            }
        }
    } else {
        lemma_dec_bytes_ascii(n as nat);
    }
}

/// True when every byte is a decimal digit.
pub open spec fn all_digits(s: Seq<u8>) -> bool {
    forall|i: int| 0 <= i < s.len() ==> 0x30 <= #[trigger] s[i] <= 0x39
}

/// Value of a digit string, most significant first.
pub open spec fn digits_val(s: Seq<u8>) -> nat
    decreases s.len(),
{
    if s.len() == 0 {
        0
    } else {
        (digits_val(s.drop_last()) * 10 + (s.last() - 0x30)) as nat
    }
}

/// A canonical unsigned decimal: nonempty, all digits, no leading zero.
pub open spec fn canonical_dec(s: Seq<u8>) -> bool {
    s.len() > 0 && all_digits(s) && (s.len() > 1 ==> s[0] != 0x30)
}

/// What a canonical signed decimal string denotes, if anything in `i64` range.
pub open spec fn spec_parse_i64(s: Seq<u8>) -> Option<i64> {
    if s.len() > 0 && s[0] == 0x2d {
        let d = s.subrange(1, s.len() as int);
        if canonical_dec(d) && digits_val(d) > 0 && digits_val(d) <= 0x8000_0000_0000_0000nat {
            Some((-(digits_val(d) as int)) as i64)
        } else {
            None
        }
    } else if canonical_dec(s) && digits_val(s) <= i64::MAX as nat {
        Some(digits_val(s) as i64)
    } else {
        None
    }
}

/// The decimal spelling of a positive number never starts with a zero.
pub proof fn lemma_dec_no_leading_zero(n: nat)
    requires
        n > 0,
    ensures
        dec_bytes_of(n)[0] != 0x30,
    decreases n,
{
    if n >= 10 {
        lemma_dec_no_leading_zero(n / 10);
    }
}

/// Parsing the decimal spelling returns the number.
pub proof fn lemma_dec_val_round_trip(n: nat)
    ensures
        digits_val(dec_bytes_of(n)) == n,
        canonical_dec(dec_bytes_of(n)),
    decreases n,
{
    lemma_dec_bytes_ascii(n);
    if n < 10 {
        assert(dec_bytes_of(n) =~= seq![(0x30 + n) as u8]);
        assert(seq![(0x30 + n) as u8].drop_last() =~= Seq::<u8>::empty());
        assert(digits_val(Seq::<u8>::empty()) == 0);
        assert(digits_val(seq![(0x30 + n) as u8]) == n);
    } else {
        lemma_dec_val_round_trip(n / 10);
        let s = dec_bytes_of(n);
        assert(s == dec_bytes_of(n / 10).push((0x30 + n % 10) as u8));
        assert(s.drop_last() =~= dec_bytes_of(n / 10));
        assert(digits_val(s) == (n / 10) * 10 + n % 10);
        lemma_dec_no_leading_zero(n / 10);
        assert(s[0] == dec_bytes_of(n / 10)[0]);
    }
}

/// The parse of a rendered `i64` is the value itself.
pub proof fn lemma_parse_i64_round_trip(n: i64)
    ensures
        spec_parse_i64(dec_bytes_of_int(n as int)) == Some(n),
{
    if n >= 0 {
        lemma_dec_val_round_trip(n as nat);
        lemma_dec_bytes_ascii(n as nat);
        assert(dec_bytes_of_int(n as int) == dec_bytes_of(n as nat));
        assert(dec_bytes_of(n as nat)[0] != 0x2d);
    } else {
        let mag = (-(n as int)) as nat;
        lemma_dec_val_round_trip(mag);
        let s = dec_bytes_of_int(n as int);
        assert(s == seq![0x2du8] + dec_bytes_of(mag));
        assert(s.subrange(1, s.len() as int) =~= dec_bytes_of(mag));
    }
}

/// Powers of ten.
pub open spec fn pow10(k: nat) -> nat
    decreases k,
{
    if k == 0 {
        1
    } else {
        10 * pow10((k - 1) as nat)
    }
}

/// A canonical decimal of length `k` is at least `pow10(k - 1)`.
proof fn lemma_canonical_lower_bound(s: Seq<u8>)
    requires
        canonical_dec(s),
        s[0] != 0x30,
    ensures
        digits_val(s) >= pow10((s.len() - 1) as nat),
    decreases s.len(),
{
    if s.len() == 1 {
        assert(s.drop_last().len() == 0);
    } else {
        let d = s.drop_last();
        assert(d[0] == s[0]);
        lemma_canonical_lower_bound(d);
        assert(digits_val(s) == digits_val(d) * 10 + (s.last() - 0x30));
        assert(digits_val(d) * 10 >= pow10((d.len() - 1) as nat) * 10) by (nonlinear_arith)
            requires
                digits_val(d) >= pow10((d.len() - 1) as nat),
        ;
        assert(pow10((s.len() - 1) as nat) == 10 * pow10((d.len() - 1) as nat));
    }
}

/// Twenty canonical digits always exceed the `i64` range.
proof fn lemma_long_dec_out_of_range(s: Seq<u8>)
    requires
        canonical_dec(s),
        s.len() >= 20,
    ensures
        digits_val(s) > 0x8000_0000_0000_0000nat,
{
    assert(s[0] != 0x30);
    lemma_canonical_lower_bound(s);
    reveal_with_fuel(pow10, 21);
    assert(pow10(19) == 10_000_000_000_000_000_000nat);
    assert(pow10((s.len() - 1) as nat) >= pow10(19)) by {
        lemma_pow10_mono(19, (s.len() - 1) as nat);
    }
}

proof fn lemma_pow10_mono(a: nat, b: nat)
    requires
        a <= b,
    ensures
        pow10(a) <= pow10(b),
    decreases b,
{
    if a < b {
        lemma_pow10_mono(a, (b - 1) as nat);
        assert(pow10(b) == 10 * pow10((b - 1) as nat));
    }
}

/// Parse a signed decimal `i64` from ASCII bytes; accepts exactly canonical
/// spellings whose value fits.
pub fn parse_i64_bytes(s: &[u8]) -> (r: Option<i64>)
    ensures
        r == spec_parse_i64(s@),
{
    let negative: bool = s.len() > 0 && s[0] == 0x2d;
    let start: usize = if negative { 1 } else { 0 };
    let ghost d = if negative { s@.subrange(1, s@.len() as int) } else { s@ };
    if s.len() == start {
        return None;
    }
    if s.len() - start > 1 && s[start] == 0x30 {
        return None;
    }
    // Reject any non-digit before measuring length, so failures are reported
    // the same way the specification orders them.
    let mut i: usize = start;
    while i < s.len()
        invariant
            start <= i <= s.len(),
            start == (if negative { 1int } else { 0int }),
            negative == (s@.len() > 0 && s@[0] == 0x2d),
            d == (if negative { s@.subrange(1, s@.len() as int) } else { s@ }),
            forall|j: int| start <= j < i ==> 0x30 <= #[trigger] s@[j] <= 0x39,
        decreases s.len() - i,
    {
        let b = s[i];
        if b < 0x30 || b > 0x39 {
            proof {
                assert(d[i - start] == s@[i as int]);
                assert(!all_digits(d));
            }
            return None;
        }
        i = i + 1;
    }
    proof {
        assert(all_digits(d));
        assert(canonical_dec(d));
    }
    if s.len() - start >= 20 {
        proof {
            lemma_long_dec_out_of_range(d);
        }
        return None;
    }
    // At most 19 digits: the value is below 10^19, which fits in a u64.
    let mut acc: u64 = 0;
    let mut i: usize = start;
    while i < s.len()
        invariant
            start <= i <= s.len(),
            s@.len() - start <= 19,
            canonical_dec(d),
            d == (if negative {
                s@.subrange(1, s@.len() as int)
            } else {
                s@
            }),
            start == (if negative { 1int } else { 0int }),
            acc as nat == digits_val(d.take(i - start)),
            acc as nat <= pow10((i - start) as nat) - 1,
        decreases s.len() - i,
    {
        let b = s[i];
        proof {
            assert(0x30 <= d[i - start] <= 0x39);
            assert(b == d[i - start]);
            let k = (i - start) as nat;
            lemma_pow10_mono(k + 1, 19);
            reveal_with_fuel(pow10, 21);
            assert(pow10(19) == 10_000_000_000_000_000_000nat);
            assert((acc as nat) * 10 <= (pow10(k) - 1) * 10) by (nonlinear_arith)
                requires
                    acc as nat <= pow10(k) - 1,
            ;
            assert(pow10(k + 1) == 10 * pow10(k));
        }
        acc = acc * 10 + ((b - 0x30) as u64);
        i = i + 1;
        proof {
            assert(d.take(i - start).drop_last() =~= d.take(i - start - 1));
            assert(d.take(i - start).last() == d[i - start - 1]);
        }
    }
    proof {
        assert(d.take(d.len() as int) =~= d);
    }
    if negative {
        if acc == 0 {
            return None;
        }
        if acc > 0x8000_0000_0000_0000u64 {
            proof {
                assert(digits_val(d) > 0x8000_0000_0000_0000nat);
            }
            return None;
        }
        if acc == 0x8000_0000_0000_0000u64 {
            Some(i64::MIN)
        } else {
            Some(-(acc as i64))
        }
    } else {
        if acc > i64::MAX as u64 {
            return None;
        }
        Some(acc as i64)
    }
}

} // verus!
