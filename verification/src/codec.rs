//! Byte-level encodings used on the wire and in the pairing key: big-endian
//! integers and unsigned decimal numerals.

use vstd::prelude::*;
use vstd::utf8::{
    decode_utf8, is_char_boundary_iff_not_is_continuation_byte, length_of_first_scalar, pop_first_scalar,
    valid_utf8, valid_utf8_concat, valid_utf8_split,
};

verus! {

/// `256` to the power `n`.
pub open spec fn pow256(n: nat) -> nat
    decreases n,
{
    if n == 0 {
        1
    } else {
        256 * pow256((n - 1) as nat)
    }
}

/// The number that the bytes `s` denote, most significant byte first.
pub open spec fn be_to_nat(s: Seq<u8>) -> nat
    decreases s.len(),
{
    if s.len() == 0 {
        0
    } else {
        be_to_nat(s.drop_last()) * 256 + s.last() as nat
    }
}

/// The `len` lowest bytes of `n`, most significant first.
pub open spec fn nat_to_be(n: nat, len: nat) -> Seq<u8>
    decreases len,
{
    if len == 0 {
        seq![]
    } else {
        nat_to_be(n / 256, (len - 1) as nat).push((n % 256) as u8)
    }
}

/// The four bytes of `x`, most significant first (`u32::to_be_bytes`).
pub open spec fn u32_be(x: u32) -> Seq<u8> {
    nat_to_be(x as nat, 4)
}

/// The sixteen bytes of `x`, most significant first (`u128::to_be_bytes`).
pub open spec fn u128_be(x: u128) -> Seq<u8> {
    nat_to_be(x as nat, 16)
}

pub proof fn lemma_pow256_positive(n: nat)
    ensures
        pow256(n) > 0,
    decreases n,
{
    if n > 0 {
        lemma_pow256_positive((n - 1) as nat);
    }
}

pub proof fn lemma_pow256_monotonic(m: nat, n: nat)
    requires
        m <= n,
    ensures
        pow256(m) <= pow256(n),
    decreases n,
{
    if m < n {
        lemma_pow256_monotonic(m, (n - 1) as nat);
        lemma_pow256_positive((n - 1) as nat);
    }
}

pub proof fn lemma_pow256_values()
    ensures
        pow256(4) == 0x1_0000_0000,
        pow256(16) == 0x1_0000_0000_0000_0000_0000_0000_0000_0000,
{
    reveal_with_fuel(pow256, 17);
}

/// The number that `len` bytes denote is below `256^len`.
pub proof fn lemma_be_to_nat_bound(s: Seq<u8>)
    ensures
        be_to_nat(s) < pow256(s.len()),
    decreases s.len(),
{
    if s.len() > 0 {
        let p = s.drop_last();
        lemma_be_to_nat_bound(p);
        let a = be_to_nat(p);
        let q = pow256(p.len());
        let b = s.last() as nat;
        assert(a * 256 + b < q * 256) by (nonlinear_arith)
            requires
                a < q,
                b < 256,
        ;
    }
}

/// Encoding the lowest `len` bytes of a number and reading them back gives
/// the number modulo `256^len`.
pub proof fn lemma_be_roundtrip_value(n: nat, len: nat)
    ensures
        be_to_nat(nat_to_be(n, len)) == n % pow256(len),
        nat_to_be(n, len).len() == len,
    decreases len,
{
    if len == 0 {
    } else {
        let m = (len - 1) as nat;
        lemma_be_roundtrip_value(n / 256, m);
        let s = nat_to_be(n, len);
        assert(s.drop_last() =~= nat_to_be(n / 256, m));
        lemma_pow256_positive(m);
        let q = pow256(m);
        // n = 256 * (n / 256) + n % 256, and (n / 256) % q carries the upper bytes.
        assert((n / 256) % q * 256 + n % 256 == n % (256 * q)) by (nonlinear_arith)
            requires
                q > 0,
        {
            vstd::arithmetic::div_mod::lemma_fundamental_div_mod(n as int, 256);
            vstd::arithmetic::div_mod::lemma_fundamental_div_mod((n / 256) as int, q as int);
            vstd::arithmetic::div_mod::lemma_mod_mod(n as int, 256, q as int);
            vstd::arithmetic::div_mod::lemma_breakdown(n as int, 256, q as int);
        }
    }
}

/// Reading bytes as a number and encoding the number again gives the bytes back.
pub proof fn lemma_be_roundtrip_bytes(s: Seq<u8>)
    ensures
        nat_to_be(be_to_nat(s), s.len()) == s,
    decreases s.len(),
{
    if s.len() > 0 {
        let p = s.drop_last();
        lemma_be_roundtrip_bytes(p);
        let n = be_to_nat(s);
        let a = be_to_nat(p);
        let b = s.last() as nat;
        assert(n / 256 == a && n % 256 == b) by (nonlinear_arith)
            requires
                n == a * 256 + b,
                b < 256,
        ;
        assert(nat_to_be(n, s.len()) =~= s);
    }
}

/// The big-endian bytes of `value`, `len` of them (`len` at most 16).
pub fn be_bytes(value: u128, len: usize) -> (bytes: Vec<u8>)
    requires
        len <= 16,
    ensures
        bytes@ == nat_to_be(value as nat, len as nat),
    decreases len,
{
    if len == 0 {
        Vec::new()
    } else {
        let mut bytes = be_bytes(value / 256, len - 1);
        bytes.push((value % 256) as u8);
        bytes
    }
}

/// The number that `bytes` denote, most significant byte first (at most 16 bytes).
pub fn be_value(bytes: &[u8]) -> (value: u128)
    requires
        bytes@.len() <= 16,
    ensures
        value as nat == be_to_nat(bytes@),
{
    let mut value: u128 = 0;
    let mut i: usize = 0;
    proof {
        assert(bytes@.take(0) =~= Seq::<u8>::empty());
        lemma_pow256_values();
    }
    while i < bytes.len()
        invariant
            i <= bytes@.len() <= 16,
            value as nat == be_to_nat(bytes@.take(i as int)),
            pow256(16) == 0x1_0000_0000_0000_0000_0000_0000_0000_0000,
        decreases bytes@.len() - i,
    {
        let ghost prefix = bytes@.take(i as int + 1);
        proof {
            assert(prefix.drop_last() =~= bytes@.take(i as int));
            lemma_be_to_nat_bound(prefix);
            lemma_pow256_monotonic(prefix.len(), 16);
        }
        value = value * 256 + bytes[i] as u128;
        i = i + 1;
    }
    proof {
        assert(bytes@.take(i as int) =~= bytes@);
    }
    value
}

/// `u32::to_be_bytes`, as a vector.
pub fn u32_to_be_bytes(x: u32) -> (bytes: Vec<u8>)
    ensures
        bytes@ == u32_be(x),
        bytes@.len() == 4,
{
    proof {
        lemma_be_roundtrip_value(x as nat, 4);
    }
    be_bytes(x as u128, 4)
}

/// `u32::from_be_bytes` of four bytes.
pub fn u32_from_be_bytes(bytes: &[u8]) -> (x: u32)
    requires
        bytes@.len() == 4,
    ensures
        x as nat == be_to_nat(bytes@),
        u32_be(x) == bytes@,
{
    proof {
        lemma_be_to_nat_bound(bytes@);
        lemma_pow256_values();
        lemma_be_roundtrip_bytes(bytes@);
    }
    be_value(bytes) as u32
}

/// `u128::to_be_bytes`, as a vector.
pub fn u128_to_be_bytes(x: u128) -> (bytes: Vec<u8>)
    ensures
        bytes@ == u128_be(x),
        bytes@.len() == 16,
{
    proof {
        lemma_be_roundtrip_value(x as nat, 16);
    }
    be_bytes(x, 16)
}

/// `u128::from_be_bytes` of sixteen bytes.
pub fn u128_from_be_bytes(bytes: &[u8]) -> (x: u128)
    requires
        bytes@.len() == 16,
    ensures
        x as nat == be_to_nat(bytes@),
        u128_be(x) == bytes@,
{
    proof {
        lemma_be_roundtrip_bytes(bytes@);
    }
    be_value(bytes)
}

/// Law: the four big-endian bytes of a `u32` read back as that `u32`.
pub proof fn law_u32_be_roundtrip(x: u32)
    ensures
        u32_be(x).len() == 4,
        be_to_nat(u32_be(x)) == x as nat,
{
    lemma_be_roundtrip_value(x as nat, 4);
    lemma_pow256_values();
}

/// Law: the sixteen big-endian bytes of a `u128` read back as that `u128`.
pub proof fn law_u128_be_roundtrip(x: u128)
    ensures
        u128_be(x).len() == 16,
        be_to_nat(u128_be(x)) == x as nat,
{
    lemma_be_roundtrip_value(x as nat, 16);
    lemma_pow256_values();
}

/// Whether `b` is an ASCII decimal digit.
pub open spec fn is_digit(b: u8) -> bool {
    0x30 <= b <= 0x39
}

/// Whether every byte of `s` is an ASCII decimal digit.
pub open spec fn all_digits(s: Seq<u8>) -> bool {
    forall|i: int| 0 <= i < s.len() ==> is_digit(#[trigger] s[i])
}

/// The number that the decimal digits `s` denote.
pub open spec fn digits_value(s: Seq<u8>) -> nat
    decreases s.len(),
{
    if s.len() == 0 {
        0
    } else {
        digits_value(s.drop_last()) * 10 + (s.last() - 0x30) as nat
    }
}

/// The digits of unsigned decimal text: the text less a leading `+`.
pub open spec fn unsigned_digits(s: Seq<u8>) -> Seq<u8> {
    if s.len() > 0 && s[0] == 0x2b {
        s.skip(1)
    } else {
        s
    }
}

/// What `FromStr` of an unsigned integer type whose largest value is `max`
/// makes of the text `s`: an optional `+`, then one or more ASCII digits
/// denoting a number no larger than `max`.
pub open spec fn parse_unsigned_spec(s: Seq<u8>, max: nat) -> Option<nat> {
    let digits = unsigned_digits(s);
    if digits.len() == 0 || !all_digits(digits) || digits_value(digits) > max {
        None
    } else {
        Some(digits_value(digits))
    }
}

/// The shortest decimal numeral of `n`.
pub open spec fn decimal(n: nat) -> Seq<u8>
    decreases n,
{
    if n < 10 {
        seq![(0x30 + n) as u8]
    } else {
        decimal(n / 10).push((0x30 + n % 10) as u8)
    }
}

proof fn lemma_digits_value_grows(s: Seq<u8>, i: int)
    requires
        0 <= i <= s.len(),
        all_digits(s),
    ensures
        digits_value(s.take(i)) <= digits_value(s),
    decreases s.len() - i,
{
    if i < s.len() {
        let t = s.take(i + 1);
        assert(t.drop_last() =~= s.take(i));
        lemma_digits_value_grows(s, i + 1);
    } else {
        assert(s.take(i) =~= s);
    }
}

/// Parses unsigned decimal text the way `FromStr` does for an unsigned integer
/// type whose largest value is `max`: `None` where that gives an error.
pub fn parse_unsigned(s: &[u8], max: u128) -> (r: Option<u128>)
    ensures
        r matches Some(v) ==> parse_unsigned_spec(s@, max as nat) == Some(v as nat),
        r is None ==> parse_unsigned_spec(s@, max as nat) is None,
{
    let start: usize = if s.len() > 0 && s[0] == 0x2b {
        1
    } else {
        0
    };
    let ghost digits = unsigned_digits(s@);
    if start == s.len() {
        return None;
    }
    let mut value: u128 = 0;
    let mut i: usize = start;
    proof {
        assert(digits.take(0) =~= Seq::<u8>::empty());
        assert(digits =~= s@.skip(start as int));
    }
    while i < s.len()
        invariant
            start <= i <= s@.len(),
            digits == s@.skip(start as int),
            digits == unsigned_digits(s@),
            value as nat == digits_value(digits.take(i - start)),
            value <= max,
            all_digits(digits.take(i - start)),
        decreases s@.len() - i,
    {
        let b = s[i];
        let ghost k = i - start;
        proof {
            assert(digits[k] == b);
        }
        if b < 0x30 || b > 0x39 {
            proof {
                assert(!is_digit(digits[k]));
            }
            return None;
        }
        let d = (b - 0x30) as u128;
        if d > max || value > (max - d) / 10 {
            proof {
                let t = digits.take(k + 1);
                assert(t.drop_last() =~= digits.take(k));
                assert(value * 10 + d > max) by (nonlinear_arith)
                    requires
                        d > max || value > (max - d) / 10,
                        value >= 0,
                ;
                if all_digits(digits) {
                    lemma_digits_value_grows(digits, k + 1);
                }
            }
            return None;
        }
        proof {
            assert(value * 10 + d <= max) by (nonlinear_arith)
                requires
                    value <= (max - d) / 10,
                    d <= max,
            ;
            let t = digits.take(k + 1);
            assert(t.drop_last() =~= digits.take(k));
            assert(all_digits(t)) by {
                assert forall|j: int| 0 <= j < t.len() implies is_digit(#[trigger] t[j]) by {
                    if j < k {
                        assert(t[j] == digits.take(k)[j]);
                    }
                }
            }
        }
        value = value * 10 + d;
        i = i + 1;
    }
    proof {
        assert(digits.take(i - start) =~= digits);
    }
    Some(value)
}

/// The shortest decimal numeral of `n`, as ASCII bytes.
pub fn format_decimal(n: u128) -> (text: Vec<u8>)
    ensures
        text@ == decimal(n as nat),
    decreases n,
{
    if n < 10 {
        let mut text = Vec::new();
        text.push((0x30 + n) as u8);
        proof {
            assert(text@ =~= decimal(n as nat));
        }
        text
    } else {
        let mut text = format_decimal(n / 10);
        text.push((0x30 + n % 10) as u8);
        text
    }
}

pub proof fn lemma_decimal_digits(n: nat)
    ensures
        decimal(n).len() > 0,
        all_digits(decimal(n)),
        digits_value(decimal(n)) == n,
    decreases n,
{
    if n < 10 {
        let s = decimal(n);
        assert(s.drop_last() =~= Seq::<u8>::empty());
        assert(s.last() == (0x30 + n) as u8);
        assert(s.last() - 0x30 == n);
        assert(digits_value(s) == digits_value(s.drop_last()) * 10 + (s.last() - 0x30) as nat);
    } else {
        lemma_decimal_digits(n / 10);
        assert((n / 10) * 10 + n % 10 == n) by (nonlinear_arith);
        let s = decimal(n);
        assert(s.last() == (0x30 + n % 10) as u8);
        assert((s.last() - 0x30) as nat == n % 10);
        assert(s.drop_last() =~= decimal(n / 10));
        assert(digits_value(s.drop_last()) == n / 10);
        assert(digits_value(s) == digits_value(s.drop_last()) * 10 + (s.last() - 0x30) as nat);
        let a = digits_value(s.drop_last());
        let b = (s.last() - 0x30) as nat;
        assert(a * 10 + b == n) by (nonlinear_arith)
            requires
                a == n / 10,
                b == n % 10,
        ;
        assert(s.drop_last() =~= decimal(n / 10));
        assert forall|i: int| 0 <= i < s.len() implies is_digit(#[trigger] s[i]) by {
            if i < s.len() - 1 {
                assert(s[i] == decimal(n / 10)[i]);
            }
        }
    }
}

/// Law: the decimal numeral of a number no larger than `max` parses back to
/// that number.
pub proof fn law_decimal_roundtrip(n: nat, max: nat)
    requires
        n <= max,
    ensures
        parse_unsigned_spec(decimal(n), max) == Some(n),
{
    lemma_decimal_digits(n);
}

/// The error of `String::from_utf8`.
#[verifier::external_type_specification]
#[verifier::external_body]
pub struct ExFromUtf8Error(std::string::FromUtf8Error);

/// Calls `String::from_utf8`.
///
/// Trusted: as std documents, the bytes become a `String` exactly when they are
/// valid UTF-8, and the string then holds the characters they encode.
#[verifier::external_body]
pub(crate) fn string_from_utf8(bytes: Vec<u8>) -> (r: Result<String, std::string::FromUtf8Error>)
    ensures
        r is Ok <==> valid_utf8(bytes@),
        r matches Ok(s) ==> s@ == decode_utf8(bytes@),
{
    String::from_utf8(bytes)
}

/// In valid UTF-8, an ASCII byte at `k` splits the text into valid UTF-8 on
/// both of its sides.
pub proof fn lemma_valid_utf8_around_ascii(b: Seq<u8>, k: int)
    requires
        valid_utf8(b),
        0 <= k < b.len(),
        b[k] < 0x80,
    ensures
        valid_utf8(b.take(k)),
        valid_utf8(b.take(k + 1)),
        valid_utf8(b.skip(k + 1)),
{
    is_char_boundary_iff_not_is_continuation_byte(b, k);
    valid_utf8_split(b, k);
    let s = b.subrange(k, b.len() as int);
    assert(s[0] == b[k]);
    assert(length_of_first_scalar(s) == 1);
    assert(pop_first_scalar(s) =~= b.skip(k + 1));
    assert(b.take(k) =~= b.subrange(0, k));
    let one = seq![b[k]];
    assert(length_of_first_scalar(one) == 1);
    assert(pop_first_scalar(one) =~= Seq::<u8>::empty());
    assert(valid_utf8(one)) by {
        reveal_with_fuel(valid_utf8, 2);
    }
    valid_utf8_concat(b.take(k), one);
    assert(b.take(k) + one =~= b.take(k + 1));
}

} // verus!
