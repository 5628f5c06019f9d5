//! Arbitrary-precision integers held as plain sign-and-magnitude values.
//!
//! Every arithmetic operation is computed by `num_bigint`; the library only
//! converts between its plain representation and `num_bigint::BigInt`.

use vstd::prelude::*;

use num_bigint::{BigInt, Sign};

verus! {

/// Value of little-endian base 2^32 digits.
pub open spec fn digits_value(s: Seq<u32>) -> nat
    decreases s.len(),
{
    if s.len() == 0 {
        0
    } else {
        s[0] as nat + 4294967296 * digits_value(s.drop_first())
    }
}

/// An exact integer: a sign and little-endian base 2^32 magnitude digits.
#[derive(Debug)]
pub struct BigNum {
    pub negative: bool,
    pub magnitude: Vec<u32>,
}

impl BigNum {
    pub open spec fn value(&self) -> int {
        if self.negative {
            -(digits_value(self.magnitude@) as int)
        } else {
            digits_value(self.magnitude@) as int
        }
    }

    /// Canonical form: no high zero digit, and zero is never negative.
    pub open spec fn wf(&self) -> bool {
        &&& self.magnitude@.len() > 0 ==> self.magnitude@.last() != 0
        &&& self.magnitude@.len() == 0 ==> !self.negative
    }
}

/// The character of a decimal digit.
pub open spec fn digit_char(d: nat) -> char {
    if d == 0 { '0' }
    else if d == 1 { '1' }
    else if d == 2 { '2' }
    else if d == 3 { '3' }
    else if d == 4 { '4' }
    else if d == 5 { '5' }
    else if d == 6 { '6' }
    else if d == 7 { '7' }
    else if d == 8 { '8' }
    else { '9' }
}

/// Decimal spelling of a natural number, without leading zeros.
pub open spec fn nat_spelling(n: nat) -> Seq<char>
    decreases n,
{
    if n < 10 {
        seq![digit_char(n)]
    } else {
        nat_spelling(n / 10).push(digit_char(n % 10))
    }
}

/// Decimal spelling of an integer, as `Display` writes it.
pub open spec fn int_spelling(v: int) -> Seq<char> {
    if v < 0 {
        seq!['-'] + nat_spelling((-v) as nat)
    } else {
        nat_spelling(v as nat)
    }
}

/// The value of an ASCII digit or letter as a digit of any radix up to 36
/// (letters of either case stand for 10 to 35); 255 for any other byte.
pub open spec fn radix_digit(b: u8) -> int {
    if 48 <= b <= 57 {
        b - 48
    } else if 97 <= b <= 122 {
        b - 97 + 10
    } else if 65 <= b <= 90 {
        b - 65 + 10
    } else {
        255
    }
}

/// Every byte is an underscore or a digit below `radix`.
pub open spec fn radix_digits_only(s: Seq<u8>, radix: int) -> bool {
    forall|i: int| 0 <= i < s.len() ==> (s[i] == 95 || radix_digit(#[trigger] s[i]) < radix)
}

/// Value of digits in `radix`, skipping underscores.
pub open spec fn radix_value(s: Seq<u8>, radix: int) -> int
    decreases s.len(),
{
    if s.len() == 0 {
        0
    } else if s.last() == 95 {
        radix_value(s.drop_last(), radix)
    } else {
        radix_value(s.drop_last(), radix) * radix + radix_digit(s.last())
    }
}

/// Whether `BigInt::parse_bytes` reads a leading minus sign.
pub open spec fn parse_negative(s: Seq<u8>) -> bool {
    s.len() > 0 && s[0] == 45
}

/// The part of the spelling that `BigInt::parse_bytes` reads as a magnitude.
pub open spec fn parse_magnitude(s: Seq<u8>) -> Seq<u8> {
    let rest = if parse_negative(s) && !(s.len() > 1 && s[1] == 43) {
        s.skip(1)
    } else {
        s
    };
    if rest.len() > 0 && rest[0] == 43 && !(rest.len() > 1 && rest[1] == 43) {
        rest.skip(1)
    } else {
        rest
    }
}

/// The spellings that `BigInt::parse_bytes` accepts in `radix`.
pub open spec fn parse_accepts(s: Seq<u8>, radix: int) -> bool {
    let body = parse_magnitude(s);
    &&& body.len() > 0
    &&& body[0] != 95
    &&& radix_digits_only(body, radix)
}

/// The value that `BigInt::parse_bytes` reads from an accepted spelling.
pub open spec fn parse_value(s: Seq<u8>, radix: int) -> int {
    let magnitude = radix_value(parse_magnitude(s), radix);
    if parse_negative(s) { -magnitude } else { magnitude }
}

/// Integer division that rounds toward zero, as Rust's `/` on `BigInt`.
pub open spec fn trunc_div(a: int, b: int) -> int {
    let q = (if a < 0 { -a } else { a }) / (if b < 0 { -b } else { b });
    if (a < 0) != (b < 0) { -q } else { q }
}

/// Remainder with the sign of the dividend, as Rust's `%` on `BigInt`.
pub open spec fn trunc_rem(a: int, b: int) -> int {
    a - b * trunc_div(a, b)
}

/// Infinite two's-complement bitwise operation on one bit pair:
/// 0 is and, 1 is or, 2 is xor.
pub open spec fn bit_op(op: int, x: int, y: int) -> int {
    if op == 0 {
        if x == 1 && y == 1 { 1 } else { 0 }
    } else if op == 1 {
        if x == 1 || y == 1 { 1 } else { 0 }
    } else {
        if x != y { 1 } else { 0 }
    }
}

pub open spec fn abs(v: int) -> int {
    if v < 0 { -v } else { v }
}

/// Two's-complement bitwise and/or/xor of two integers of unbounded width.
pub open spec fn bitwise(op: int, a: int, b: int) -> int
    decreases abs(a) + abs(b),
{
    if (a == 0 || a == -1) && (b == 0 || b == -1) {
        -bit_op(op, if a == -1 { 1 } else { 0 }, if b == -1 { 1 } else { 0 })
    } else {
        if abs(a / 2) + abs(b / 2) < abs(a) + abs(b) {
            2 * bitwise(op, a / 2, b / 2) + bit_op(op, a % 2, b % 2)
        } else {
            0
        }
    }
}

pub open spec fn pow2(n: nat) -> int
    decreases n,
{
    if n == 0 { 1 } else { 2 * pow2((n - 1) as nat) }
}

/// `BigInt::parse_bytes`: reads an optionally signed magnitude in `radix`,
/// with underscores allowed after the first digit, into a canonical value.
#[verifier::external_body]
pub fn parse_big(digits: &[u8], radix: u32) -> (r: Option<BigNum>)
    requires
        2 <= radix <= 36,
    ensures
        r is Some <==> parse_accepts(digits@, radix as int),
        r matches Some(n) ==> n.wf() && n.value() == parse_value(digits@, radix as int),
{
    match BigInt::parse_bytes(digits, radix) {
        Some(n) => {
            let (sign, magnitude) = n.to_u32_digits();
            Some(BigNum { negative: matches!(sign, Sign::Minus), magnitude })
        },
        None => None,
    }
}

/// `BigInt`'s `to_string`: the decimal spelling of the value.
#[verifier::external_body]
pub fn big_to_decimal(n: &BigNum) -> (r: String)
    ensures
        r@ == int_spelling(n.value()),
{
    BigInt::from_slice(if n.negative { Sign::Minus } else { Sign::Plus }, &n.magnitude).to_string()
}

/// `BigInt::from(u64)`.
#[verifier::external_body]
pub fn big_from_u64(v: u64) -> (r: BigNum)
    ensures
        r.wf(),
        r.value() == v as int,
{
    let (sign, magnitude) = BigInt::from(v).to_u32_digits();
    BigNum { negative: matches!(sign, Sign::Minus), magnitude }
}

/// `BigInt` addition.
#[verifier::external_body]
pub fn big_add(a: &BigNum, b: &BigNum) -> (r: BigNum)
    ensures
        r.wf(),
        r.value() == a.value() + b.value(),
{
    let x = BigInt::from_slice(if a.negative { Sign::Minus } else { Sign::Plus }, &a.magnitude);
    let y = BigInt::from_slice(if b.negative { Sign::Minus } else { Sign::Plus }, &b.magnitude);
    let (sign, magnitude) = (x + y).to_u32_digits();
    BigNum { negative: matches!(sign, Sign::Minus), magnitude }
}

/// `BigInt` subtraction.
#[verifier::external_body]
pub fn big_sub(a: &BigNum, b: &BigNum) -> (r: BigNum)
    ensures
        r.wf(),
        r.value() == a.value() - b.value(),
{
    let x = BigInt::from_slice(if a.negative { Sign::Minus } else { Sign::Plus }, &a.magnitude);
    let y = BigInt::from_slice(if b.negative { Sign::Minus } else { Sign::Plus }, &b.magnitude);
    let (sign, magnitude) = (x - y).to_u32_digits();
    BigNum { negative: matches!(sign, Sign::Minus), magnitude }
}

/// `BigInt` multiplication.
#[verifier::external_body]
pub fn big_mul(a: &BigNum, b: &BigNum) -> (r: BigNum)
    ensures
        r.wf(),
        r.value() == a.value() * b.value(),
{
    let x = BigInt::from_slice(if a.negative { Sign::Minus } else { Sign::Plus }, &a.magnitude);
    let y = BigInt::from_slice(if b.negative { Sign::Minus } else { Sign::Plus }, &b.magnitude);
    let (sign, magnitude) = (x * y).to_u32_digits();
    BigNum { negative: matches!(sign, Sign::Minus), magnitude }
}

/// `BigInt` division, rounding toward zero; it panics on a zero divisor.
#[verifier::external_body]
pub fn big_div(a: &BigNum, b: &BigNum) -> (r: BigNum)
    requires
        b.value() != 0,
    ensures
        r.wf(),
        r.value() == trunc_div(a.value(), b.value()),
{
    let x = BigInt::from_slice(if a.negative { Sign::Minus } else { Sign::Plus }, &a.magnitude);
    let y = BigInt::from_slice(if b.negative { Sign::Minus } else { Sign::Plus }, &b.magnitude);
    let (sign, magnitude) = (x / y).to_u32_digits();
    BigNum { negative: matches!(sign, Sign::Minus), magnitude }
}

/// `BigInt` remainder, with the sign of the dividend; it panics on a zero divisor.
#[verifier::external_body]
pub fn big_rem(a: &BigNum, b: &BigNum) -> (r: BigNum)
    requires
        b.value() != 0,
    ensures
        r.wf(),
        r.value() == trunc_rem(a.value(), b.value()),
{
    let x = BigInt::from_slice(if a.negative { Sign::Minus } else { Sign::Plus }, &a.magnitude);
    let y = BigInt::from_slice(if b.negative { Sign::Minus } else { Sign::Plus }, &b.magnitude);
    let (sign, magnitude) = (x % y).to_u32_digits();
    BigNum { negative: matches!(sign, Sign::Minus), magnitude }
}

/// `BigInt` negation.
#[verifier::external_body]
pub fn big_neg(a: &BigNum) -> (r: BigNum)
    ensures
        r.wf(),
        r.value() == -a.value(),
{
    let x = BigInt::from_slice(if a.negative { Sign::Minus } else { Sign::Plus }, &a.magnitude);
    let (sign, magnitude) = (-x).to_u32_digits();
    BigNum { negative: matches!(sign, Sign::Minus), magnitude }
}

/// `BigInt`'s `!`: the two's-complement complement, `-a - 1`.
#[verifier::external_body]
pub fn big_not(a: &BigNum) -> (r: BigNum)
    ensures
        r.wf(),
        r.value() == -a.value() - 1,
{
    let x = BigInt::from_slice(if a.negative { Sign::Minus } else { Sign::Plus }, &a.magnitude);
    let (sign, magnitude) = (!x).to_u32_digits();
    BigNum { negative: matches!(sign, Sign::Minus), magnitude }
}

/// `BigInt`'s `&`, in two's complement of unbounded width.
#[verifier::external_body]
pub fn big_and(a: &BigNum, b: &BigNum) -> (r: BigNum)
    ensures
        r.wf(),
        r.value() == bitwise(0, a.value(), b.value()),
{
    let x = BigInt::from_slice(if a.negative { Sign::Minus } else { Sign::Plus }, &a.magnitude);
    let y = BigInt::from_slice(if b.negative { Sign::Minus } else { Sign::Plus }, &b.magnitude);
    let (sign, magnitude) = (x & y).to_u32_digits();
    BigNum { negative: matches!(sign, Sign::Minus), magnitude }
}

/// `BigInt`'s `|`, in two's complement of unbounded width.
#[verifier::external_body]
pub fn big_or(a: &BigNum, b: &BigNum) -> (r: BigNum)
    ensures
        r.wf(),
        r.value() == bitwise(1, a.value(), b.value()),
{
    let x = BigInt::from_slice(if a.negative { Sign::Minus } else { Sign::Plus }, &a.magnitude);
    let y = BigInt::from_slice(if b.negative { Sign::Minus } else { Sign::Plus }, &b.magnitude);
    let (sign, magnitude) = (x | y).to_u32_digits();
    BigNum { negative: matches!(sign, Sign::Minus), magnitude }
}

/// `BigInt`'s `^`, in two's complement of unbounded width.
#[verifier::external_body]
pub fn big_xor(a: &BigNum, b: &BigNum) -> (r: BigNum)
    ensures
        r.wf(),
        r.value() == bitwise(2, a.value(), b.value()),
{
    let x = BigInt::from_slice(if a.negative { Sign::Minus } else { Sign::Plus }, &a.magnitude);
    let y = BigInt::from_slice(if b.negative { Sign::Minus } else { Sign::Plus }, &b.magnitude);
    let (sign, magnitude) = (x ^ y).to_u32_digits();
    BigNum { negative: matches!(sign, Sign::Minus), magnitude }
}

/// `BigInt`'s `<<` by a `usize` count: multiplication by a power of two.
#[verifier::external_body]
pub fn big_shl(a: &BigNum, count: usize) -> (r: BigNum)
    ensures
        r.wf(),
        r.value() == a.value() * pow2(count as nat),
{
    let x = BigInt::from_slice(if a.negative { Sign::Minus } else { Sign::Plus }, &a.magnitude);
    let (sign, magnitude) = (x << count).to_u32_digits();
    BigNum { negative: matches!(sign, Sign::Minus), magnitude }
}

/// `BigInt`'s `>>` by a `usize` count: division by a power of two, rounding
/// toward negative infinity.
#[verifier::external_body]
pub fn big_shr(a: &BigNum, count: usize) -> (r: BigNum)
    ensures
        r.wf(),
        r.value() == a.value() / pow2(count as nat),
{
    let x = BigInt::from_slice(if a.negative { Sign::Minus } else { Sign::Plus }, &a.magnitude);
    let (sign, magnitude) = (x >> count).to_u32_digits();
    BigNum { negative: matches!(sign, Sign::Minus), magnitude }
}

/// `BigInt`'s `<`.
#[verifier::external_body]
pub fn big_lt(a: &BigNum, b: &BigNum) -> (r: bool)
    ensures
        r == (a.value() < b.value()),
{
    let x = BigInt::from_slice(if a.negative { Sign::Minus } else { Sign::Plus }, &a.magnitude);
    let y = BigInt::from_slice(if b.negative { Sign::Minus } else { Sign::Plus }, &b.magnitude);
    x < y
}

/// `BigInt`'s `==`.
#[verifier::external_body]
pub fn big_eq(a: &BigNum, b: &BigNum) -> (r: bool)
    ensures
        r == (a.value() == b.value()),
{
    let x = BigInt::from_slice(if a.negative { Sign::Minus } else { Sign::Plus }, &a.magnitude);
    let y = BigInt::from_slice(if b.negative { Sign::Minus } else { Sign::Plus }, &b.magnitude);
    x == y
}

/// `num_traits::Zero::is_zero` on a `BigInt`.
#[verifier::external_body]
pub fn big_is_zero(a: &BigNum) -> (r: bool)
    ensures
        r == (a.value() == 0),
{
    num_traits::Zero::is_zero(
        &BigInt::from_slice(if a.negative { Sign::Minus } else { Sign::Plus }, &a.magnitude),
    )
}

/// `num_traits::ToPrimitive::to_usize` on a `BigInt`: the value when it fits.
#[verifier::external_body]
pub fn big_to_usize(a: &BigNum) -> (r: Option<usize>)
    ensures
        r is Some <==> 0 <= a.value() <= usize::MAX,
        r matches Some(v) ==> v as int == a.value(),
{
    num_traits::ToPrimitive::to_usize(
        &BigInt::from_slice(if a.negative { Sign::Minus } else { Sign::Plus }, &a.magnitude),
    )
}

/// `BigInt::pow`: the value raised to a `u32` power.
#[verifier::external_body]
pub fn big_pow(a: &BigNum, exponent: u32) -> (r: BigNum)
    ensures
        r.wf(),
        r.value() == vstd::arithmetic::power::pow(a.value(), exponent as nat),
{
    let x = BigInt::from_slice(if a.negative { Sign::Minus } else { Sign::Plus }, &a.magnitude);
    let (sign, magnitude) = x.pow(exponent).to_u32_digits();
    BigNum { negative: matches!(sign, Sign::Minus), magnitude }
}

} // verus!
