//! Arbitrary-precision numbers.
//!
//! A number is held as plain little-endian bytes, so that its mathematical
//! value is an ordinary function of its representation. All arithmetic is
//! carried out by `num_bigint`; the functions that call it are trusted, and
//! each states the mathematical result of the call.

use num_bigint::{BigInt, BigUint, Sign};
use num_traits::{CheckedDiv, Num, Signed, ToPrimitive, Zero};
use vstd::arithmetic::power::pow;
use vstd::prelude::*;

verus! {

/// The value of a little-endian sequence of base-256 digits.
pub open spec fn le_value(bytes: Seq<u8>) -> nat
    decreases bytes.len(),
{
    if bytes.len() == 0 {
        0
    } else {
        bytes[0] as nat + 256 * le_value(bytes.skip(1))
    }
}

/// The value of a little-endian two's-complement sequence of bytes.
pub open spec fn twos_complement_value(bytes: Seq<u8>) -> int {
    if bytes.len() > 0 && bytes.last() >= 128 {
        le_value(bytes) - pow(256, bytes.len())
    } else {
        le_value(bytes) as int
    }
}

/// A non-negative integer of any size.
#[derive(Debug, PartialEq, Eq)]
pub struct Natural {
    bytes: Vec<u8>,
}

/// An integer of any size.
#[derive(Debug, PartialEq, Eq)]
pub struct Integer {
    bytes: Vec<u8>,
}

impl View for Natural {
    type V = nat;

    closed spec fn view(&self) -> nat {
        le_value(self.bytes@)
    }
}

impl View for Integer {
    type V = int;

    closed spec fn view(&self) -> int {
        twos_complement_value(self.bytes@)
    }
}

/// Division that rounds toward zero.
pub open spec fn truncating_div(a: int, b: int) -> int
    recommends
        b != 0,
{
    if a >= 0 && b > 0 {
        a / b
    } else if a >= 0 {
        -(a / (-b))
    } else if b > 0 {
        -((-a) / b)
    } else {
        (-a) / (-b)
    }
}

/// The remainder that goes with [`truncating_div`]: it has the sign of `a`.
pub open spec fn truncating_rem(a: int, b: int) -> int
    recommends
        b != 0,
{
    a - b * truncating_div(a, b)
}

/// Bitwise "and" of two integers in two's complement of unbounded width.
pub open spec fn int_and(a: int, b: int) -> int
    decreases (if a < 0 { -a } else { a }),
{
    if a == 0 {
        0
    } else if a == -1 {
        b
    } else {
        2 * int_and(a / 2, b / 2) + (if a % 2 == 1 && b % 2 == 1 { 1int } else { 0int })
    }
}

/// Bitwise "or" of two integers in two's complement of unbounded width.
pub open spec fn int_or(a: int, b: int) -> int
    decreases (if a < 0 { -a } else { a }),
{
    if a == 0 {
        b
    } else if a == -1 {
        -1
    } else {
        2 * int_or(a / 2, b / 2) + (if a % 2 == 1 || b % 2 == 1 { 1int } else { 0int })
    }
}

/// Bitwise "exclusive or" of two integers in two's complement of unbounded width.
pub open spec fn int_xor(a: int, b: int) -> int
    decreases (if a < 0 { -a } else { a }),
{
    if a == 0 {
        b
    } else if a == -1 {
        -b - 1
    } else {
        2 * int_xor(a / 2, b / 2) + (if (a % 2 == 1) != (b % 2 == 1) { 1int } else { 0int })
    }
}

/// The value of an ASCII character as a digit: `0` to `9`, then the letters
/// of either case from 10 on. Any other character has no value as a digit,
/// which 255 stands for.
pub open spec fn digit_value(c: char) -> nat {
    if '0' <= c && c <= '9' {
        (c as nat - '0' as nat) as nat
    } else if 'a' <= c && c <= 'z' {
        (c as nat - 'a' as nat + 10) as nat
    } else if 'A' <= c && c <= 'Z' {
        (c as nat - 'A' as nat + 10) as nat
    } else {
        255
    }
}

/// Whether every character of `text` is a digit of the given radix.
pub open spec fn all_digits(text: Seq<char>, radix: nat) -> bool {
    forall|i: int| 0 <= i < text.len() ==> digit_value(#[trigger] text[i]) < radix
}

/// The number that the digits of `text` denote in the given radix, most
/// significant digit first.
pub open spec fn digits_value(text: Seq<char>, radix: nat) -> nat
    decreases text.len(),
{
    if text.len() == 0 {
        0
    } else {
        digits_value(text.drop_last(), radix) * radix + digit_value(text.last())
    }
}

/// The decimal digits of a natural number, without leading zeros.
pub open spec fn decimal_digits(n: nat) -> Seq<char>
    decreases n,
{
    if n < 10 {
        seq![('0' as nat + n) as char]
    } else {
        decimal_digits(n / 10).push(('0' as nat + n % 10) as char)
    }
}

/// The decimal text of an integer: a minus sign for a negative one, then its digits.
pub open spec fn decimal_text(v: int) -> Seq<char> {
    if v < 0 {
        seq!['-'] + decimal_digits((-v) as nat)
    } else {
        decimal_digits(v as nat)
    }
}

/// Calls `BigUint::from` on a `u64`; the result has the value of the argument.
#[verifier::external_body]
pub(crate) fn natural_from_u64(v: u64) -> (r: Natural)
    ensures
        r@ == v,
{
    Natural { bytes: BigUint::from(v).to_bytes_le() }
}

/// Calls `BigUint::from_str_radix`. On a non-empty text made of digits of the
/// radix alone, the call succeeds with the number that the digits denote.
#[verifier::external_body]
pub(crate) fn natural_from_digits(text: &str, radix: u32) -> (r: Option<Natural>)
    requires
        2 <= radix <= 36,
    ensures
        text@.len() > 0 && all_digits(text@, radix as nat) ==> r.is_some() && r.unwrap()@
            == digits_value(text@, radix as nat),
{
    match BigUint::from_str_radix(text, radix) {
        Ok(n) => Some(Natural { bytes: n.to_bytes_le() }),
        Err(_) => None,
    }
}

/// Calls `BigInt::from` on an `i64`; the result has the value of the argument.
#[verifier::external_body]
pub(crate) fn integer_from_i64(v: i64) -> (r: Integer)
    ensures
        r@ == v,
{
    Integer { bytes: BigInt::from(v).to_signed_bytes_le() }
}

/// Calls `BigInt::from_signed_bytes_le`, which reads little-endian bytes
/// in two's complement: the result has the value of the bytes.
#[verifier::external_body]
pub(crate) fn integer_from_bytes(bytes: &[u8]) -> (r: Integer)
    ensures
        r@ == twos_complement_value(bytes@),
{
    Integer { bytes: BigInt::from_signed_bytes_le(bytes).to_signed_bytes_le() }
}

/// Calls `BigInt::from_biguint` with the sign `Plus`: the same number, as an integer.
#[verifier::external_body]
pub(crate) fn integer_from_natural(n: &Natural) -> (r: Integer)
    ensures
        r@ == n@,
{
    let magnitude = BigUint::from_bytes_le(&n.bytes);
    Integer { bytes: BigInt::from_biguint(Sign::Plus, magnitude).to_signed_bytes_le() }
}

/// Calls `+` of `BigInt`: the exact sum.
#[verifier::external_body]
pub(crate) fn integer_add(a: &Integer, b: &Integer) -> (r: Integer)
    ensures
        r@ == a@ + b@,
{
    let sum = BigInt::from_signed_bytes_le(&a.bytes) + BigInt::from_signed_bytes_le(&b.bytes);
    Integer { bytes: sum.to_signed_bytes_le() }
}

/// Calls `-` of `BigInt`: the exact difference.
#[verifier::external_body]
pub(crate) fn integer_sub(a: &Integer, b: &Integer) -> (r: Integer)
    ensures
        r@ == a@ - b@,
{
    let difference = BigInt::from_signed_bytes_le(&a.bytes) - BigInt::from_signed_bytes_le(
        &b.bytes,
    );
    Integer { bytes: difference.to_signed_bytes_le() }
}

/// Calls `*` of `BigInt`: the exact product.
#[verifier::external_body]
pub(crate) fn integer_mul(a: &Integer, b: &Integer) -> (r: Integer)
    ensures
        r@ == a@ * b@,
{
    let product = BigInt::from_signed_bytes_le(&a.bytes) * BigInt::from_signed_bytes_le(&b.bytes);
    Integer { bytes: product.to_signed_bytes_le() }
}

/// Calls the unary `-` of `BigInt`: the number with its sign changed.
#[verifier::external_body]
pub(crate) fn integer_neg(a: &Integer) -> (r: Integer)
    ensures
        r@ == -a@,
{
    Integer { bytes: (-BigInt::from_signed_bytes_le(&a.bytes)).to_signed_bytes_le() }
}

/// Calls `CheckedDiv::checked_div` of `BigInt`: nothing for a zero divisor,
/// else the quotient rounded toward zero.
#[verifier::external_body]
pub(crate) fn integer_checked_div(a: &Integer, b: &Integer) -> (r: Option<Integer>)
    ensures
        b@ == 0 ==> r.is_none(),
        b@ != 0 ==> r.is_some() && r.unwrap()@ == truncating_div(a@, b@),
{
    let dividend = BigInt::from_signed_bytes_le(&a.bytes);
    match dividend.checked_div(&BigInt::from_signed_bytes_le(&b.bytes)) {
        Some(q) => Some(Integer { bytes: q.to_signed_bytes_le() }),
        None => None,
    }
}

/// Calls `%` of `BigInt`, which panics on a zero divisor: the remainder of
/// the division that rounds toward zero.
#[verifier::external_body]
pub(crate) fn integer_rem(a: &Integer, b: &Integer) -> (r: Integer)
    requires
        b@ != 0,
    ensures
        r@ == truncating_rem(a@, b@),
{
    let remainder = BigInt::from_signed_bytes_le(&a.bytes) % BigInt::from_signed_bytes_le(
        &b.bytes,
    );
    Integer { bytes: remainder.to_signed_bytes_le() }
}

/// Calls `Zero::is_zero` of `BigInt`.
#[verifier::external_body]
pub(crate) fn integer_is_zero(a: &Integer) -> (r: bool)
    ensures
        r == (a@ == 0),
{
    BigInt::from_signed_bytes_le(&a.bytes).is_zero()
}

/// Calls `Signed::is_negative` of `BigInt`.
#[verifier::external_body]
pub(crate) fn integer_is_negative(a: &Integer) -> (r: bool)
    ensures
        r == (a@ < 0),
{
    BigInt::from_signed_bytes_le(&a.bytes).is_negative()
}

/// Calls `ToPrimitive::to_u16` of `BigInt`: the number itself where it lies
/// in the range of `u16`, else nothing.
#[verifier::external_body]
pub(crate) fn integer_to_u16(a: &Integer) -> (r: Option<u16>)
    ensures
        0 <= a@ <= u16::MAX ==> r == Some(a@ as u16),
        !(0 <= a@ <= u16::MAX) ==> r.is_none(),
{
    BigInt::from_signed_bytes_le(&a.bytes).to_u16()
}

/// Calls `ToPrimitive::to_u32` of `BigInt`: the number itself where it lies
/// in the range of `u32`, else nothing.
#[verifier::external_body]
pub(crate) fn integer_to_u32(a: &Integer) -> (r: Option<u32>)
    ensures
        0 <= a@ <= u32::MAX ==> r == Some(a@ as u32),
        !(0 <= a@ <= u32::MAX) ==> r.is_none(),
{
    BigInt::from_signed_bytes_le(&a.bytes).to_u32()
}

/// Calls `&` of `BigInt`, which works on the two's complement of both numbers.
#[verifier::external_body]
pub(crate) fn integer_bitand(a: &Integer, b: &Integer) -> (r: Integer)
    ensures
        r@ == int_and(a@, b@),
{
    let bits = BigInt::from_signed_bytes_le(&a.bytes) & BigInt::from_signed_bytes_le(&b.bytes);
    Integer { bytes: bits.to_signed_bytes_le() }
}

/// Calls `|` of `BigInt`, which works on the two's complement of both numbers.
#[verifier::external_body]
pub(crate) fn integer_bitor(a: &Integer, b: &Integer) -> (r: Integer)
    ensures
        r@ == int_or(a@, b@),
{
    let bits = BigInt::from_signed_bytes_le(&a.bytes) | BigInt::from_signed_bytes_le(&b.bytes);
    Integer { bytes: bits.to_signed_bytes_le() }
}

/// Calls `^` of `BigInt`, which works on the two's complement of both numbers.
#[verifier::external_body]
pub(crate) fn integer_bitxor(a: &Integer, b: &Integer) -> (r: Integer)
    ensures
        r@ == int_xor(a@, b@),
{
    let bits = BigInt::from_signed_bytes_le(&a.bytes) ^ BigInt::from_signed_bytes_le(&b.bytes);
    Integer { bytes: bits.to_signed_bytes_le() }
}

/// Calls `<<` of `BigInt` with a `u16`: the number times two to that power.
#[verifier::external_body]
pub(crate) fn integer_shl(a: &Integer, amount: u16) -> (r: Integer)
    ensures
        r@ == a@ * pow(2, amount as nat),
{
    Integer { bytes: (BigInt::from_signed_bytes_le(&a.bytes) << amount).to_signed_bytes_le() }
}

/// Calls `>>` of `BigInt` with a `u16`: the number divided by two to that
/// power, rounded toward negative infinity.
#[verifier::external_body]
pub(crate) fn integer_shr(a: &Integer, amount: u16) -> (r: Integer)
    ensures
        r@ == a@ / pow(2, amount as nat),
{
    Integer { bytes: (BigInt::from_signed_bytes_le(&a.bytes) >> amount).to_signed_bytes_le() }
}

/// Calls `BigInt::sqrt`, which panics on a negative number: the largest
/// integer whose square does not exceed the argument.
#[verifier::external_body]
pub(crate) fn integer_sqrt(a: &Integer) -> (r: Integer)
    requires
        a@ >= 0,
    ensures
        is_floor_sqrt(a@, r@),
{
    Integer { bytes: BigInt::from_signed_bytes_le(&a.bytes).sqrt().to_signed_bytes_le() }
}

/// Calls `BigInt::pow` with a `u32`: the exact power.
#[verifier::external_body]
pub(crate) fn integer_pow(a: &Integer, exponent: u32) -> (r: Integer)
    ensures
        r@ == pow(a@, exponent as nat),
{
    Integer { bytes: BigInt::from_signed_bytes_le(&a.bytes).pow(exponent).to_signed_bytes_le() }
}

/// Calls `to_string` of `BigInt`: the decimal text of the number.
#[verifier::external_body]
pub(crate) fn integer_to_decimal(a: &Integer) -> (r: String)
    ensures
        r@ == decimal_text(a@),
{
    BigInt::from_signed_bytes_le(&a.bytes).to_string()
}

/// Whether `root` is the integer square root of `v`, rounded down.
pub open spec fn is_floor_sqrt(v: int, root: int) -> bool {
    root >= 0 && root * root <= v && v < (root + 1) * (root + 1)
}

impl Natural {
    /// The number with the value of `v`.
    pub fn from_u64(v: u64) -> (r: Natural)
        ensures
            r@ == v,
    {
        natural_from_u64(v)
    }

    /// The little-endian base-256 digits of the number.
    pub fn to_bytes_le(&self) -> (r: Vec<u8>)
        ensures
            le_value(r@) == self@,
    {
        self.bytes.clone()
    }
}

impl Clone for Natural {
    fn clone(&self) -> (r: Natural)
        ensures
            r@ == self@,
    {
        Natural { bytes: self.bytes.clone() }
    }
}

impl Integer {
    /// The number with the value of `v`.
    pub fn from_i64(v: i64) -> (r: Integer)
        ensures
            r@ == v,
    {
        integer_from_i64(v)
    }

    /// The number that little-endian bytes in two's complement stand for.
    pub fn from_signed_bytes_le(bytes: &[u8]) -> (r: Integer)
        ensures
            r@ == twos_complement_value(bytes@),
    {
        integer_from_bytes(bytes)
    }

    /// The little-endian two's-complement bytes of the number.
    pub fn to_signed_bytes_le(&self) -> (r: Vec<u8>)
        ensures
            twos_complement_value(r@) == self@,
    {
        self.bytes.clone()
    }
}

impl Clone for Integer {
    fn clone(&self) -> (r: Integer)
        ensures
            r@ == self@,
    {
        Integer { bytes: self.bytes.clone() }
    }
}

} // verus!
