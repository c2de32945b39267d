//! Signed 32.32 fixed-point arithmetic on raw bits, carried out by the `fixed` crate.
//!
//! A fixed-point number is handled here as the `i64` that holds its bits: the
//! number's value times 2^32.

use fixed::types::I32F32;
use fixed::ParseFixedError;
use vstd::prelude::*;

verus! {

/// The number of raw steps in one whole unit: 2^32.
pub open spec fn unit() -> int {
    0x1_0000_0000
}

/// Whether a whole number is the raw bits of some fixed-point number.
pub open spec fn fits_i64(v: int) -> bool {
    i64::MIN <= v <= i64::MAX
}

/// Division of integers that rounds toward zero.
pub open spec fn div_toward_zero(a: int, d: int) -> int
    recommends
        d > 0,
{
    if a >= 0 {
        a / d
    } else {
        -((-a) / d)
    }
}

/// `fixed::ParseFixedError`: why a text is no fixed-point number, carried
/// through unread.
#[verifier::external_type_specification]
#[verifier::external_body]
pub struct ExParseFixedError(ParseFixedError);

/// The bits of the fixed-point number that `fixed` reads from a decimal text,
/// or `None` where it rejects the text.
pub uninterp spec fn parsed_fixed_bits(text: Seq<char>) -> Option<i64>;

/// `<I32F32 as FromStr>::from_str`: the outcome depends on the text alone.
#[verifier::external_body]
pub(crate) fn parse_bits(text: &str) -> (r: Result<i64, ParseFixedError>)
    ensures
        match r {
            Ok(b) => parsed_fixed_bits(text@) == Some(b),
            Err(_) => parsed_fixed_bits(text@) is None,
        },
{
    match text.parse::<I32F32>() {
        Ok(v) => Ok(v.to_bits()),
        Err(e) => Err(e),
    }
}

/// `FixedI64::checked_add`: the sum of the bits, or `None` where it leaves `i64`.
#[verifier::external_body]
pub(crate) fn checked_add_bits(a: i64, b: i64) -> (r: Option<i64>)
    ensures
        r == (if fits_i64(a + b) {
            Some((a + b) as i64)
        } else {
            None
        }),
{
    match I32F32::from_bits(a).checked_add(I32F32::from_bits(b)) {
        Some(v) => Some(v.to_bits()),
        None => None,
    }
}

/// `FixedI64::checked_sub`: the difference of the bits, or `None` where it leaves `i64`.
#[verifier::external_body]
pub(crate) fn checked_sub_bits(a: i64, b: i64) -> (r: Option<i64>)
    ensures
        r == (if fits_i64(a - b) {
            Some((a - b) as i64)
        } else {
            None
        }),
{
    match I32F32::from_bits(a).checked_sub(I32F32::from_bits(b)) {
        Some(v) => Some(v.to_bits()),
        None => None,
    }
}

/// `FixedI64::checked_mul`: the exact product, rounded down to a multiple of
/// 2^-32, or `None` where that leaves the type's range.
#[verifier::external_body]
pub(crate) fn checked_mul_bits(a: i64, b: i64) -> (r: Option<i64>)
    ensures
        r == (if fits_i64((a * b) / unit()) {
            Some(((a * b) / unit()) as i64)
        } else {
            None
        }),
{
    match I32F32::from_bits(a).checked_mul(I32F32::from_bits(b)) {
        Some(v) => Some(v.to_bits()),
        None => None,
    }
}

/// `FixedI64::checked_div_int` by a positive whole number: the bits divided by
/// it, rounded toward zero.
#[verifier::external_body]
pub(crate) fn checked_div_int_bits(a: i64, d: u32) -> (r: Option<i64>)
    ensures
        r == (if d == 0 {
            None
        } else {
            Some(div_toward_zero(a as int, d as int) as i64)
        }),
{
    match I32F32::from_bits(a).checked_div_int(i64::from(d)) {
        Some(v) => Some(v.to_bits()),
        None => None,
    }
}

/// `FixedI64::checked_to_num::<u64>`: the whole part, rounded down, or `None`
/// for a negative number.
#[verifier::external_body]
pub(crate) fn checked_whole_part(a: i64) -> (r: Option<u64>)
    ensures
        r == (if a >= 0 {
            Some((a as int / unit()) as u64)
        } else {
            None
        }),
{
    I32F32::from_bits(a).checked_to_num::<u64>()
}

} // verus!
