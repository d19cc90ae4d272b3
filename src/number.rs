//! Decimal integers, as the words of the input write them.

use core::num::ParseIntError;

use vstd::prelude::*;

verus! {

#[verifier::external_type_specification]
#[verifier::external_body]
pub struct ExParseIntError(ParseIntError);

/// An ASCII decimal digit.
pub open spec fn is_digit(c: char) -> bool {
    0x30 <= (c as u32) <= 0x39
}

/// One or more ASCII decimal digits.
pub open spec fn all_digits(s: Seq<char>) -> bool {
    s.len() > 0 && forall|i: int| 0 <= i < s.len() ==> is_digit(#[trigger] s[i])
}

/// The number that a run of decimal digits writes.
pub open spec fn digits_value(s: Seq<char>) -> int
    decreases s.len(),
{
    if s.len() == 0 {
        0
    } else {
        10 * digits_value(s.drop_last()) + ((s.last() as u32) - 0x30)
    }
}

/// The integer that `s` writes in decimal: an optional `+` (or `-`, where
/// `signed`) and then one or more digits.
pub open spec fn decimal_value(s: Seq<char>, signed: bool) -> Option<int> {
    if s.len() > 0 && s[0] == '+' && all_digits(s.drop_first()) {
        Some(digits_value(s.drop_first()))
    } else if signed && s.len() > 0 && s[0] == '-' && all_digits(s.drop_first()) {
        Some(-digits_value(s.drop_first()))
    } else if all_digits(s) {
        Some(digits_value(s))
    } else {
        None
    }
}

/// The integer that `s` writes in decimal, where it lies in `lo..=hi`.
pub open spec fn decimal_in(s: Seq<char>, signed: bool, lo: int, hi: int) -> Option<int> {
    match decimal_value(s, signed) {
        Some(v) => if lo <= v <= hi {
            Some(v)
        } else {
            None
        },
        None => None,
    }
}

/// A conversion of `s` into the integers `lo..=hi` succeeded (`ok`) with `v`
/// exactly when `s` writes `v` in decimal, and failed otherwise.
pub open spec fn converts(s: Seq<char>, signed: bool, lo: int, hi: int, ok: bool, v: int) -> bool {
    match decimal_in(s, signed, lo, hi) {
        Some(n) => ok && v == n,
        None => !ok,
    }
}

/// Relies on `i8::from_str`: an optional `+` or `-` and decimal digits, in range.
#[verifier::external_body]
pub(crate) fn parse_i8(s: &str) -> (r: Result<i8, ParseIntError>)
    ensures
        converts(s@, true, i8::MIN as int, i8::MAX as int, r is Ok, r->Ok_0 as int),
{
    s.parse::<i8>()
}

/// Relies on `u8::from_str`: an optional `+` and decimal digits, in range.
#[verifier::external_body]
pub(crate) fn parse_u8(s: &str) -> (r: Result<u8, ParseIntError>)
    ensures
        converts(s@, false, 0, u8::MAX as int, r is Ok, r->Ok_0 as int),
{
    s.parse::<u8>()
}

/// Relies on `i16::from_str`: an optional `+` or `-` and decimal digits, in range.
#[verifier::external_body]
pub(crate) fn parse_i16(s: &str) -> (r: Result<i16, ParseIntError>)
    ensures
        converts(s@, true, i16::MIN as int, i16::MAX as int, r is Ok, r->Ok_0 as int),
{
    s.parse::<i16>()
}

/// Relies on `u16::from_str`: an optional `+` and decimal digits, in range.
#[verifier::external_body]
pub(crate) fn parse_u16(s: &str) -> (r: Result<u16, ParseIntError>)
    ensures
        converts(s@, false, 0, u16::MAX as int, r is Ok, r->Ok_0 as int),
{
    s.parse::<u16>()
}

/// Relies on `i32::from_str`: an optional `+` or `-` and decimal digits, in range.
#[verifier::external_body]
pub(crate) fn parse_i32(s: &str) -> (r: Result<i32, ParseIntError>)
    ensures
        converts(s@, true, i32::MIN as int, i32::MAX as int, r is Ok, r->Ok_0 as int),
{
    s.parse::<i32>()
}

/// Relies on `u32::from_str`: an optional `+` and decimal digits, in range.
#[verifier::external_body]
pub(crate) fn parse_u32(s: &str) -> (r: Result<u32, ParseIntError>)
    ensures
        converts(s@, false, 0, u32::MAX as int, r is Ok, r->Ok_0 as int),
{
    s.parse::<u32>()
}

/// Relies on `i64::from_str`: an optional `+` or `-` and decimal digits, in range.
#[verifier::external_body]
pub(crate) fn parse_i64(s: &str) -> (r: Result<i64, ParseIntError>)
    ensures
        converts(s@, true, i64::MIN as int, i64::MAX as int, r is Ok, r->Ok_0 as int),
{
    s.parse::<i64>()
}

/// Relies on `u64::from_str`: an optional `+` and decimal digits, in range.
#[verifier::external_body]
pub(crate) fn parse_u64(s: &str) -> (r: Result<u64, ParseIntError>)
    ensures
        converts(s@, false, 0, u64::MAX as int, r is Ok, r->Ok_0 as int),
{
    s.parse::<u64>()
}

/// Relies on `i128::from_str`: an optional `+` or `-` and decimal digits, in range.
#[verifier::external_body]
pub(crate) fn parse_i128(s: &str) -> (r: Result<i128, ParseIntError>)
    ensures
        converts(s@, true, i128::MIN as int, i128::MAX as int, r is Ok, r->Ok_0 as int),
{
    s.parse::<i128>()
}

/// Relies on `u128::from_str`: an optional `+` and decimal digits, in range.
#[verifier::external_body]
pub(crate) fn parse_u128(s: &str) -> (r: Result<u128, ParseIntError>)
    ensures
        converts(s@, false, 0, u128::MAX as int, r is Ok, r->Ok_0 as int),
{
    s.parse::<u128>()
}

/// Relies on `isize::from_str`: an optional `+` or `-` and decimal digits, in range.
#[verifier::external_body]
pub(crate) fn parse_isize(s: &str) -> (r: Result<isize, ParseIntError>)
    ensures
        converts(s@, true, isize::MIN as int, isize::MAX as int, r is Ok, r->Ok_0 as int),
{
    s.parse::<isize>()
}

/// Relies on `usize::from_str`: an optional `+` and decimal digits, in range.
#[verifier::external_body]
pub(crate) fn parse_usize(s: &str) -> (r: Result<usize, ParseIntError>)
    ensures
        converts(s@, false, 0, usize::MAX as int, r is Ok, r->Ok_0 as int),
{
    s.parse::<usize>()
}

} // verus!
