//! Fitting a 64-bit number into a narrower integer type, with the
//! conversions of the `num` crate.

use num::FromPrimitive;
use vstd::prelude::*;

verus! {

/// `num::FromPrimitive::from_i64` for `i8`: `n`, when an `i8` can hold it.
#[verifier::external_body]
pub(crate) fn i8_from_i64(n: i64) -> (r: Option<i8>)
    ensures
        r == (if i8::MIN <= n <= i8::MAX {
            Some(n as i8)
        } else {
            None::<i8>
        }),
{
    <i8 as FromPrimitive>::from_i64(n)
}

/// `num::FromPrimitive::from_i64` for `i16`: `n`, when an `i16` can hold
/// it.
#[verifier::external_body]
pub(crate) fn i16_from_i64(n: i64) -> (r: Option<i16>)
    ensures
        r == (if i16::MIN <= n <= i16::MAX {
            Some(n as i16)
        } else {
            None::<i16>
        }),
{
    <i16 as FromPrimitive>::from_i64(n)
}

/// `num::FromPrimitive::from_i64` for `i32`: `n`, when an `i32` can hold
/// it.
#[verifier::external_body]
pub(crate) fn i32_from_i64(n: i64) -> (r: Option<i32>)
    ensures
        r == (if i32::MIN <= n <= i32::MAX {
            Some(n as i32)
        } else {
            None::<i32>
        }),
{
    <i32 as FromPrimitive>::from_i64(n)
}

/// `num::FromPrimitive::from_i64` for `u8`: `n`, when a `u8` can hold it.
#[verifier::external_body]
pub(crate) fn u8_from_i64(n: i64) -> (r: Option<u8>)
    ensures
        r == (if 0 <= n <= u8::MAX {
            Some(n as u8)
        } else {
            None::<u8>
        }),
{
    <u8 as FromPrimitive>::from_i64(n)
}

/// `num::FromPrimitive::from_i64` for `u16`: `n`, when a `u16` can hold
/// it.
#[verifier::external_body]
pub(crate) fn u16_from_i64(n: i64) -> (r: Option<u16>)
    ensures
        r == (if 0 <= n <= u16::MAX {
            Some(n as u16)
        } else {
            None::<u16>
        }),
{
    <u16 as FromPrimitive>::from_i64(n)
}

/// `num::FromPrimitive::from_i64` for `u32`: `n`, when a `u32` can hold
/// it.
#[verifier::external_body]
pub(crate) fn u32_from_i64(n: i64) -> (r: Option<u32>)
    ensures
        r == (if 0 <= n <= u32::MAX {
            Some(n as u32)
        } else {
            None::<u32>
        }),
{
    <u32 as FromPrimitive>::from_i64(n)
}

/// `num::FromPrimitive::from_i64` for `u64`: `n`, when it is not negative.
#[verifier::external_body]
pub(crate) fn u64_from_i64(n: i64) -> (r: Option<u64>)
    ensures
        r == (if 0 <= n {
            Some(n as u64)
        } else {
            None::<u64>
        }),
{
    <u64 as FromPrimitive>::from_i64(n)
}

/// `num::FromPrimitive::from_u64` for `u32`: `n`, when a `u32` can hold
/// it.
#[verifier::external_body]
pub(crate) fn u32_from_u64(n: u64) -> (r: Option<u32>)
    ensures
        r == (if n <= u32::MAX {
            Some(n as u32)
        } else {
            None::<u32>
        }),
{
    <u32 as FromPrimitive>::from_u64(n)
}

/// `num::FromPrimitive::from_u64` for `usize`: `n`, when a `usize` can
/// hold it.
#[verifier::external_body]
pub(crate) fn usize_from_u64(n: u64) -> (r: Option<usize>)
    ensures
        r == (if n <= usize::MAX {
            Some(n as usize)
        } else {
            None::<usize>
        }),
{
    <usize as FromPrimitive>::from_u64(n)
}

} // verus!
