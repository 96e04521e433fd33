//! Overflow-checked arithmetic for values derived from untrusted file data.
use crate::error::{Error, ErrorCode, Result};
use vstd::prelude::*;

verus! {

/// Upper bound on the number of elements a single tag array or strip/tile
/// table may claim from a file (64 Mi).
pub const K_MAX_TAG_COUNT: u64 = 64 * 1024 * 1024;

/// `a + b`, or [`ErrorCode::InvalidArgument`] when it overflows.
pub fn checked_add_u64(a: u64, b: u64) -> (r: Result<u64>)
    ensures
        r is Ok <==> a + b <= u64::MAX,
        r matches Ok(v) ==> v == a + b,
        r matches Err(e) ==> e.kind() == ErrorCode::InvalidArgument,
{
    match a.checked_add(b) {
        Some(v) => Ok(v),
        None => Err(Error::invalid_argument("checked_add_u64: unsigned addition overflows")),
    }
}

/// `a * b`, or [`ErrorCode::InvalidArgument`] when it overflows.
pub fn checked_mul_u64(a: u64, b: u64) -> (r: Result<u64>)
    ensures
        r is Ok <==> a * b <= u64::MAX,
        r matches Ok(v) ==> v == a * b,
        r matches Err(e) ==> e.kind() == ErrorCode::InvalidArgument,
{
    match a.checked_mul(b) {
        Some(v) => Ok(v),
        None => Err(Error::invalid_argument("checked_mul_u64: unsigned multiplication overflows")),
    }
}

/// `a + b` for sizes, or [`ErrorCode::InvalidArgument`] when it overflows.
pub fn checked_add_size(a: usize, b: usize) -> (r: Result<usize>)
    ensures
        r is Ok <==> a + b <= usize::MAX,
        r matches Ok(v) ==> v == a + b,
        r matches Err(e) ==> e.kind() == ErrorCode::InvalidArgument,
{
    match a.checked_add(b) {
        Some(v) => Ok(v),
        None => Err(Error::invalid_argument("checked_add_size: size addition overflows")),
    }
}

/// `a * b` for sizes, or [`ErrorCode::InvalidArgument`] when it overflows.
pub fn checked_mul_size(a: usize, b: usize) -> (r: Result<usize>)
    ensures
        r is Ok <==> a * b <= usize::MAX,
        r matches Ok(v) ==> v == a * b,
        r matches Err(e) ==> e.kind() == ErrorCode::InvalidArgument,
{
    match a.checked_mul(b) {
        Some(v) => Ok(v),
        None => Err(Error::invalid_argument("checked_mul_size: size multiplication overflows")),
    }
}

} // verus!
