//! An integer held in a byte string of its own.

use crate::error::Error;
use crate::integers::{integer_bytes, parse_integer, read_integer, write_integer};
use vstd::prelude::*;

verus! {

/// The wire form of the integer `n`.
pub fn serialize(n: i64) -> (bytes: Vec<u8>)
    ensures
        bytes@ == integer_bytes(n as int),
{
    let mut bytes: Vec<u8> = Vec::new();
    write_integer(&mut bytes, n);
    assert(bytes@ =~= integer_bytes(n as int));
    bytes
}

/// The integer at the front of `bytes`; what follows it is not looked at.
pub fn deserialize(bytes: &[u8]) -> (r: Result<i64, Error>)
    ensures
        match parse_integer(bytes@) {
            Ok((v, _)) => r == Ok::<i64, Error>(v),
            Err((code, at)) => r == Err::<i64, Error>(Error::Eval(code, at as usize)),
        },
{
    match read_integer(bytes) {
        Ok((v, _)) => Ok(v),
        Err((code, at)) => Err(Error::Eval(code, at)),
    }
}

} // verus!
