//! A natural number held in a byte string of its own.

use crate::error::Error;
use crate::integers::{nat0_bytes, parse_nat0, read_nat0, write_nat0};
use vstd::prelude::*;

verus! {

/// The wire form of the natural number `n`.
pub fn serialize(n: u64) -> (bytes: Vec<u8>)
    ensures
        bytes@ == nat0_bytes(n as nat),
{
    let mut bytes: Vec<u8> = Vec::new();
    write_nat0(&mut bytes, n);
    assert(bytes@ =~= nat0_bytes(n as nat));
    bytes
}

/// The natural number at the front of `bytes`; what follows it is not
/// looked at.
pub fn deserialize(bytes: &[u8]) -> (r: Result<u64, Error>)
    ensures
        match parse_nat0(bytes@) {
            Ok((v, _)) => r == Ok::<u64, Error>(v),
            Err((code, at)) => r == Err::<u64, Error>(Error::Eval(code, at as usize)),
        },
{
    match read_nat0(bytes) {
        Ok((v, _)) => Ok(v),
        Err((code, at)) => Err(Error::Eval(code, at)),
    }
}

} // verus!
