//! Natural numbers, zero included: the lengths of lists, arrays and
//! strings on the wire.

use crate::error::Error;
use crate::integers::{nat0_bytes, parse_nat0};
use vstd::prelude::*;
use vstd::std_specs::convert::FromSpecImpl;

verus! {

/// A natural number.
#[derive(Debug)]
pub struct Nat0(u64);

impl View for Nat0 {
    type V = nat;

    closed spec fn view(&self) -> nat {
        self.0 as nat
    }
}

impl Nat0 {
    /// The natural number `v`.
    pub fn new(v: u64) -> (n: Self)
        ensures
            n@ == v,
    {
        Nat0(v)
    }

    /// The number held.
    pub fn take(self) -> (v: u64)
        ensures
            v == self@,
    {
        self.0
    }

    /// The wire form of the number.
    pub fn serialize(&self) -> (bytes: Vec<u8>)
        ensures
            bytes@ == nat0_bytes(self@),
    {
        crate::integers::nat0::serialize(self.0)
    }

    /// The natural number at the front of `bytes`; what follows it is not
    /// looked at.
    pub fn deserialize(bytes: &[u8]) -> (r: Result<Nat0, Error>)
        ensures
            match parse_nat0(bytes@) {
                Ok((v, _)) => r is Ok && r->Ok_0@ == v,
                Err((code, at)) => r == Err::<Nat0, Error>(Error::Eval(code, at as usize)),
            },
    {
        match crate::integers::nat0::deserialize(bytes) {
            Ok(v) => Ok(Nat0(v)),
            Err(e) => Err(e),
        }
    }
}

impl From<usize> for Nat0 {
    fn from(v: usize) -> (n: Self)
        ensures
            n@ == v,
    {
        Nat0(v as u64)
    }
}

impl FromSpecImpl<usize> for Nat0 {
    open spec fn obeys_from_spec() -> bool {
        true
    }

    closed spec fn from_spec(v: usize) -> Self {
        Nat0(v as u64)
    }
}

} // verus!
