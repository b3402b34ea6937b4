//! Reading the primitive values of the format from a byte source.

use crate::error::Error;
use crate::integers::{parse_integer, parse_nat0, reads};
use crate::primitives::{parse_bool, parse_char, parse_unit};
use vstd::prelude::*;

verus! {

/// A byte source that gives the primitive values of the format. Each
/// method takes the bytes of one value from the front of what is left, or
/// fails with the position that it reached.
pub trait ReadBinProtExt {
    /// The bytes that are still to be read.
    spec fn unread(&self) -> Seq<u8>;

    /// The number of bytes read so far.
    spec fn offset(&self) -> nat;

    /// Reads unit.
    fn bin_read_unit(&mut self) -> (r: Result<(), Error>)
        ensures
            reads(
                parse_unit(old(self).unread()),
                r,
                old(self).unread(),
                old(self).offset(),
                final(self).unread(),
                final(self).offset(),
            ),
    ;

    /// Reads a boolean.
    fn bin_read_bool(&mut self) -> (r: Result<bool, Error>)
        ensures
            reads(
                parse_bool(old(self).unread()),
                r,
                old(self).unread(),
                old(self).offset(),
                final(self).unread(),
                final(self).offset(),
            ),
    ;

    /// Reads a character.
    fn bin_read_char(&mut self) -> (r: Result<char, Error>)
        ensures
            reads(
                parse_char(old(self).unread()),
                r,
                old(self).unread(),
                old(self).offset(),
                final(self).unread(),
                final(self).offset(),
            ),
    ;

    /// Reads an integer.
    fn bin_read_integer(&mut self) -> (r: Result<i64, Error>)
        ensures
            reads(
                parse_integer(old(self).unread()),
                r,
                old(self).unread(),
                old(self).offset(),
                final(self).unread(),
                final(self).offset(),
            ),
    ;

    /// Reads a natural number.
    fn bin_read_nat0(&mut self) -> (r: Result<u64, Error>)
        ensures
            reads(
                parse_nat0(old(self).unread()),
                r,
                old(self).unread(),
                old(self).offset(),
                final(self).unread(),
                final(self).offset(),
            ),
    ;
}

} // verus!
