//! Writing the primitive values of the format to a byte sink.

use crate::endian::{u32_to_le, u64_to_le};
use crate::integers::{
    append_bytes, integer_bytes, integer_size, nat0_bytes, nat0_size, write_integer, write_nat0,
};
use crate::primitives::{
    bool_bytes, char_bytes, char_to_utf8, float32_bytes, float64_bytes, unit_bytes,
};
use vstd::prelude::*;

verus! {

/// A byte sink that takes the primitive values of the format. Each method
/// appends the wire form of its argument and returns the number of bytes
/// that it appended.
pub trait WriteBinProtExt {
    /// The bytes that the sink has taken.
    spec fn taken(&self) -> Seq<u8>;

    /// Appends unit.
    fn bin_write_unit(&mut self) -> (written: usize)
        ensures
            final(self).taken() == old(self).taken() + unit_bytes(),
            written == 1,
    ;

    /// Appends a boolean.
    fn bin_write_bool(&mut self, b: bool) -> (written: usize)
        ensures
            final(self).taken() == old(self).taken() + bool_bytes(b),
            written == 1,
    ;

    /// Appends a character.
    fn bin_write_char(&mut self, c: char) -> (written: usize)
        ensures
            final(self).taken() == old(self).taken() + char_bytes(c),
            written == char_bytes(c).len(),
    ;

    /// Appends an integer.
    fn bin_write_integer(&mut self, n: i64) -> (written: usize)
        ensures
            final(self).taken() == old(self).taken() + integer_bytes(n as int),
            written == integer_size(n as int),
    ;

    /// Appends a natural number.
    fn bin_write_nat0(&mut self, n: u64) -> (written: usize)
        ensures
            final(self).taken() == old(self).taken() + nat0_bytes(n as nat),
            written == nat0_size(n as nat),
    ;

    /// Appends the 32-bit float with the bit pattern `bits`.
    fn bin_write_float32(&mut self, bits: u32) -> (written: usize)
        ensures
            final(self).taken() == old(self).taken() + float32_bytes(bits),
            written == 4,
    ;

    /// Appends the 64-bit float with the bit pattern `bits`.
    fn bin_write_float64(&mut self, bits: u64) -> (written: usize)
        ensures
            final(self).taken() == old(self).taken() + float64_bytes(bits),
            written == 8,
    ;
}

impl WriteBinProtExt for Vec<u8> {
    open spec fn taken(&self) -> Seq<u8> {
        self@
    }

    fn bin_write_unit(&mut self) -> (written: usize)
        ensures
            final(self)@ == old(self)@ + unit_bytes(),
            written == 1,
    {
        self.push(0x00);
        assert(self@ =~= old(self)@ + unit_bytes());
        1
    }

    fn bin_write_bool(&mut self, b: bool) -> (written: usize)
        ensures
            final(self)@ == old(self)@ + bool_bytes(b),
            written == 1,
    {
        self.push(if b { 0x01 } else { 0x00 });
        assert(self@ =~= old(self)@ + bool_bytes(b));
        1
    }

    fn bin_write_char(&mut self, c: char) -> (written: usize)
        ensures
            final(self)@ == old(self)@ + char_bytes(c),
            written == char_bytes(c).len(),
    {
        let form = char_to_utf8(c);
        append_bytes(self, form.as_slice());
        form.len()
    }

    fn bin_write_integer(&mut self, n: i64) -> (written: usize)
        ensures
            final(self)@ == old(self)@ + integer_bytes(n as int),
            written == integer_size(n as int),
    {
        write_integer(self, n)
    }

    fn bin_write_nat0(&mut self, n: u64) -> (written: usize)
        ensures
            final(self)@ == old(self)@ + nat0_bytes(n as nat),
            written == nat0_size(n as nat),
    {
        write_nat0(self, n)
    }

    fn bin_write_float32(&mut self, bits: u32) -> (written: usize)
        ensures
            final(self)@ == old(self)@ + float32_bytes(bits),
            written == 4,
    {
        let field = u32_to_le(bits);
        append_bytes(self, field.as_slice());
        4
    }

    fn bin_write_float64(&mut self, bits: u64) -> (written: usize)
        ensures
            final(self)@ == old(self)@ + float64_bytes(bits),
            written == 8,
    {
        let field = u64_to_le(bits);
        append_bytes(self, field.as_slice());
        8
    }
}

} // verus!
