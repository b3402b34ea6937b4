//! The writer: a byte string that grows by one field at a time.

use crate::endian::{le_bytes, u16_to_le};
use crate::error::{Error, ErrorCode};
use crate::integers::{append_bytes, integer_bytes, nat0_bytes};
use crate::primitives::{
    bool_bytes, bytes_bytes, char_bytes, float32_bytes, float64_bytes, selector_bytes, unit_bytes,
};
use crate::write_ext::WriteBinProtExt;
use vstd::prelude::*;
use vstd::string::StringSliceAdditionalSpecFns;

verus! {

/// Appends the wire forms of values to a byte string.
pub struct Serializer {
    writer: Vec<u8>,
}

impl View for Serializer {
    type V = Seq<u8>;

    /// The bytes written so far.
    closed spec fn view(&self) -> Seq<u8> {
        self.writer@
    }
}

impl Serializer {
    /// A writer that goes on after the bytes of `writer`.
    pub fn new(writer: Vec<u8>) -> (ser: Self)
        ensures
            ser@ == writer@,
    {
        Serializer { writer }
    }

    /// The bytes written so far.
    pub fn into_inner(self) -> (bytes: Vec<u8>)
        ensures
            bytes@ == self@,
    {
        self.writer
    }

    /// Appends the bytes of `buf` as they stand.
    pub fn write(&mut self, buf: &[u8]) -> (r: Result<(), Error>)
        ensures
            r is Ok,
            final(self)@ == old(self)@ + buf@,
    {
        append_bytes(&mut self.writer, buf);
        Ok(())
    }

    /// Appends the byte `b`.
    pub fn write_byte(&mut self, b: u8) -> (r: Result<(), Error>)
        ensures
            r is Ok,
            final(self)@ == old(self)@ + seq![b],
    {
        self.writer.push(b);
        assert(self@ =~= old(self)@ + seq![b]);
        Ok(())
    }

    /// Appends a boolean: `0x00` for false, `0x01` for true.
    pub fn serialize_bool(&mut self, v: bool) -> (r: Result<(), Error>)
        ensures
            r is Ok,
            final(self)@ == old(self)@ + bool_bytes(v),
    {
        self.writer.bin_write_bool(v);
        Ok(())
    }

    /// Appends an integer.
    pub fn serialize_i8(&mut self, v: i8) -> (r: Result<(), Error>)
        ensures
            r is Ok,
            final(self)@ == old(self)@ + integer_bytes(v as int),
    {
        self.serialize_i64(v as i64)
    }

    /// Appends an integer.
    pub fn serialize_i16(&mut self, v: i16) -> (r: Result<(), Error>)
        ensures
            r is Ok,
            final(self)@ == old(self)@ + integer_bytes(v as int),
    {
        self.serialize_i64(v as i64)
    }

    /// Appends an integer.
    pub fn serialize_i32(&mut self, v: i32) -> (r: Result<(), Error>)
        ensures
            r is Ok,
            final(self)@ == old(self)@ + integer_bytes(v as int),
    {
        self.serialize_i64(v as i64)
    }

    /// Appends an integer in its shortest form.
    pub fn serialize_i64(&mut self, v: i64) -> (r: Result<(), Error>)
        ensures
            r is Ok,
            final(self)@ == old(self)@ + integer_bytes(v as int),
    {
        self.writer.bin_write_integer(v);
        Ok(())
    }

    /// Appends an integer.
    pub fn serialize_u8(&mut self, v: u8) -> (r: Result<(), Error>)
        ensures
            r is Ok,
            final(self)@ == old(self)@ + integer_bytes(v as int),
    {
        self.serialize_i64(v as i64)
    }

    /// Appends an integer.
    pub fn serialize_u16(&mut self, v: u16) -> (r: Result<(), Error>)
        ensures
            r is Ok,
            final(self)@ == old(self)@ + integer_bytes(v as int),
    {
        self.serialize_i64(v as i64)
    }

    /// Appends an integer.
    pub fn serialize_u32(&mut self, v: u32) -> (r: Result<(), Error>)
        ensures
            r is Ok,
            final(self)@ == old(self)@ + integer_bytes(v as int),
    {
        self.serialize_i64(v as i64)
    }

    /// Appends the integer that has the 64 bits of `v` in two's
    /// complement: `v` itself up to the largest `i64`, and a negative
    /// number above it.
    pub fn serialize_u64(&mut self, v: u64) -> (r: Result<(), Error>)
        ensures
            r is Ok,
            final(self)@ == old(self)@ + integer_bytes(signed_u64(v)),
    {
        let n: i64 = if v <= 0x7fff_ffff_ffff_ffff {
            v as i64
        } else {
            let below: u64 = 0xffff_ffff_ffff_ffff - v;
            -(below as i64) - 1
        };
        self.serialize_i64(n)
    }

    /// Appends the 32-bit float with the bit pattern `bits`.
    pub fn serialize_f32(&mut self, bits: u32) -> (r: Result<(), Error>)
        ensures
            r is Ok,
            final(self)@ == old(self)@ + float32_bytes(bits),
    {
        self.writer.bin_write_float32(bits);
        Ok(())
    }

    /// Appends the 64-bit float with the bit pattern `bits`.
    pub fn serialize_f64(&mut self, bits: u64) -> (r: Result<(), Error>)
        ensures
            r is Ok,
            final(self)@ == old(self)@ + float64_bytes(bits),
    {
        self.writer.bin_write_float64(bits);
        Ok(())
    }

    /// Appends a character in its UTF-8 form.
    pub fn serialize_char(&mut self, v: char) -> (r: Result<(), Error>)
        ensures
            r is Ok,
            final(self)@ == old(self)@ + char_bytes(v),
    {
        self.writer.bin_write_char(v);
        Ok(())
    }

    /// Appends a string: the length of its UTF-8 form, then that form.
    pub fn serialize_str(&mut self, v: &str) -> (r: Result<(), Error>)
        ensures
            r is Ok,
            final(self)@ == old(self)@ + bytes_bytes(v.spec_bytes()),
    {
        self.serialize_bytes(v.as_bytes())
    }

    /// Appends a byte string: its length, then its bytes.
    pub fn serialize_bytes(&mut self, v: &[u8]) -> (r: Result<(), Error>)
        ensures
            r is Ok,
            final(self)@ == old(self)@ + bytes_bytes(v@),
    {
        self.writer.bin_write_nat0(v.len() as u64);
        append_bytes(&mut self.writer, v);
        assert(self@ =~= old(self)@ + bytes_bytes(v@));
        Ok(())
    }

    /// Appends the tag of an absent option, `0x00`.
    pub fn serialize_none(&mut self) -> (r: Result<(), Error>)
        ensures
            r is Ok,
            final(self)@ == old(self)@ + seq![0x00u8],
    {
        self.write_byte(0x00)
    }

    /// Appends the tag of a present option, `0x01`. The value follows.
    pub fn serialize_some(&mut self) -> (r: Result<(), Error>)
        ensures
            r is Ok,
            final(self)@ == old(self)@ + seq![0x01u8],
    {
        self.write_byte(0x01)
    }

    /// Appends unit, `0x00`.
    pub fn serialize_unit(&mut self) -> (r: Result<(), Error>)
        ensures
            r is Ok,
            final(self)@ == old(self)@ + unit_bytes(),
    {
        self.writer.bin_write_unit();
        Ok(())
    }

    /// Appends the selector of the variant `variant_index` of a sum with
    /// `variants` variants: one byte up to 256 variants, two beyond. An
    /// index that names no variant, or that two bytes cannot hold, is
    /// refused and nothing is written.
    pub fn serialize_unit_variant(&mut self, variant_index: u32, variants: usize) -> (r: Result<
        (),
        Error,
    >)
        ensures
            variant_index < variants && variant_index < 0x1_0000 ==> r is Ok && final(self)@
                == old(self)@ + selector_bytes(variant_index as nat, variants as nat),
            !(variant_index < variants && variant_index < 0x1_0000) ==> r == Err::<(), Error>(
                Error::Syntax(ErrorCode::InvalidVariantIndex),
            ) && final(self)@ == old(self)@,
    {
        if variant_index as usize >= variants || variant_index >= 0x1_0000 {
            return Err(Error::Syntax(ErrorCode::InvalidVariantIndex));
        }
        if variants <= 0x100 {
            let low: u8 = variant_index as u8;
            self.writer.push(low);
            assert(le_bytes(variant_index as nat, 1) =~= seq![low]) by {
                reveal_with_fuel(le_bytes, 2);
            }
            assert(self@ =~= old(self)@ + selector_bytes(variant_index as nat, variants as nat));
        } else {
            let field = u16_to_le(variant_index as u16);
            append_bytes(&mut self.writer, field.as_slice());
        }
        Ok(())
    }

    /// Appends the length of a sequence. The elements follow.
    pub fn serialize_seq(&mut self, len: usize) -> (r: Result<(), Error>)
        ensures
            r is Ok,
            final(self)@ == old(self)@ + nat0_bytes(len as nat),
    {
        self.writer.bin_write_nat0(len as u64);
        Ok(())
    }
}

/// The integer that has the 64 bits of `v` in two's complement.
pub open spec fn signed_u64(v: u64) -> int {
    if v <= i64::MAX {
        v as int
    } else {
        v - 0x1_0000_0000_0000_0000
    }
}

} // verus!
