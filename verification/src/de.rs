//! The reader: a byte string and a position in it.

use crate::endian::{
    le_value, lemma_le_value_bound, lemma_radix_values, read_u16_le, read_u32_le, read_u64_le,
};
use crate::error::{Error, ErrorCode};
use crate::integers::{
    consumed, lemma_parse_nat0_range, parse_integer, parse_nat0, read_integer, read_nat0, reads,
    Parsed, ReadBinProtIntegerExt,
};
use crate::narrow::{
    i16_from_i64, i32_from_i64, i8_from_i64, u16_from_i64, u32_from_i64, u64_from_i64, u8_from_i64,
    usize_from_u64,
};
use crate::primitives::{
    parse_bool, parse_bytes, parse_char, parse_char_after, parse_field, parse_float32,
    parse_float64, parse_integer_within, parse_length, parse_selector, parse_unit, str_from_utf8,
};
use crate::read_ext::ReadBinProtExt;
use vstd::prelude::*;
use vstd::slice::{slice_subrange, slice_to_vec};
use vstd::string::{StrSliceExecFns, StringSliceAdditionalSpecFns};
use vstd::utf8::{encode_utf8, encode_utf8_decode_utf8};

verus! {

/// Reads fields from a byte string, front to back, and keeps count of the
/// bytes taken.
pub struct Deserializer<'a> {
    input: &'a [u8],
    pos: usize,
}

impl<'a> Deserializer<'a> {
    /// The position lies within the input.
    #[verifier::type_invariant]
    pub closed spec fn well_formed(self) -> bool {
        self.pos <= self.input@.len() <= usize::MAX
    }

    /// The position of a well-formed reader lies within its input, and
    /// the input is no longer than the machine can count.
    pub proof fn lemma_within(&self)
        requires
            self.well_formed(),
        ensures
            self.spec_position() <= self.bytes().len() <= usize::MAX,
    {
    }

    /// The whole input, read or not.
    pub closed spec fn bytes(&self) -> Seq<u8> {
        self.input@
    }

    /// The number of bytes taken so far.
    pub closed spec fn spec_position(&self) -> nat {
        self.pos as nat
    }

    /// The bytes not yet taken.
    pub open spec fn remaining(&self) -> Seq<u8> {
        self.bytes().skip(self.spec_position() as int)
    }

    /// `self` is `before` after `used` more bytes were taken.
    pub open spec fn advanced(&self, before: &Self, used: nat) -> bool {
        &&& self.bytes() == before.bytes()
        &&& self.spec_position() == before.spec_position() + used
        &&& self.spec_position() <= self.bytes().len() <= usize::MAX
    }

    /// The error that a field gives which fails with `code` after `at` of
    /// its bytes were taken.
    pub open spec fn failure(&self, code: ErrorCode, at: nat) -> Error {
        Error::Eval(code, (self.spec_position() + at) as usize)
    }

    /// A reader at the start of `input`.
    pub fn from_slice(input: &'a [u8]) -> (de: Self)
        ensures
            de.bytes() == input@,
            de.spec_position() == 0,
    {
        let total: usize = input.len();
        Deserializer { input, pos: 0 }
    }

    /// What holds when a read of a field that parses as `parsed` has
    /// returned `r` and has made `self` of `before`: the value read, with
    /// the position moved past the field; or the field's error at the
    /// position where it showed, which is where the reader then stands.
    pub open spec fn took<T>(&self, before: &Self, parsed: Parsed<T>, r: Result<T, Error>) -> bool {
        match parsed {
            Ok((v, used)) => r == Ok::<T, Error>(v) && self.advanced(before, used),
            Err((code, at)) => r == Err::<T, Error>(before.failure(code, at)) && self.advanced(
                before,
                at,
            ),
        }
    }

    /// A reader that has taken a field stands before what followed the
    /// field.
    pub proof fn lemma_advanced_remaining(&self, before: &Self, used: nat)
        requires
            self.advanced(before, used),
        ensures
            self.remaining() == before.remaining().skip(used as int),
    {
        assert(self.remaining() =~= before.remaining().skip(used as int));
    }

    /// What `took` says in the words of a byte source: what is left of
    /// the stream, and how far the reader has come.
    pub proof fn lemma_took_reads<T>(&self, before: &Self, parsed: Parsed<T>, r: Result<T, Error>)
        requires
            self.took(before, parsed, r),
        ensures
            reads(
                parsed,
                r,
                before.remaining(),
                before.spec_position(),
                self.remaining(),
                self.spec_position(),
            ),
    {
        self.lemma_advanced_remaining(before, consumed(parsed));
    }

    /// The number of bytes taken so far.
    pub fn position(&self) -> (p: usize)
        ensures
            p == self.spec_position(),
            p <= self.bytes().len() <= usize::MAX,
    {
        proof {
            use_type_invariant(self);
        }
        self.pos
    }

    /// The bytes not yet taken.
    fn rest(&self) -> (rest: &[u8])
        ensures
            rest@ == self.remaining(),
            self.spec_position() <= self.bytes().len() <= usize::MAX,
    {
        proof {
            use_type_invariant(self);
        }
        let rest = slice_subrange(self.input, self.pos, self.input.len());
        assert(rest@ =~= self.remaining());
        rest
    }

    /// Moves past what a read of the bytes not yet taken has used, and
    /// gives the read's result with the position of its error, if any.
    fn settle<T>(&mut self, outcome: Result<(T, usize), (ErrorCode, usize)>) -> (r: Result<
        T,
        Error,
    >)
        requires
            match outcome {
                Ok((_, used)) => used <= old(self).remaining().len(),
                Err((_, at)) => at <= old(self).remaining().len(),
            },
        ensures
            match outcome {
                Ok((v, used)) => r == Ok::<T, Error>(v) && final(self).advanced(
                    old(self),
                    used as nat,
                ),
                Err((code, at)) => r == Err::<T, Error>(old(self).failure(code, at as nat))
                    && final(self).advanced(old(self), at as nat),
            },
    {
        proof {
            use_type_invariant(&*self);
        }
        match outcome {
            Ok((v, used)) => {
                self.pos = self.pos + used;
                Ok(v)
            },
            Err((code, at)) => {
                self.pos = self.pos + at;
                Err(Error::Eval(code, self.pos))
            },
        }
    }

    /// An error with the code `reason` at the present position.
    pub fn error<T>(&self, reason: ErrorCode) -> (r: Result<T, Error>)
        ensures
            r == Err::<T, Error>(self.failure(reason, 0)),
    {
        Err(Error::Eval(reason, self.pos))
    }

    /// Takes one byte.
    pub fn read_byte(&mut self) -> (r: Result<u8, Error>)
        ensures
            old(self).remaining().len() >= 1 ==> r == Ok::<u8, Error>(old(self).remaining()[0])
                && final(self).advanced(old(self), 1),
            old(self).remaining().len() == 0 ==> r == Err::<u8, Error>(
                old(self).failure(ErrorCode::EofWhileParsing, 0),
            ) && final(self).advanced(old(self), 0),
    {
        proof {
            use_type_invariant(&*self);
        }
        if self.pos < self.input.len() {
            let b: u8 = self.input[self.pos];
            self.pos = self.pos + 1;
            Ok(b)
        } else {
            Err(Error::Eval(ErrorCode::EofWhileParsing, self.pos))
        }
    }

    /// Takes `n` bytes.
    pub fn read_bytes(&mut self, n: usize) -> (r: Result<Vec<u8>, Error>)
        ensures
            old(self).remaining().len() >= n ==> r is Ok && r->Ok_0@ == old(self).remaining().take(
                n as int,
            ) && final(self).advanced(old(self), n as nat),
            old(self).remaining().len() < n ==> r == Err::<Vec<u8>, Error>(
                old(self).failure(ErrorCode::EofWhileParsing, 0),
            ) && final(self).advanced(old(self), 0),
    {
        proof {
            use_type_invariant(&*self);
        }
        if n <= self.input.len() - self.pos {
            let field = slice_subrange(self.input, self.pos, self.pos + n);
            let bytes = vstd::slice::slice_to_vec(field);
            assert(bytes@ =~= old(self).remaining().take(n as int));
            self.pos = self.pos + n;
            Ok(bytes)
        } else {
            Err(Error::Eval(ErrorCode::EofWhileParsing, self.pos))
        }
    }
    /// Whether every byte has been taken; when not, the error of bytes left
    /// over.
    pub fn end(&self) -> (r: Result<(), Error>)
        ensures
            self.remaining().len() == 0 ==> r == Ok::<(), Error>(()),
            self.remaining().len() > 0 ==> r == Err::<(), Error>(
                self.failure(ErrorCode::TrailingBytes, 0),
            ),
    {
        proof {
            use_type_invariant(self);
        }
        if self.pos == self.input.len() {
            Ok(())
        } else {
            Err(Error::Eval(ErrorCode::TrailingBytes, self.pos))
        }
    }

    /// Reads a field of two bytes: a little-endian number.
    pub fn read_u16_le(&mut self) -> (r: Result<u16, Error>)
        ensures
            match parse_field(old(self).remaining(), 2) {
                Ok((x, used)) => r == Ok::<u16, Error>(x as u16) && x == x as u16 && final(self).advanced(old(self), used),
                Err((code, at)) => final(self).took(
                    old(self),
                    Err::<(u16, nat), (ErrorCode, nat)>((code, at)),
                    r,
                ),
            },
    {
        proof {
            use_type_invariant(&*self);
            lemma_radix_values();
        }
        let rest = self.rest();
        if rest.len() < 2 {
            return Err(Error::Eval(ErrorCode::EofWhileParsing, self.pos));
        }
        proof {
            lemma_le_value_bound(rest@.take(2));
            assert(rest@.subrange(0, 2) =~= rest@.take(2));
        }
        let x: u16 = read_u16_le(rest);
        self.pos = self.pos + 2;
        Ok(x)
    }

    /// Reads the bit pattern of a 32-bit float.
    pub fn read_f32_le(&mut self) -> (r: Result<u32, Error>)
        ensures
            final(self).took(old(self), parse_float32(old(self).remaining()), r),
    {
        proof {
            use_type_invariant(&*self);
            lemma_radix_values();
        }
        let rest = self.rest();
        if rest.len() < 4 {
            return Err(Error::Eval(ErrorCode::EofWhileParsing, self.pos));
        }
        proof {
            lemma_le_value_bound(rest@.take(4));
            assert(rest@.subrange(0, 4) =~= rest@.take(4));
        }
        let x: u32 = read_u32_le(rest);
        self.pos = self.pos + 4;
        Ok(x)
    }

    /// Reads the bit pattern of a 64-bit float.
    pub fn read_f64_le(&mut self) -> (r: Result<u64, Error>)
        ensures
            final(self).took(old(self), parse_float64(old(self).remaining()), r),
    {
        proof {
            use_type_invariant(&*self);
            lemma_radix_values();
        }
        let rest = self.rest();
        if rest.len() < 8 {
            return Err(Error::Eval(ErrorCode::EofWhileParsing, self.pos));
        }
        proof {
            lemma_le_value_bound(rest@.take(8));
            assert(rest@.subrange(0, 8) =~= rest@.take(8));
        }
        let x: u64 = read_u64_le(rest);
        self.pos = self.pos + 8;
        Ok(x)
    }

    /// Reads a boolean.
    pub fn deserialize_bool(&mut self) -> (r: Result<bool, Error>)
        ensures
            final(self).took(old(self), parse_bool(old(self).remaining()), r),
    {
        self.bin_read_bool()
    }

    /// Reads an integer that an `i8` can hold.
    pub fn deserialize_i8(&mut self) -> (r: Result<i8, Error>)
        ensures
            match parse_integer_within(old(self).remaining(), i8::MIN as int, i8::MAX as int) {
                Ok((v, used)) => r == Ok::<i8, Error>(v as i8) && final(self).advanced(
                    old(self),
                    used,
                ),
                Err((code, at)) => r == Err::<i8, Error>(old(self).failure(code, at)) && final(self).advanced(old(self), at),
            },
    {
        let v: i64 = self.bin_read_integer()?;
        match i8_from_i64(v) {
            Some(x) => Ok(x),
            None => self.error(ErrorCode::IntegerSizeMismatch),
        }
    }

    /// Reads an integer that an `i16` can hold.
    pub fn deserialize_i16(&mut self) -> (r: Result<i16, Error>)
        ensures
            match parse_integer_within(old(self).remaining(), i16::MIN as int, i16::MAX as int) {
                Ok((v, used)) => r == Ok::<i16, Error>(v as i16) && final(self).advanced(
                    old(self),
                    used,
                ),
                Err((code, at)) => r == Err::<i16, Error>(old(self).failure(code, at)) && final(self).advanced(old(self), at),
            },
    {
        let v: i64 = self.bin_read_integer()?;
        match i16_from_i64(v) {
            Some(x) => Ok(x),
            None => self.error(ErrorCode::IntegerSizeMismatch),
        }
    }

    /// Reads an integer that an `i32` can hold.
    pub fn deserialize_i32(&mut self) -> (r: Result<i32, Error>)
        ensures
            match parse_integer_within(old(self).remaining(), i32::MIN as int, i32::MAX as int) {
                Ok((v, used)) => r == Ok::<i32, Error>(v as i32) && final(self).advanced(
                    old(self),
                    used,
                ),
                Err((code, at)) => r == Err::<i32, Error>(old(self).failure(code, at)) && final(self).advanced(old(self), at),
            },
    {
        let v: i64 = self.bin_read_integer()?;
        match i32_from_i64(v) {
            Some(x) => Ok(x),
            None => self.error(ErrorCode::IntegerSizeMismatch),
        }
    }

    /// Reads an integer.
    pub fn deserialize_i64(&mut self) -> (r: Result<i64, Error>)
        ensures
            final(self).took(old(self), parse_integer(old(self).remaining()), r),
    {
        self.bin_read_integer()
    }

    /// Reads an integer that a `u8` can hold.
    pub fn deserialize_u8(&mut self) -> (r: Result<u8, Error>)
        ensures
            match parse_integer_within(old(self).remaining(), 0, u8::MAX as int) {
                Ok((v, used)) => r == Ok::<u8, Error>(v as u8) && final(self).advanced(
                    old(self),
                    used,
                ),
                Err((code, at)) => r == Err::<u8, Error>(old(self).failure(code, at)) && final(self).advanced(old(self), at),
            },
    {
        let v: i64 = self.bin_read_integer()?;
        match u8_from_i64(v) {
            Some(x) => Ok(x),
            None => self.error(ErrorCode::IntegerSizeMismatch),
        }
    }

    /// Reads an integer that a `u16` can hold.
    pub fn deserialize_u16(&mut self) -> (r: Result<u16, Error>)
        ensures
            match parse_integer_within(old(self).remaining(), 0, u16::MAX as int) {
                Ok((v, used)) => r == Ok::<u16, Error>(v as u16) && final(self).advanced(
                    old(self),
                    used,
                ),
                Err((code, at)) => r == Err::<u16, Error>(old(self).failure(code, at)) && final(self).advanced(old(self), at),
            },
    {
        let v: i64 = self.bin_read_integer()?;
        match u16_from_i64(v) {
            Some(x) => Ok(x),
            None => self.error(ErrorCode::IntegerSizeMismatch),
        }
    }

    /// Reads an integer that a `u32` can hold.
    pub fn deserialize_u32(&mut self) -> (r: Result<u32, Error>)
        ensures
            match parse_integer_within(old(self).remaining(), 0, u32::MAX as int) {
                Ok((v, used)) => r == Ok::<u32, Error>(v as u32) && final(self).advanced(
                    old(self),
                    used,
                ),
                Err((code, at)) => r == Err::<u32, Error>(old(self).failure(code, at)) && final(self).advanced(old(self), at),
            },
    {
        let v: i64 = self.bin_read_integer()?;
        match u32_from_i64(v) {
            Some(x) => Ok(x),
            None => self.error(ErrorCode::IntegerSizeMismatch),
        }
    }

    /// Reads an integer that is not negative. The wire holds signed
    /// 64-bit numbers, so none above the largest `i64` is ever read.
    pub fn deserialize_u64(&mut self) -> (r: Result<u64, Error>)
        ensures
            match parse_integer_within(old(self).remaining(), 0, i64::MAX as int) {
                Ok((v, used)) => r == Ok::<u64, Error>(v as u64) && final(self).advanced(
                    old(self),
                    used,
                ),
                Err((code, at)) => r == Err::<u64, Error>(old(self).failure(code, at)) && final(self).advanced(old(self), at),
            },
    {
        let v: i64 = self.bin_read_integer()?;
        match u64_from_i64(v) {
            Some(x) => Ok(x),
            None => self.error(ErrorCode::IntegerSizeMismatch),
        }
    }

    /// Reads the bit pattern of a 32-bit float.
    pub fn deserialize_f32(&mut self) -> (r: Result<u32, Error>)
        ensures
            final(self).took(old(self), parse_float32(old(self).remaining()), r),
    {
        self.read_f32_le()
    }

    /// Reads the bit pattern of a 64-bit float.
    pub fn deserialize_f64(&mut self) -> (r: Result<u64, Error>)
        ensures
            final(self).took(old(self), parse_float64(old(self).remaining()), r),
    {
        self.read_f64_le()
    }

    /// Reads a character.
    pub fn deserialize_char(&mut self) -> (r: Result<char, Error>)
        ensures
            final(self).took(old(self), parse_char(old(self).remaining()), r),
    {
        self.bin_read_char()
    }

    /// Reads a byte string: its length, then its bytes.
    pub fn deserialize_bytes(&mut self) -> (r: Result<Vec<u8>, Error>)
        ensures
            match parse_bytes(old(self).remaining()) {
                Ok((b, used)) => r is Ok && r->Ok_0@ == b && final(self).advanced(old(self), used),
                Err((code, at)) => r == Err::<Vec<u8>, Error>(old(self).failure(code, at))
                    && final(self).advanced(old(self), at),
            },
    {
        proof {
            use_type_invariant(&*self);
            lemma_parse_nat0_range(old(self).remaining());
        }
        let n: u64 = self.bin_read_nat0()?;
        let ghost used = consumed(parse_nat0(old(self).remaining()));
        assert(self.remaining() =~= old(self).remaining().skip(used as int));
        match usize_from_u64(n) {
            Some(len) => {
                let bytes = self.read_bytes(len)?;
                assert(bytes@ =~= old(self).remaining().subrange(used as int, used + n));
                Ok(bytes)
            },
            None => self.error(ErrorCode::EofWhileParsing),
        }
    }

    /// Reads the tag of an option: whether a value follows.
    pub fn deserialize_option(&mut self) -> (r: Result<bool, Error>)
        ensures
            final(self).took(old(self), parse_bool(old(self).remaining()), r),
    {
        self.bin_read_bool()
    }

    /// Reads unit.
    pub fn deserialize_unit(&mut self) -> (r: Result<(), Error>)
        ensures
            final(self).took(old(self), parse_unit(old(self).remaining()), r),
    {
        self.bin_read_unit()
    }

    /// Reads the length of a sequence.
    pub fn deserialize_seq(&mut self) -> (r: Result<usize, Error>)
        ensures
            final(self).took(
                old(self),
                parse_length(old(self).remaining(), usize::MAX as nat),
                r,
            ),
    {
        let n: u64 = self.bin_read_nat0()?;
        match usize_from_u64(n) {
            Some(len) => Ok(len),
            None => self.error(ErrorCode::IntegerSizeMismatch),
        }
    }

    /// Reads the selector of a sum with `variants` variants: one byte up
    /// to 256 variants, two beyond.
    pub fn deserialize_variant_index(&mut self, variants: usize) -> (r: Result<u16, Error>)
        ensures
            final(self).took(
                old(self),
                parse_selector(old(self).remaining(), variants as nat),
                r,
            ),
    {
        proof {
            lemma_radix_values();
        }
        if variants <= 0x100 {
            let ghost s = self.remaining();
            proof {
                if s.len() >= 1 {
                    assert(s.take(1).skip(1) =~= Seq::<u8>::empty());
                    reveal_with_fuel(le_value, 2);
                    assert(le_value(s.take(1)) == s[0] as nat);
                }
            }
            let k: u8 = self.read_byte()?;
            if (k as usize) < variants {
                Ok(k as u16)
            } else {
                self.error(ErrorCode::InvalidVariantIndex)
            }
        } else {
            let k: u16 = self.read_u16_le()?;
            if (k as usize) < variants {
                Ok(k)
            } else {
                self.error(ErrorCode::InvalidVariantIndex)
            }
        }
    }
}

impl<'a> Deserializer<'a> {
    /// Reads one field of this kind.
    fn read_unit(&mut self) -> (r: Result<(), Error>)
        ensures
            final(self).took(old(self), parse_unit(old(self).remaining()), r),
    {
        let b: u8 = self.read_byte()?;
        if b == 0x00 {
            Ok(())
        } else {
            self.error(ErrorCode::InvalidUnitByte)
        }
    }

    /// Reads one field of this kind.
    fn read_bool(&mut self) -> (r: Result<bool, Error>)
        ensures
            final(self).took(old(self), parse_bool(old(self).remaining()), r),
    {
        let b: u8 = self.read_byte()?;
        if b == 0x00 {
            Ok(false)
        } else if b == 0x01 {
            Ok(true)
        } else {
            self.error(ErrorCode::InvalidBoolByte)
        }
    }

    /// Reads one field of this kind.
    fn read_char(&mut self) -> (r: Result<char, Error>)
        ensures
            final(self).took(old(self), parse_char(old(self).remaining()), r),
    {
        let ghost before = *old(self);
        let ghost s = before.remaining();
        let mut tried: usize = 0;
        proof {
            use_type_invariant(&*self);
        }
        while tried < 4
            invariant
                tried <= 4,
                self.advanced(&before, tried as nat),
                before == *old(self),
                s == before.remaining(),
                parse_char(s) == parse_char_after(s, tried as nat),
            decreases 4 - tried,
        {
            proof {
                use_type_invariant(&*self);
            }
            if self.pos >= self.input.len() {
                proof {
                    reveal(parse_char_after);
                }
                return Err(Error::Eval(ErrorCode::EofWhileParsing, self.pos));
            }
            self.pos = self.pos + 1;
            let prefix = slice_subrange(self.input, self.pos - tried - 1, self.pos);
            assert(prefix@ =~= s.take(tried as int + 1));
            proof {
                reveal(parse_char_after);
            }
            match str_from_utf8(prefix) {
                Some(text) => {
                    proof {
                        encode_utf8_decode_utf8(text@);
                        assert(text@.len() > 0) by {
                            if text@.len() == 0 {
                                assert(encode_utf8(text@).len() == 0);
                            }
                        }
                    }
                    let c: char = text.get_char(0);
                    return Ok(c);
                },
                None => {},
            }
            tried = tried + 1;
        }
        proof {
            reveal(parse_char_after);
        }
        Err(Error::Eval(ErrorCode::InvalidUtf8Char, self.pos))
    }

    /// Reads one field of this kind.
    fn read_one_integer(&mut self) -> (r: Result<i64, Error>)
        ensures
            final(self).took(old(self), parse_integer(old(self).remaining()), r),
    {
        let outcome = read_integer(self.rest());
        self.settle(outcome)
    }

    /// Reads one field of this kind.
    fn read_one_nat0(&mut self) -> (r: Result<u64, Error>)
        ensures
            final(self).took(old(self), parse_nat0(old(self).remaining()), r),
    {
        let outcome = read_nat0(self.rest());
        self.settle(outcome)
    }
}

impl<'a> ReadBinProtExt for Deserializer<'a> {
    open spec fn unread(&self) -> Seq<u8> {
        self.remaining()
    }

    open spec fn offset(&self) -> nat {
        self.spec_position()
    }

    fn bin_read_unit(&mut self) -> (r: Result<(), Error>)
        ensures
            final(self).took(old(self), parse_unit(old(self).remaining()), r),
    {
        let r = self.read_unit();
        proof {
            self.lemma_took_reads(old(self), parse_unit(old(self).remaining()), r);
        }
        r
    }

    fn bin_read_bool(&mut self) -> (r: Result<bool, Error>)
        ensures
            final(self).took(old(self), parse_bool(old(self).remaining()), r),
    {
        let r = self.read_bool();
        proof {
            self.lemma_took_reads(old(self), parse_bool(old(self).remaining()), r);
        }
        r
    }

    fn bin_read_char(&mut self) -> (r: Result<char, Error>)
        ensures
            final(self).took(old(self), parse_char(old(self).remaining()), r),
    {
        let r = self.read_char();
        proof {
            self.lemma_took_reads(old(self), parse_char(old(self).remaining()), r);
        }
        r
    }

    fn bin_read_integer(&mut self) -> (r: Result<i64, Error>)
        ensures
            final(self).took(old(self), parse_integer(old(self).remaining()), r),
    {
        let r = self.read_one_integer();
        proof {
            self.lemma_took_reads(old(self), parse_integer(old(self).remaining()), r);
        }
        r
    }

    fn bin_read_nat0(&mut self) -> (r: Result<u64, Error>)
        ensures
            final(self).took(old(self), parse_nat0(old(self).remaining()), r),
    {
        let r = self.read_one_nat0();
        proof {
            self.lemma_took_reads(old(self), parse_nat0(old(self).remaining()), r);
        }
        r
    }
}

impl<'a> ReadBinProtIntegerExt for Deserializer<'a> {
    open spec fn unread_bytes(&self) -> Seq<u8> {
        self.remaining()
    }

    open spec fn offset_reached(&self) -> nat {
        self.spec_position()
    }

    fn read_binprot_integer(&mut self) -> (r: Result<i64, Error>)
        ensures
            final(self).took(old(self), parse_integer(old(self).remaining()), r),
    {
        let r = self.read_one_integer();
        proof {
            self.lemma_took_reads(old(self), parse_integer(old(self).remaining()), r);
        }
        r
    }

    fn read_binprot_nat0(&mut self) -> (r: Result<u64, Error>)
        ensures
            final(self).took(old(self), parse_nat0(old(self).remaining()), r),
    {
        let r = self.read_one_nat0();
        proof {
            self.lemma_took_reads(old(self), parse_nat0(old(self).remaining()), r);
        }
        r
    }
}

} // verus!
