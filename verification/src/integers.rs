//! The variable-length integer encoding.
//!
//! An integer takes one, two, three, five or nine bytes, by its size:
//!
//! | value `v`                        | wire form                                  |
//! |----------------------------------|--------------------------------------------|
//! | `0 <= v < 0x80`                  | the byte `v`                               |
//! | `0x80 <= v < 0x8000`             | `CODE_INT16`, two bytes                    |
//! | `0x8000 <= v < 0x8000_0000`      | `CODE_INT32`, four bytes                   |
//! | `0x8000_0000 <= v`               | `CODE_INT64`, eight bytes                  |
//! | `-0x80 <= v < 0`                 | `CODE_NEG_INT8`, one byte                  |
//! | `-0x8000 <= v < -0x80`           | `CODE_INT16`, two bytes                    |
//! | `-0x8000_0000 <= v < -0x8000`    | `CODE_INT32`, four bytes                   |
//! | `v < -0x8000_0000`               | `CODE_INT64`, eight bytes                  |
//!
//! Fields are little-endian and in two's complement. A natural number
//! (`Nat0`) has no sign to spend a bit on, so its sixteen-bit form reaches
//! `0xffff` and its thirty-two-bit form `0xffff_ffff`.

pub mod integer;
pub mod nat0;

use crate::consts::{CODE_INT16, CODE_INT32, CODE_INT64, CODE_NEG_INT8};
use crate::endian::{
    i16_to_le, i32_to_le, i64_to_le, le_bytes, le_value, lemma_le_bytes_len, lemma_le_value_bound,
    lemma_le_value_of_bytes, lemma_radix_values, pattern_of, read_i16_le, read_i32_le, read_i64_le,
    read_u16_le, read_u32_le, read_u64_le, signed_of, u16_to_le, u32_to_le, u64_to_le,
};
use crate::error::{Error, ErrorCode};
use vstd::prelude::*;
use vstd::slice::slice_subrange;

verus! {

/// What reading a field from the front of a byte sequence gives: the value
/// and the number of bytes it took, or an error code and the number of
/// bytes that were taken before it showed.
pub type Parsed<T> = Result<(T, nat), (ErrorCode, nat)>;

/// The number of bytes that a read took, whether it gave a value or an
/// error.
pub open spec fn consumed<T>(p: Parsed<T>) -> nat {
    match p {
        Ok((_, used)) => used,
        Err((_, at)) => at,
    }
}

/// A parse with its counts as machine integers.
pub open spec fn in_machine_terms<T>(p: Parsed<T>) -> Result<(T, usize), (ErrorCode, usize)> {
    match p {
        Ok((v, used)) => Ok((v, used as usize)),
        Err((code, at)) => Err((code, at as usize)),
    }
}

/// The wire form of the integer `v`.
pub open spec fn integer_bytes(v: int) -> Seq<u8> {
    if 0 <= v < 0x80 {
        seq![v as u8]
    } else if 0x80 <= v < 0x8000 {
        seq![CODE_INT16] + le_bytes(v as nat, 2)
    } else if 0x8000 <= v < 0x8000_0000 {
        seq![CODE_INT32] + le_bytes(v as nat, 4)
    } else if 0x8000_0000 <= v {
        seq![CODE_INT64] + le_bytes(v as nat, 8)
    } else if -0x80 <= v {
        seq![CODE_NEG_INT8] + le_bytes(pattern_of(v, 1), 1)
    } else if -0x8000 <= v {
        seq![CODE_INT16] + le_bytes(pattern_of(v, 2), 2)
    } else if -0x8000_0000 <= v {
        seq![CODE_INT32] + le_bytes(pattern_of(v, 4), 4)
    } else {
        seq![CODE_INT64] + le_bytes(pattern_of(v, 8), 8)
    }
}

/// The length of the wire form of the integer `v`.
pub open spec fn integer_size(v: int) -> nat {
    if 0 <= v < 0x80 {
        1
    } else if -0x80 <= v < 0 {
        2
    } else if -0x8000 <= v < 0x8000 {
        3
    } else if -0x8000_0000 <= v < 0x8000_0000 {
        5
    } else {
        9
    }
}

/// The wire form of the natural number `v`.
pub open spec fn nat0_bytes(v: nat) -> Seq<u8> {
    if v < 0x80 {
        seq![v as u8]
    } else if v < 0x1_0000 {
        seq![CODE_INT16] + le_bytes(v, 2)
    } else if v < 0x1_0000_0000 {
        seq![CODE_INT32] + le_bytes(v, 4)
    } else {
        seq![CODE_INT64] + le_bytes(v, 8)
    }
}

/// The length of the wire form of the natural number `v`.
pub open spec fn nat0_size(v: nat) -> nat {
    if v < 0x80 {
        1
    } else if v < 0x1_0000 {
        3
    } else if v < 0x1_0000_0000 {
        5
    } else {
        9
    }
}

/// The field of `width` bytes that follows the first byte of `s`, if `s` is
/// long enough to hold it.
pub open spec fn field_after_prefix(s: Seq<u8>, width: nat) -> Option<nat> {
    if s.len() < 1 + width {
        None
    } else {
        Some(le_value(s.subrange(1, 1 + width as int)))
    }
}

/// An integer read from the front of `s`.
///
/// The first byte is a prefix code, followed by the field that it
/// announces, or it is the value itself, below `0x80`. A field is taken as
/// it stands, whether or not a shorter form would have held its value; the
/// field after `CODE_NEG_INT8` must be negative.
pub open spec fn parse_integer(s: Seq<u8>) -> Parsed<i64> {
    if s.len() == 0 {
        Err((ErrorCode::EofWhileParsing, 0))
    } else if s[0] == CODE_INT16 {
        match field_after_prefix(s, 2) {
            Some(x) => Ok((signed_of(x, 2) as i64, 3)),
            None => Err((ErrorCode::EofWhileParsing, 1)),
        }
    } else if s[0] == CODE_INT32 {
        match field_after_prefix(s, 4) {
            Some(x) => Ok((signed_of(x, 4) as i64, 5)),
            None => Err((ErrorCode::EofWhileParsing, 1)),
        }
    } else if s[0] == CODE_INT64 {
        match field_after_prefix(s, 8) {
            Some(x) => Ok((signed_of(x, 8) as i64, 9)),
            None => Err((ErrorCode::EofWhileParsing, 1)),
        }
    } else if s[0] == CODE_NEG_INT8 {
        if s.len() < 2 {
            Err((ErrorCode::EofWhileParsing, 1))
        } else if s[1] < 0x80 {
            Err((ErrorCode::IntegerSizeMismatch, 2))
        } else {
            Ok(((s[1] - 0x100) as i64, 2))
        }
    } else if s[0] < 0x80 {
        Ok((s[0] as i64, 1))
    } else {
        Err((ErrorCode::InvalidIntegerPrefix, 1))
    }
}

/// A natural number read from the front of `s`.
///
/// As [`parse_integer`], but the fields are unsigned and `CODE_NEG_INT8` is
/// no prefix.
pub open spec fn parse_nat0(s: Seq<u8>) -> Parsed<u64> {
    if s.len() == 0 {
        Err((ErrorCode::EofWhileParsing, 0))
    } else if s[0] == CODE_INT16 {
        match field_after_prefix(s, 2) {
            Some(x) => Ok((x as u64, 3)),
            None => Err((ErrorCode::EofWhileParsing, 1)),
        }
    } else if s[0] == CODE_INT32 {
        match field_after_prefix(s, 4) {
            Some(x) => Ok((x as u64, 5)),
            None => Err((ErrorCode::EofWhileParsing, 1)),
        }
    } else if s[0] == CODE_INT64 {
        match field_after_prefix(s, 8) {
            Some(x) => Ok((x as u64, 9)),
            None => Err((ErrorCode::EofWhileParsing, 1)),
        }
    } else if s[0] < 0x80 {
        Ok((s[0] as u64, 1))
    } else {
        Err((ErrorCode::InvalidIntegerPrefix, 1))
    }
}

/// A read of an integer takes no more bytes than there are, and what it
/// gives is the field as it stands, in two's complement.
pub proof fn lemma_parse_integer_range(s: Seq<u8>)
    ensures
        match parse_integer(s) {
            Ok((v, used)) => 1 <= used <= s.len() && (used > 2 ==> v == signed_of(
                le_value(s.subrange(1, used as int)),
                (used - 1) as nat,
            )),
            Err((_, at)) => at <= s.len() && at <= 2,
        },
{
    lemma_radix_values();
    if s.len() >= 3 {
        lemma_le_value_bound(s.subrange(1, 3));
    }
    if s.len() >= 5 {
        lemma_le_value_bound(s.subrange(1, 5));
    }
    if s.len() >= 9 {
        lemma_le_value_bound(s.subrange(1, 9));
    }
}

/// A read of a natural number takes no more bytes than there are, and
/// what it gives is the field as it stands.
pub proof fn lemma_parse_nat0_range(s: Seq<u8>)
    ensures
        match parse_nat0(s) {
            Ok((v, used)) => 1 <= used <= s.len() && (used > 1 ==> v == le_value(
                s.subrange(1, used as int),
            )),
            Err((_, at)) => at <= s.len() && at <= 1,
        },
{
    lemma_radix_values();
    if s.len() >= 3 {
        lemma_le_value_bound(s.subrange(1, 3));
    }
    if s.len() >= 5 {
        lemma_le_value_bound(s.subrange(1, 5));
    }
    if s.len() >= 9 {
        lemma_le_value_bound(s.subrange(1, 9));
    }
}

/// The wire form of an integer has the length that the table of sizes
/// gives: one byte from 0 up to `0x7f`, two from `-0x80` up to `-1`, three
/// up to sixteen bits, five up to thirty-two, nine beyond.
pub proof fn lemma_integer_size(v: int)
    ensures
        integer_bytes(v).len() == integer_size(v),
{
    lemma_le_bytes_len(v as nat, 2);
    lemma_le_bytes_len(v as nat, 4);
    lemma_le_bytes_len(v as nat, 8);
    lemma_le_bytes_len(pattern_of(v, 1), 1);
    lemma_le_bytes_len(pattern_of(v, 2), 2);
    lemma_le_bytes_len(pattern_of(v, 4), 4);
    lemma_le_bytes_len(pattern_of(v, 8), 8);
}

/// The wire form of a natural number has the length that the table of
/// sizes gives.
pub proof fn lemma_nat0_size(v: nat)
    ensures
        nat0_bytes(v).len() == nat0_size(v),
{
    lemma_le_bytes_len(v, 2);
    lemma_le_bytes_len(v, 4);
    lemma_le_bytes_len(v, 8);
}

/// Round trip: an encoded integer, whatever follows it, is read back as
/// the integer, and the reader takes exactly the bytes of its wire form.
pub proof fn lemma_integer_round_trip(n: i64, rest: Seq<u8>)
    ensures
        parse_integer(integer_bytes(n as int) + rest) == Ok::<(i64, nat), (ErrorCode, nat)>(
            (n, integer_size(n as int)),
        ),
{
    let v = n as int;
    lemma_radix_values();
    lemma_integer_size(v);
    let s = integer_bytes(v) + rest;
    let width: nat = (integer_size(v) - 1) as nat;
    if 0 <= v < 0x80 {
        assert(s[0] == v as u8);
    } else if -0x80 <= v < 0 {
        let p = pattern_of(v, 1);
        assert(le_bytes(p, 1) =~= seq![(p % 256) as u8]) by {
            reveal_with_fuel(le_bytes, 2);
        }
        assert(s[0] == CODE_NEG_INT8);
        assert(s[1] == p as u8);
    } else {
        let p = if v >= 0 { v as nat } else { pattern_of(v, width) };
        assert(s[0] == integer_bytes(v)[0]);
        lemma_le_bytes_len(p, width);
        assert(s.subrange(1, 1 + width as int) =~= le_bytes(p, width));
        lemma_le_value_of_bytes(p, width);
    }
}

/// Round trip: an encoded natural number, whatever follows it, is read
/// back as the number, and the reader takes exactly the bytes of its wire
/// form.
pub proof fn lemma_nat0_round_trip(n: u64, rest: Seq<u8>)
    ensures
        parse_nat0(nat0_bytes(n as nat) + rest) == Ok::<(u64, nat), (ErrorCode, nat)>(
            (n, nat0_size(n as nat)),
        ),
{
    let v = n as nat;
    lemma_radix_values();
    lemma_nat0_size(v);
    let s = nat0_bytes(v) + rest;
    let width: nat = (nat0_size(v) - 1) as nat;
    if v < 0x80 {
        assert(s[0] == v as u8);
    } else {
        assert(s[0] == nat0_bytes(v)[0]);
        lemma_le_bytes_len(v, width);
        assert(s.subrange(1, 1 + width as int) =~= le_bytes(v, width));
        lemma_le_value_of_bytes(v, width);
    }
}

/// Round trip for a narrower type: an encoded integer that lies between
/// `min` and `max` is read back for the type that holds those numbers.
pub proof fn lemma_integer_within_round_trip(n: i64, min: int, max: int, rest: Seq<u8>)
    requires
        min <= n <= max,
    ensures
        crate::primitives::parse_integer_within(integer_bytes(n as int) + rest, min, max) == Ok::<
            (i64, nat),
            (ErrorCode, nat),
        >((n, integer_size(n as int))),
{
    lemma_integer_round_trip(n, rest);
}

/// Shortest form: no sequence of bytes that reads as the integer `v` does
/// so in fewer bytes than the wire form of `v` has.
pub proof fn lemma_integer_shortest_form(s: Seq<u8>)
    ensures
        parse_integer(s) matches Ok((v, used)) ==> integer_size(v as int) <= used,
{
    lemma_radix_values();
    if s.len() >= 3 {
        lemma_le_value_bound(s.subrange(1, 3));
    }
    if s.len() >= 5 {
        lemma_le_value_bound(s.subrange(1, 5));
    }
}

/// Shortest form: no sequence of bytes that reads as the natural number
/// `v` does so in fewer bytes than the wire form of `v` has.
pub proof fn lemma_nat0_shortest_form(s: Seq<u8>)
    ensures
        parse_nat0(s) matches Ok((v, used)) ==> nat0_size(v as nat) <= used,
{
    lemma_radix_values();
    if s.len() >= 3 {
        lemma_le_value_bound(s.subrange(1, 3));
    }
    if s.len() >= 5 {
        lemma_le_value_bound(s.subrange(1, 5));
    }
}

/// A byte sink that takes integers in their variable-length form.
pub trait WriteBinProtIntegerExt {
    /// The bytes that the sink has taken.
    spec fn taken_bytes(&self) -> Seq<u8>;

    /// Appends an integer.
    fn write_binprot_integer(&mut self, n: i64)
        ensures
            final(self).taken_bytes() == old(self).taken_bytes() + integer_bytes(n as int),
    ;

    /// Appends a natural number.
    fn write_binprot_nat0(&mut self, n: u64)
        ensures
            final(self).taken_bytes() == old(self).taken_bytes() + nat0_bytes(n as nat),
    ;
}

/// What holds when a read of a field that parses as `parsed`, from a
/// source with the bytes `unread` ahead of it after `offset` others, has
/// returned `r` and has left `unread_after` ahead after `offset_after`:
/// the value read, with the field left behind; or the field's error with
/// the position where it showed, and what of the field was taken before it
/// left behind.
pub open spec fn reads<T>(
    parsed: Parsed<T>,
    r: Result<T, Error>,
    unread: Seq<u8>,
    offset: nat,
    unread_after: Seq<u8>,
    offset_after: nat,
) -> bool {
    match parsed {
        Ok((v, used)) => r == Ok::<T, Error>(v) && unread_after == unread.skip(used as int)
            && offset_after == offset + used,
        Err((code, at)) => r == Err::<T, Error>(Error::Eval(code, (offset + at) as usize))
            && unread_after == unread.skip(at as int) && offset_after == offset + at,
    }
}

/// A byte source that gives integers from their variable-length form.
pub trait ReadBinProtIntegerExt {
    /// The bytes that are still to be read.
    spec fn unread_bytes(&self) -> Seq<u8>;

    /// The number of bytes read so far.
    spec fn offset_reached(&self) -> nat;

    /// Reads an integer.
    fn read_binprot_integer(&mut self) -> (r: Result<i64, Error>)
        ensures
            reads(
                parse_integer(old(self).unread_bytes()),
                r,
                old(self).unread_bytes(),
                old(self).offset_reached(),
                final(self).unread_bytes(),
                final(self).offset_reached(),
            ),
    ;

    /// Reads a natural number.
    fn read_binprot_nat0(&mut self) -> (r: Result<u64, Error>)
        ensures
            reads(
                parse_nat0(old(self).unread_bytes()),
                r,
                old(self).unread_bytes(),
                old(self).offset_reached(),
                final(self).unread_bytes(),
                final(self).offset_reached(),
            ),
    ;
}

impl WriteBinProtIntegerExt for Vec<u8> {
    open spec fn taken_bytes(&self) -> Seq<u8> {
        self@
    }

    fn write_binprot_integer(&mut self, n: i64)
        ensures
            final(self)@ == old(self)@ + integer_bytes(n as int),
    {
        write_integer(self, n);
    }

    fn write_binprot_nat0(&mut self, n: u64)
        ensures
            final(self)@ == old(self)@ + nat0_bytes(n as nat),
    {
        write_nat0(self, n);
    }
}

/// Appends the bytes of `src` to `out`.
pub(crate) fn append_bytes(out: &mut Vec<u8>, src: &[u8])
    ensures
        final(out)@ == old(out)@ + src@,
{
    let n: usize = src.len();
    let mut i: usize = 0;
    while i < n
        invariant
            i <= n,
            n == src@.len(),
            out@ == old(out)@ + src@.subrange(0, i as int),
        decreases n - i,
    {
        out.push(src[i]);
        i = i + 1;
        assert(out@ =~= old(out)@ + src@.subrange(0, i as int));
    }
    assert(src@.subrange(0, n as int) =~= src@);
}

/// Appends the wire form of the integer `n` to `out`, and returns its
/// length.
pub fn write_integer(out: &mut Vec<u8>, n: i64) -> (written: usize)
    ensures
        final(out)@ == old(out)@ + integer_bytes(n as int),
        written == integer_size(n as int),
{
    proof {
        lemma_radix_values();
        lemma_integer_size(n as int);
    }
    if n >= 0 {
        if n < 0x80 {
            out.push(n as u8);
            assert(out@ =~= old(out)@ + integer_bytes(n as int));
            1
        } else if n < 0x8000 {
            out.push(CODE_INT16);
            let field = u16_to_le(n as u16);
            append_bytes(out, field.as_slice());
            assert(out@ =~= old(out)@ + integer_bytes(n as int));
            3
        } else if n < 0x8000_0000 {
            out.push(CODE_INT32);
            let field = u32_to_le(n as u32);
            append_bytes(out, field.as_slice());
            assert(out@ =~= old(out)@ + integer_bytes(n as int));
            5
        } else {
            out.push(CODE_INT64);
            let field = u64_to_le(n as u64);
            append_bytes(out, field.as_slice());
            assert(out@ =~= old(out)@ + integer_bytes(n as int));
            9
        }
    } else {
        if n >= -0x80 {
            out.push(CODE_NEG_INT8);
            let low: u8 = (n + 0x100) as u8;
            out.push(low);
            assert(le_bytes(pattern_of(n as int, 1), 1) =~= seq![low]) by {
                reveal_with_fuel(le_bytes, 2);
            }
            assert(out@ =~= old(out)@ + integer_bytes(n as int));
            2
        } else if n >= -0x8000 {
            out.push(CODE_INT16);
            let field = i16_to_le(n as i16);
            append_bytes(out, field.as_slice());
            assert(out@ =~= old(out)@ + integer_bytes(n as int));
            3
        } else if n >= -0x8000_0000 {
            out.push(CODE_INT32);
            let field = i32_to_le(n as i32);
            append_bytes(out, field.as_slice());
            assert(out@ =~= old(out)@ + integer_bytes(n as int));
            5
        } else {
            out.push(CODE_INT64);
            let field = i64_to_le(n);
            append_bytes(out, field.as_slice());
            assert(out@ =~= old(out)@ + integer_bytes(n as int));
            9
        }
    }
}

/// Appends the wire form of the natural number `n` to `out`, and returns
/// its length.
pub fn write_nat0(out: &mut Vec<u8>, n: u64) -> (written: usize)
    ensures
        final(out)@ == old(out)@ + nat0_bytes(n as nat),
        written == nat0_size(n as nat),
{
    proof {
        lemma_nat0_size(n as nat);
    }
    if n < 0x80 {
        out.push(n as u8);
        assert(out@ =~= old(out)@ + nat0_bytes(n as nat));
        1
    } else if n < 0x1_0000 {
        out.push(CODE_INT16);
        let field = u16_to_le(n as u16);
        append_bytes(out, field.as_slice());
        assert(out@ =~= old(out)@ + nat0_bytes(n as nat));
        3
    } else if n < 0x1_0000_0000 {
        out.push(CODE_INT32);
        let field = u32_to_le(n as u32);
        append_bytes(out, field.as_slice());
        assert(out@ =~= old(out)@ + nat0_bytes(n as nat));
        5
    } else {
        out.push(CODE_INT64);
        let field = u64_to_le(n);
        append_bytes(out, field.as_slice());
        assert(out@ =~= old(out)@ + nat0_bytes(n as nat));
        9
    }
}

/// Reads one integer from the front of `buf`: the value and the number of
/// bytes taken, or the error and the number of bytes taken before it.
pub fn read_integer(buf: &[u8]) -> (r: Result<(i64, usize), (ErrorCode, usize)>)
    ensures
        r == in_machine_terms(parse_integer(buf@)),
        consumed(parse_integer(buf@)) <= buf@.len(),
{
    proof {
        lemma_parse_integer_range(buf@);
    }
    let len: usize = buf.len();
    if len == 0 {
        return Err((ErrorCode::EofWhileParsing, 0));
    }
    let first: u8 = buf[0];
    if first == CODE_INT16 {
        if len < 3 {
            return Err((ErrorCode::EofWhileParsing, 1));
        }
        let field = slice_subrange(buf, 1, 3);
        assert(field@.subrange(0, 2) =~= buf@.subrange(1, 3));
        let v: i16 = read_i16_le(field);
        Ok((v as i64, 3))
    } else if first == CODE_INT32 {
        if len < 5 {
            return Err((ErrorCode::EofWhileParsing, 1));
        }
        let field = slice_subrange(buf, 1, 5);
        assert(field@.subrange(0, 4) =~= buf@.subrange(1, 5));
        let v: i32 = read_i32_le(field);
        Ok((v as i64, 5))
    } else if first == CODE_INT64 {
        if len < 9 {
            return Err((ErrorCode::EofWhileParsing, 1));
        }
        let field = slice_subrange(buf, 1, 9);
        assert(field@.subrange(0, 8) =~= buf@.subrange(1, 9));
        let v: i64 = read_i64_le(field);
        Ok((v, 9))
    } else if first == CODE_NEG_INT8 {
        if len < 2 {
            return Err((ErrorCode::EofWhileParsing, 1));
        }
        let low: u8 = buf[1];
        if low < 0x80 {
            return Err((ErrorCode::IntegerSizeMismatch, 2));
        }
        let v: i64 = low as i64 - 0x100;
        Ok((v, 2))
    } else if first < 0x80 {
        Ok((first as i64, 1))
    } else {
        Err((ErrorCode::InvalidIntegerPrefix, 1))
    }
}

/// Reads one natural number from the front of `buf`: the value and the
/// number of bytes taken, or the error and the number of bytes taken before
/// it.
pub fn read_nat0(buf: &[u8]) -> (r: Result<(u64, usize), (ErrorCode, usize)>)
    ensures
        r == in_machine_terms(parse_nat0(buf@)),
        consumed(parse_nat0(buf@)) <= buf@.len(),
{
    proof {
        lemma_parse_nat0_range(buf@);
    }
    let len: usize = buf.len();
    if len == 0 {
        return Err((ErrorCode::EofWhileParsing, 0));
    }
    let first: u8 = buf[0];
    if first == CODE_INT16 {
        if len < 3 {
            return Err((ErrorCode::EofWhileParsing, 1));
        }
        let field = slice_subrange(buf, 1, 3);
        assert(field@.subrange(0, 2) =~= buf@.subrange(1, 3));
        let v: u16 = read_u16_le(field);
        Ok((v as u64, 3))
    } else if first == CODE_INT32 {
        if len < 5 {
            return Err((ErrorCode::EofWhileParsing, 1));
        }
        let field = slice_subrange(buf, 1, 5);
        assert(field@.subrange(0, 4) =~= buf@.subrange(1, 5));
        let v: u32 = read_u32_le(field);
        Ok((v as u64, 5))
    } else if first == CODE_INT64 {
        if len < 9 {
            return Err((ErrorCode::EofWhileParsing, 1));
        }
        let field = slice_subrange(buf, 1, 9);
        assert(field@.subrange(0, 8) =~= buf@.subrange(1, 9));
        let v: u64 = read_u64_le(field);
        Ok((v, 9))
    } else if first < 0x80 {
        Ok((first as u64, 1))
    } else {
        Err((ErrorCode::InvalidIntegerPrefix, 1))
    }
}

} // verus!
