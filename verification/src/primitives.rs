//! The wire forms of the values that are neither integers nor made of
//! parts: unit, booleans, characters and floats.
//!
//! A float is handled as its IEEE-754 bit pattern, so that every pattern,
//! those of NaN too, comes back as it went out.

use crate::endian::{
    le_bytes, le_value, lemma_le_bytes_len, lemma_le_value_of_bytes, lemma_radix_values,
};
use crate::error::ErrorCode;
use crate::integers::{
    lemma_nat0_round_trip, lemma_nat0_size, nat0_bytes, nat0_size, parse_integer, parse_nat0,
    Parsed,
};
use vstd::prelude::*;
use vstd::string::StringSliceAdditionalSpecFns;
use vstd::utf8::{
    decode_utf8, encode_scalar, encode_utf8, encode_utf8_decode_utf8, encode_utf8_first_scalar,
    encode_utf8_valid_utf8, valid_utf8,
};

verus! {

/// The wire form of unit.
pub open spec fn unit_bytes() -> Seq<u8> {
    seq![0x00u8]
}

/// The wire form of the boolean `b`.
pub open spec fn bool_bytes(b: bool) -> Seq<u8> {
    seq![if b { 0x01u8 } else { 0x00u8 }]
}

/// The wire form of the character `c`: its UTF-8 form, one to four bytes.
pub open spec fn char_bytes(c: char) -> Seq<u8> {
    encode_scalar(c as u32)
}

/// The wire form of the 32-bit float with the bit pattern `bits`.
pub open spec fn float32_bytes(bits: u32) -> Seq<u8> {
    le_bytes(bits as nat, 4)
}

/// The wire form of the 64-bit float with the bit pattern `bits`.
pub open spec fn float64_bytes(bits: u64) -> Seq<u8> {
    le_bytes(bits as nat, 8)
}

/// Unit read from the front of `s`.
pub open spec fn parse_unit(s: Seq<u8>) -> Parsed<()> {
    if s.len() == 0 {
        Err((ErrorCode::EofWhileParsing, 0))
    } else if s[0] == 0x00 {
        Ok(((), 1))
    } else {
        Err((ErrorCode::InvalidUnitByte, 1))
    }
}

/// A boolean read from the front of `s`.
pub open spec fn parse_bool(s: Seq<u8>) -> Parsed<bool> {
    if s.len() == 0 {
        Err((ErrorCode::EofWhileParsing, 0))
    } else if s[0] == 0x00 {
        Ok((false, 1))
    } else if s[0] == 0x01 {
        Ok((true, 1))
    } else {
        Err((ErrorCode::InvalidBoolByte, 1))
    }
}

/// A character read from the front of `s`, given that none of the first
/// `tried` bytes, nor fewer of them, are the UTF-8 form of a character.
///
/// One more byte is taken at a time. The first prefix that is valid UTF-8
/// gives the character; when four bytes have given none, the read fails.
#[verifier::opaque]
pub open spec fn parse_char_after(s: Seq<u8>, tried: nat) -> Parsed<char>
    decreases 4 - tried,
{
    if tried >= 4 {
        Err((ErrorCode::InvalidUtf8Char, 4))
    } else if s.len() <= tried {
        Err((ErrorCode::EofWhileParsing, tried))
    } else if valid_utf8(s.take(tried as int + 1)) {
        Ok((decode_utf8(s.take(tried as int + 1))[0], tried + 1))
    } else {
        parse_char_after(s, tried + 1)
    }
}

/// A character read from the front of `s`.
pub open spec fn parse_char(s: Seq<u8>) -> Parsed<char> {
    parse_char_after(s, 0)
}

/// The field of `width` bytes at the front of `s`.
pub open spec fn parse_field(s: Seq<u8>, width: nat) -> Parsed<nat> {
    if s.len() < width {
        Err((ErrorCode::EofWhileParsing, 0))
    } else {
        Ok((le_value(s.take(width as int)), width))
    }
}

/// The bit pattern of a 32-bit float read from the front of `s`.
pub open spec fn parse_float32(s: Seq<u8>) -> Parsed<u32> {
    match parse_field(s, 4) {
        Ok((x, used)) => Ok((x as u32, used)),
        Err(e) => Err(e),
    }
}

/// The bit pattern of a 64-bit float read from the front of `s`.
pub open spec fn parse_float64(s: Seq<u8>) -> Parsed<u64> {
    match parse_field(s, 8) {
        Ok((x, used)) => Ok((x as u64, used)),
        Err(e) => Err(e),
    }
}

/// A byte string read from the front of `s`: its length as a natural
/// number, then that many bytes.
pub open spec fn parse_bytes(s: Seq<u8>) -> Parsed<Seq<u8>> {
    match parse_nat0(s) {
        Ok((n, used)) => if s.len() - used < n {
            Err((ErrorCode::EofWhileParsing, used))
        } else {
            Ok((s.subrange(used as int, used + n), used + n as nat))
        },
        Err(e) => Err(e),
    }
}

/// The wire form of the byte string `b`: its length as a natural number,
/// then the bytes.
pub open spec fn bytes_bytes(b: Seq<u8>) -> Seq<u8> {
    nat0_bytes(b.len()) + b
}

/// The number of bytes that the selector of a sum with `variants` variants
/// takes: one up to 256 variants, two beyond.
pub open spec fn selector_width(variants: nat) -> nat {
    if variants <= 0x100 {
        1
    } else {
        2
    }
}

/// The wire form of the selector `index` of a sum with `variants`
/// variants.
pub open spec fn selector_bytes(index: nat, variants: nat) -> Seq<u8> {
    le_bytes(index, selector_width(variants))
}

/// The selector of a sum with `variants` variants read from the front of
/// `s`.
pub open spec fn parse_selector(s: Seq<u8>, variants: nat) -> Parsed<u16> {
    match parse_field(s, selector_width(variants)) {
        Ok((k, used)) => if k < variants {
            Ok((k as u16, used))
        } else {
            Err((ErrorCode::InvalidVariantIndex, used))
        },
        Err(e) => Err(e),
    }
}

/// The length of a sequence read from the front of `s`, for a machine whose
/// largest length is `limit`.
pub open spec fn parse_length(s: Seq<u8>, limit: nat) -> Parsed<usize> {
    match parse_nat0(s) {
        Ok((n, used)) => if n <= limit {
            Ok((n as usize, used))
        } else {
            Err((ErrorCode::IntegerSizeMismatch, used))
        },
        Err(e) => Err(e),
    }
}

/// An integer read from the front of `s` for a type that holds the numbers
/// from `min` to `max`.
pub open spec fn parse_integer_within(s: Seq<u8>, min: int, max: int) -> Parsed<i64> {
    match parse_integer(s) {
        Ok((v, used)) => if min <= v <= max {
            Ok((v, used))
        } else {
            Err((ErrorCode::IntegerSizeMismatch, used))
        },
        Err(e) => Err(e),
    }
}

/// Round trip: encoded unit, whatever follows it, is read back as unit.
pub proof fn lemma_unit_round_trip(rest: Seq<u8>)
    ensures
        parse_unit(unit_bytes() + rest) == Ok::<((), nat), (ErrorCode, nat)>(((), 1)),
{
    assert((unit_bytes() + rest)[0] == 0x00u8);
}

/// Round trip: an encoded boolean, whatever follows it, is read back as
/// the boolean.
pub proof fn lemma_bool_round_trip(b: bool, rest: Seq<u8>)
    ensures
        parse_bool(bool_bytes(b) + rest) == Ok::<(bool, nat), (ErrorCode, nat)>((b, 1)),
{
    assert((bool_bytes(b) + rest)[0] == bool_bytes(b)[0]);
}

/// Round trip: an encoded character, whatever follows it, is read back as
/// the character, and the reader takes exactly the bytes of its wire form.
pub proof fn lemma_char_round_trip(c: char, rest: Seq<u8>)
    ensures
        parse_char(char_bytes(c) + rest) == Ok::<(char, nat), (ErrorCode, nat)>(
            (c, char_bytes(c).len()),
        ),
{
    let e = char_bytes(c);
    let s = e + rest;
    let w = e.len();
    let chars = seq![c];
    assert(encode_utf8(chars) =~= e) by {
        assert(chars.drop_first() =~= Seq::<char>::empty());
        reveal_with_fuel(encode_utf8, 2);
    }
    encode_utf8_first_scalar(chars);
    encode_utf8_valid_utf8(chars);
    encode_utf8_decode_utf8(chars);
    assert(s.take(w as int) =~= e);
    assert forall|k: int| 1 <= k < w implies !valid_utf8(#[trigger] s.take(k)) by {
        let p = s.take(k);
        assert(p[0] == e[0]);
        assert(p.len() == k);
    }
    reveal_with_fuel(parse_char_after, 5);
    if w >= 2 {
        assert(!valid_utf8(s.take(1)));
    }
    if w >= 3 {
        assert(!valid_utf8(s.take(2)));
    }
    if w >= 4 {
        assert(!valid_utf8(s.take(3)));
    }
}

/// A read of a character fails only for want of bytes or of a valid
/// form.
pub proof fn lemma_parse_char_errors(s: Seq<u8>)
    ensures
        parse_char(s) matches Err((code, at)) ==> (code is EofWhileParsing
            || code is InvalidUtf8Char) && at <= 4,
        parse_char(s) matches Ok((_, used)) ==> 1 <= used <= 4,
{
    reveal_with_fuel(parse_char_after, 5);
}

/// Round trip: an encoded 32-bit float, whatever follows it, is read back
/// with the same bit pattern.
pub proof fn lemma_float32_round_trip(bits: u32, rest: Seq<u8>)
    ensures
        parse_float32(float32_bytes(bits) + rest) == Ok::<(u32, nat), (ErrorCode, nat)>((bits, 4)),
{
    lemma_radix_values();
    lemma_le_bytes_len(bits as nat, 4);
    lemma_le_value_of_bytes(bits as nat, 4);
    assert((float32_bytes(bits) + rest).take(4) =~= float32_bytes(bits));
}

/// Round trip: an encoded 64-bit float, whatever follows it, is read back
/// with the same bit pattern.
pub proof fn lemma_float64_round_trip(bits: u64, rest: Seq<u8>)
    ensures
        parse_float64(float64_bytes(bits) + rest) == Ok::<(u64, nat), (ErrorCode, nat)>((bits, 8)),
{
    lemma_radix_values();
    lemma_le_bytes_len(bits as nat, 8);
    lemma_le_value_of_bytes(bits as nat, 8);
    assert((float64_bytes(bits) + rest).take(8) =~= float64_bytes(bits));
}

/// Round trip: an encoded byte string, whatever follows it, is read back
/// as the byte string.
pub proof fn lemma_bytes_round_trip(b: Seq<u8>, rest: Seq<u8>)
    requires
        b.len() <= u64::MAX,
    ensures
        parse_bytes(bytes_bytes(b) + rest) == Ok::<(Seq<u8>, nat), (ErrorCode, nat)>(
            (b, bytes_bytes(b).len()),
        ),
{
    let n = b.len() as u64;
    let s = bytes_bytes(b) + rest;
    lemma_nat0_size(n as nat);
    assert(s =~= nat0_bytes(n as nat) + (b + rest));
    lemma_nat0_round_trip(n, b + rest);
    let used = nat0_size(n as nat);
    assert(s.subrange(used as int, used + n) =~= b);
}

/// Round trip: the encoded length of a sequence, whatever follows it, is
/// read back as the length.
pub proof fn lemma_length_round_trip(len: usize, rest: Seq<u8>)
    ensures
        parse_length(nat0_bytes(len as nat) + rest, usize::MAX as nat) == Ok::<
            (usize, nat),
            (ErrorCode, nat),
        >((len, nat0_size(len as nat))),
{
    lemma_nat0_round_trip(len as u64, rest);
}

/// Round trip: the encoded selector of a variant, whatever follows it, is
/// read back as the variant's index.
pub proof fn lemma_selector_round_trip(index: nat, variants: nat, rest: Seq<u8>)
    requires
        index < variants,
        index < 0x1_0000,
    ensures
        parse_selector(selector_bytes(index, variants) + rest, variants) == Ok::<
            (u16, nat),
            (ErrorCode, nat),
        >((index as u16, selector_width(variants))),
{
    let w = selector_width(variants);
    lemma_radix_values();
    lemma_le_bytes_len(index, w);
    lemma_le_value_of_bytes(index, w);
    assert((selector_bytes(index, variants) + rest).take(w as int) =~= selector_bytes(
        index,
        variants,
    ));
}

/// `char::encode_utf8`, into a buffer of four bytes: the UTF-8 form of `c`.
#[verifier::external_body]
pub(crate) fn char_to_utf8(c: char) -> (r: Vec<u8>)
    ensures
        r@ == encode_scalar(c as u32),
{
    let mut buf = [0u8; 4];
    c.encode_utf8(&mut buf).as_bytes().to_vec()
}

/// `core::str::from_utf8`: `bytes` as a string, when they are valid UTF-8,
/// and nothing when they are not.
#[verifier::external_body]
pub(crate) fn str_from_utf8(bytes: &[u8]) -> (r: Option<&str>)
    ensures
        r is Some <==> valid_utf8(bytes@),
        r matches Some(s) ==> s.spec_bytes() == bytes@,
{
    core::str::from_utf8(bytes).ok()
}

} // verus!
