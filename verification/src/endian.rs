//! Little-endian fields of fixed width.
//!
//! The model is arithmetic: [`le_value`] is the number that a byte sequence
//! spells, [`le_bytes`] the bytes that spell a number in a given width. The
//! executable conversions are those of the `byteorder` crate.

use byteorder::{ByteOrder, LittleEndian};
use vstd::prelude::*;

verus! {

/// The number of values that `width` bytes can hold: 256 to the `width`.
pub open spec fn radix(width: nat) -> nat
    decreases width,
{
    if width == 0 {
        1
    } else {
        256 * radix((width - 1) as nat)
    }
}

/// The number that `s` spells, least significant byte first.
pub open spec fn le_value(s: Seq<u8>) -> nat
    decreases s.len(),
{
    if s.len() == 0 {
        0
    } else {
        s[0] as nat + 256 * le_value(s.skip(1))
    }
}

/// The `width` low bytes of `n`, least significant first.
pub open spec fn le_bytes(n: nat, width: nat) -> Seq<u8>
    decreases width,
{
    if width == 0 {
        Seq::empty()
    } else {
        seq![(n % 256) as u8] + le_bytes(n / 256, (width - 1) as nat)
    }
}

/// The number that the `width`-byte pattern `x` stands for in two's
/// complement.
pub open spec fn signed_of(x: nat, width: nat) -> int {
    if 2 * x < radix(width) {
        x as int
    } else {
        x - radix(width)
    }
}

/// The `width`-byte two's complement pattern of `v`.
pub open spec fn pattern_of(v: int, width: nat) -> nat {
    if v >= 0 {
        v as nat
    } else {
        (v + radix(width)) as nat
    }
}

/// The radix of the widths in use.
pub proof fn lemma_radix_values()
    ensures
        radix(1) == 0x100,
        radix(2) == 0x1_0000,
        radix(4) == 0x1_0000_0000,
        radix(8) == 0x1_0000_0000_0000_0000,
{
    reveal_with_fuel(radix, 9);
}

/// `le_bytes` yields as many bytes as asked for.
pub proof fn lemma_le_bytes_len(n: nat, width: nat)
    ensures
        le_bytes(n, width).len() == width,
    decreases width,
{
    if width > 0 {
        lemma_le_bytes_len(n / 256, (width - 1) as nat);
    }
}

/// A sequence of bytes spells a number below the radix of its length.
pub proof fn lemma_le_value_bound(s: Seq<u8>)
    ensures
        le_value(s) < radix(s.len()),
    decreases s.len(),
{
    if s.len() > 0 {
        lemma_le_value_bound(s.skip(1));
    }
}

/// Reading back the bytes of a number that fits the width gives the number.
pub proof fn lemma_le_value_of_bytes(n: nat, width: nat)
    requires
        n < radix(width),
    ensures
        le_value(le_bytes(n, width)) == n,
    decreases width,
{
    if width > 0 {
        let rest = le_bytes(n / 256, (width - 1) as nat);
        let all = le_bytes(n, width);
        lemma_le_value_of_bytes(n / 256, (width - 1) as nat);
        assert(all.skip(1) =~= rest);
        assert(all[0] == (n % 256) as u8);
    }
}

/// `byteorder::LittleEndian::read_u16`: the first two bytes of `buf`, read
/// least significant first.
#[verifier::external_body]
pub(crate) fn read_u16_le(buf: &[u8]) -> (r: u16)
    requires
        buf@.len() >= 2,
    ensures
        r as nat == le_value(buf@.subrange(0, 2)),
{
    LittleEndian::read_u16(buf)
}

/// `byteorder::LittleEndian::read_u32`: the first four bytes of `buf`, read
/// least significant first.
#[verifier::external_body]
pub(crate) fn read_u32_le(buf: &[u8]) -> (r: u32)
    requires
        buf@.len() >= 4,
    ensures
        r as nat == le_value(buf@.subrange(0, 4)),
{
    LittleEndian::read_u32(buf)
}

/// `byteorder::LittleEndian::read_u64`: the first eight bytes of `buf`,
/// read least significant first.
#[verifier::external_body]
pub(crate) fn read_u64_le(buf: &[u8]) -> (r: u64)
    requires
        buf@.len() >= 8,
    ensures
        r as nat == le_value(buf@.subrange(0, 8)),
{
    LittleEndian::read_u64(buf)
}

/// `byteorder::LittleEndian::read_i16`: the first two bytes of `buf`, read
/// least significant first as a two's complement number.
#[verifier::external_body]
pub(crate) fn read_i16_le(buf: &[u8]) -> (r: i16)
    requires
        buf@.len() >= 2,
    ensures
        r as int == signed_of(le_value(buf@.subrange(0, 2)), 2),
{
    LittleEndian::read_i16(buf)
}

/// `byteorder::LittleEndian::read_i32`: the first four bytes of `buf`, read
/// least significant first as a two's complement number.
#[verifier::external_body]
pub(crate) fn read_i32_le(buf: &[u8]) -> (r: i32)
    requires
        buf@.len() >= 4,
    ensures
        r as int == signed_of(le_value(buf@.subrange(0, 4)), 4),
{
    LittleEndian::read_i32(buf)
}

/// `byteorder::LittleEndian::read_i64`: the first eight bytes of `buf`,
/// read least significant first as a two's complement number.
#[verifier::external_body]
pub(crate) fn read_i64_le(buf: &[u8]) -> (r: i64)
    requires
        buf@.len() >= 8,
    ensures
        r as int == signed_of(le_value(buf@.subrange(0, 8)), 8),
{
    LittleEndian::read_i64(buf)
}

/// `byteorder::LittleEndian::write_u16` into a buffer of two bytes: the two
/// bytes of `n`, least significant first.
#[verifier::external_body]
pub(crate) fn u16_to_le(n: u16) -> (r: [u8; 2])
    ensures
        r@ == le_bytes(n as nat, 2),
{
    let mut buf = [0u8; 2];
    LittleEndian::write_u16(&mut buf, n);
    buf
}

/// `byteorder::LittleEndian::write_u32` into a buffer of four bytes: the
/// four bytes of `n`, least significant first.
#[verifier::external_body]
pub(crate) fn u32_to_le(n: u32) -> (r: [u8; 4])
    ensures
        r@ == le_bytes(n as nat, 4),
{
    let mut buf = [0u8; 4];
    LittleEndian::write_u32(&mut buf, n);
    buf
}

/// `byteorder::LittleEndian::write_u64` into a buffer of eight bytes: the
/// eight bytes of `n`, least significant first.
#[verifier::external_body]
pub(crate) fn u64_to_le(n: u64) -> (r: [u8; 8])
    ensures
        r@ == le_bytes(n as nat, 8),
{
    let mut buf = [0u8; 8];
    LittleEndian::write_u64(&mut buf, n);
    buf
}

/// `byteorder::LittleEndian::write_i16` into a buffer of two bytes: the two
/// bytes of the two's complement pattern of `n`, least significant first.
#[verifier::external_body]
pub(crate) fn i16_to_le(n: i16) -> (r: [u8; 2])
    ensures
        r@ == le_bytes(pattern_of(n as int, 2), 2),
{
    let mut buf = [0u8; 2];
    LittleEndian::write_i16(&mut buf, n);
    buf
}

/// `byteorder::LittleEndian::write_i32` into a buffer of four bytes: the
/// four bytes of the two's complement pattern of `n`, least significant
/// first.
#[verifier::external_body]
pub(crate) fn i32_to_le(n: i32) -> (r: [u8; 4])
    ensures
        r@ == le_bytes(pattern_of(n as int, 4), 4),
{
    let mut buf = [0u8; 4];
    LittleEndian::write_i32(&mut buf, n);
    buf
}

/// `byteorder::LittleEndian::write_i64` into a buffer of eight bytes: the
/// eight bytes of the two's complement pattern of `n`, least significant
/// first.
#[verifier::external_body]
pub(crate) fn i64_to_le(n: i64) -> (r: [u8; 8])
    ensures
        r@ == le_bytes(pattern_of(n as int, 8), 8),
{
    let mut buf = [0u8; 8];
    LittleEndian::write_i64(&mut buf, n);
    buf
}

} // verus!
