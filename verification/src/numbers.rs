//! Fixed-width integers as the format stores them, and the decimal text that
//! the decoder renders integers to.
//!
//! The multi-byte loads are those of the `byteorder` crate. The functions
//! that call it are believed, not proved: each states the value that the
//! crate computes as plain arithmetic over the bytes.

use byteorder::{BigEndian, ByteOrder, LittleEndian};
use vstd::prelude::*;

verus! {

/// Two bytes, least significant first, as a number.
pub open spec fn u16_le(s: Seq<u8>) -> int {
    s[0] + 0x100 * s[1]
}

/// Three bytes, least significant first, as a number.
pub open spec fn u24_le(s: Seq<u8>) -> int {
    s[0] + 0x100 * s[1] + 0x1_0000 * s[2]
}

/// Four bytes, least significant first, as a number.
pub open spec fn u32_le(s: Seq<u8>) -> int {
    s[0] + 0x100 * s[1] + 0x1_0000 * s[2] + 0x100_0000 * s[3]
}

/// Four bytes, most significant first, as a number.
pub open spec fn u32_be(s: Seq<u8>) -> int {
    s[3] + 0x100 * s[2] + 0x1_0000 * s[1] + 0x100_0000 * s[0]
}

/// Eight bytes, least significant first, as a number.
pub open spec fn u64_le(s: Seq<u8>) -> int {
    u32_le(s.subrange(0, 4)) + 0x1_0000_0000 * u32_le(s.subrange(4, 8))
}

/// The number that the low `8 * width` bits of `v` stand for in two's
/// complement; `v` is taken to lie below `256^width`.
pub open spec fn signed(v: int, width: nat) -> int {
    let half: int = if width == 1 {
        0x80
    } else if width == 2 {
        0x8000
    } else if width == 3 {
        0x80_0000
    } else if width == 4 {
        0x8000_0000
    } else {
        0x8000_0000_0000_0000
    };
    if v >= half {
        v - 2 * half
    } else {
        v
    }
}

/// `LittleEndian::read_u16`: the first two bytes, least significant first.
#[verifier::external_body]
pub(crate) fn load_u16_le(buf: &[u8]) -> (r: u16)
    requires
        buf@.len() >= 2,
    ensures
        r == u16_le(buf@),
{
    LittleEndian::read_u16(buf)
}

/// `LittleEndian::read_u32`: the first four bytes, least significant first.
#[verifier::external_body]
pub(crate) fn load_u32_le(buf: &[u8]) -> (r: u32)
    requires
        buf@.len() >= 4,
    ensures
        r == u32_le(buf@),
{
    LittleEndian::read_u32(buf)
}

/// `BigEndian::read_u32`: the first four bytes, most significant first.
#[verifier::external_body]
pub(crate) fn load_u32_be(buf: &[u8]) -> (r: u32)
    requires
        buf@.len() >= 4,
    ensures
        r == u32_be(buf@),
{
    BigEndian::read_u32(buf)
}

/// `LittleEndian::read_u64`: the first eight bytes, least significant first.
#[verifier::external_body]
pub(crate) fn load_u64_le(buf: &[u8]) -> (r: u64)
    requires
        buf@.len() >= 8,
    ensures
        r == u64_le(buf@),
{
    LittleEndian::read_u64(buf)
}

/// `LittleEndian::read_i16`: the first two bytes, least significant first,
/// in two's complement.
#[verifier::external_body]
pub(crate) fn load_i16_le(buf: &[u8]) -> (r: i16)
    requires
        buf@.len() >= 2,
    ensures
        r == signed(u16_le(buf@), 2),
{
    LittleEndian::read_i16(buf)
}

/// `LittleEndian::read_i32`: the first four bytes, least significant first,
/// in two's complement.
#[verifier::external_body]
pub(crate) fn load_i32_le(buf: &[u8]) -> (r: i32)
    requires
        buf@.len() >= 4,
    ensures
        r == signed(u32_le(buf@), 4),
{
    LittleEndian::read_i32(buf)
}

/// `LittleEndian::read_i64`: the first eight bytes, least significant first,
/// in two's complement.
#[verifier::external_body]
pub(crate) fn load_i64_le(buf: &[u8]) -> (r: i64)
    requires
        buf@.len() >= 8,
    ensures
        r == signed(u64_le(buf@), 8),
{
    LittleEndian::read_i64(buf)
}

/// The decimal digits of `n` as ASCII, most significant first, without
/// leading zeros; `0` is the one digit `0`.
pub open spec fn digits(n: nat) -> Seq<u8>
    decreases n,
{
    if n < 10 {
        seq![(48 + n) as u8]
    } else {
        digits(n / 10).push((48 + n % 10) as u8)
    }
}

/// The decimal text of `i`: a minus sign for a negative number, then the
/// digits of its magnitude.
pub open spec fn decimal_text(i: int) -> Seq<u8> {
    if i < 0 {
        seq![45u8] + digits((-i) as nat)
    } else {
        digits(i as nat)
    }
}

/// Renders `number` to its decimal digits.
pub fn decimal_u64(number: u64) -> (r: Vec<u8>)
    ensures
        r@ == digits(number as nat),
{
    let mut out: Vec<u8> = Vec::new();
    let mut rest: u64 = number;
    while rest >= 10
        invariant
            digits(number as nat) == digits(rest as nat) + out@,
        decreases rest,
    {
        let digit: u8 = 48 + (rest % 10) as u8;
        let ghost before: Seq<u8> = out@;
        out.insert(0, digit);
        proof {
            assert(out@ =~= seq![digit] + before);
            assert(digits(rest as nat) == digits((rest / 10) as nat).push(digit));
            assert(digits((rest / 10) as nat).push(digit) + before =~= digits((rest / 10) as nat)
                + out@);
        }
        rest = rest / 10;
    }
    let ghost before: Seq<u8> = out@;
    let lead: u8 = 48 + rest as u8;
    out.insert(0, lead);
    proof {
        assert(out@ =~= digits(rest as nat) + before);
    }
    out
}

/// Renders `number` to its decimal text.
pub fn decimal_bytes(number: i64) -> (r: Vec<u8>)
    ensures
        r@ == decimal_text(number as int),
{
    if number < 0 {
        let magnitude: u64 = (-(number + 1)) as u64 + 1;
        let mut out: Vec<u8> = decimal_u64(magnitude);
        let ghost unsigned: Seq<u8> = out@;
        out.insert(0, 45);
        proof {
            assert(out@ =~= seq![45u8] + unsigned);
        }
        out
    } else {
        decimal_u64(number as u64)
    }
}

/// Renders a 32-bit integer to its decimal text.
pub fn int_to_vec(number: i32) -> (r: Vec<u8>)
    ensures
        r@ == decimal_text(number as int),
{
    decimal_bytes(number as i64)
}

} // verus!
