//! Little-endian integers, read through the `byteorder` crate.

use byteorder::{ByteOrder, LittleEndian};
use vstd::prelude::*;

verus! {

/// The unsigned integer that the first four bytes of `s` hold, least
/// significant byte first.
pub open spec fn le_u32(s: Seq<u8>) -> int {
    s[0] + 0x100 * s[1] + 0x1_0000 * s[2] + 0x100_0000 * s[3]
}

/// The unsigned integer that the first eight bytes of `s` hold, least
/// significant byte first.
pub open spec fn le_u64(s: Seq<u8>) -> int {
    le_u32(s) + 0x1_0000_0000 * le_u32(s.skip(4))
}

/// The signed integer with the same 32 bits in two's complement as the
/// unsigned integer `u`.
pub open spec fn signed32(u: int) -> int {
    if u < 0x8000_0000 {
        u
    } else {
        u - 0x1_0000_0000
    }
}

/// The signed integer with the same 64 bits in two's complement as the
/// unsigned integer `u`.
pub open spec fn signed64(u: int) -> int {
    if u < 0x8000_0000_0000_0000 {
        u
    } else {
        u - 0x1_0000_0000_0000_0000
    }
}

/// `byteorder::LittleEndian::read_u32`, which panics on fewer than four
/// bytes. Trusted: the result is the little-endian value of the first four
/// bytes of `buf`.
#[verifier::external_body]
pub(crate) fn read_u32(buf: &[u8]) -> (r: u32)
    requires
        buf@.len() >= 4,
    ensures
        r == le_u32(buf@),
{
    LittleEndian::read_u32(buf)
}

/// `byteorder::LittleEndian::read_i32`, which panics on fewer than four
/// bytes. Trusted: the result is the little-endian value of the first four
/// bytes of `buf`, taken as two's complement.
#[verifier::external_body]
pub(crate) fn read_i32(buf: &[u8]) -> (r: i32)
    requires
        buf@.len() >= 4,
    ensures
        r == signed32(le_u32(buf@)),
{
    LittleEndian::read_i32(buf)
}

/// `byteorder::LittleEndian::read_u64`, which panics on fewer than eight
/// bytes. Trusted: the result is the little-endian value of the first eight
/// bytes of `buf`.
#[verifier::external_body]
pub(crate) fn read_u64(buf: &[u8]) -> (r: u64)
    requires
        buf@.len() >= 8,
    ensures
        r == le_u64(buf@),
{
    LittleEndian::read_u64(buf)
}

/// `byteorder::LittleEndian::read_i64`, which panics on fewer than eight
/// bytes. Trusted: the result is the little-endian value of the first eight
/// bytes of `buf`, taken as two's complement.
#[verifier::external_body]
pub(crate) fn read_i64(buf: &[u8]) -> (r: i64)
    requires
        buf@.len() >= 8,
    ensures
        r == signed64(le_u64(buf@)),
{
    LittleEndian::read_i64(buf)
}

} // verus!
