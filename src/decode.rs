//! Fixed-width little-endian integer decoders over byte slices.
use vstd::prelude::*;

verus! {

/// The unsigned little-endian value of the first four bytes of `b`.
pub open spec fn le_u32(b: Seq<u8>) -> int {
    b[0] as int + 0x100 * b[1] as int + 0x1_0000 * b[2] as int + 0x100_0000 * b[3] as int
}

/// The two's-complement value of the first four bytes of `b`, little-endian.
pub open spec fn le_i32(b: Seq<u8>) -> int {
    if le_u32(b) >= 0x8000_0000 {
        le_u32(b) - 0x1_0000_0000
    } else {
        le_u32(b)
    }
}

/// The two's-complement value of the first two bytes of `b`, little-endian.
pub open spec fn le_i16(b: Seq<u8>) -> int {
    let u = b[0] as int + 0x100 * b[1] as int;
    if u >= 0x8000 {
        u - 0x1_0000
    } else {
        u
    }
}

/// Reads an unsigned 32-bit little-endian integer from the first four bytes.
pub fn i32u(data: &[u8]) -> (r: u32)
    requires
        data@.len() >= 4,
    ensures
        r as int == le_u32(data@),
{
    data[0] as u32 + 0x100 * (data[1] as u32) + 0x1_0000 * (data[2] as u32) + 0x100_0000 * (
    data[3] as u32)
}

/// Reads a signed 32-bit little-endian integer from the first four bytes.
pub fn i32s(data: &[u8]) -> (r: i32)
    requires
        data@.len() >= 4,
    ensures
        r as int == le_i32(data@),
{
    let u = i32u(data);
    if u >= 0x8000_0000 {
        ((u - 0x8000_0000) as i32) + i32::MIN
    } else {
        u as i32
    }
}

/// Reads a signed 16-bit little-endian integer from the first two bytes.
pub fn i16s(data: &[u8]) -> (r: i16)
    requires
        data@.len() >= 2,
    ensures
        r as int == le_i16(data@),
{
    let u: u16 = data[0] as u16 + 0x100 * (data[1] as u16);
    if u >= 0x8000 {
        ((u - 0x8000) as i16) + i16::MIN
    } else {
        u as i16
    }
}

} // verus!
