//! Little-endian integer decoding shared by the on-disk and firmware parsers.
use vstd::prelude::*;

verus! {

/// The little-endian value of the two bytes of `s` starting at `off`.
pub open spec fn le_u16(s: Seq<u8>, off: int) -> int {
    s[off] + 256 * s[off + 1]
}

/// The little-endian value of the four bytes of `s` starting at `off`.
pub open spec fn le_u32(s: Seq<u8>, off: int) -> int {
    le_u16(s, off) + 65536 * le_u16(s, off + 2)
}

/// The little-endian value of the eight bytes of `s` starting at `off`.
pub open spec fn le_u64(s: Seq<u8>, off: int) -> int {
    le_u32(s, off) + 4294967296 * le_u32(s, off + 4)
}

/// Reads a little-endian `u16` at `offset`.
pub fn read_u16_le(input: &[u8], offset: usize) -> (r: u16)
    requires
        offset + 2 <= input.len(),
    ensures
        r as int == le_u16(input@, offset as int),
{
    let lo = input[offset] as u16;
    let hi = input[offset + 1] as u16;
    lo + hi * 256
}

/// Reads a little-endian `u32` at `offset`.
pub fn read_u32_le(input: &[u8], offset: usize) -> (r: u32)
    requires
        offset + 4 <= input.len(),
    ensures
        r as int == le_u32(input@, offset as int),
{
    let lo = read_u16_le(input, offset) as u32;
    let hi = read_u16_le(input, offset + 2) as u32;
    lo + hi * 65536
}

/// Reads a little-endian `u64` at `offset`.
pub fn read_u64_le(input: &[u8], offset: usize) -> (r: u64)
    requires
        offset + 8 <= input.len(),
    ensures
        r as int == le_u64(input@, offset as int),
{
    let lo = read_u32_le(input, offset) as u64;
    let hi = read_u32_le(input, offset + 4) as u64;
    lo + hi * 4294967296
}

} // verus!
