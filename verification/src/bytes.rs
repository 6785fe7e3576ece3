//! Little-endian field extraction from flat byte buffers.

use vstd::prelude::*;
use vstd::slice::slice_index_get;

verus! {

/// The unsigned 16-bit value stored little-endian at offset `i` of `s`.
pub open spec fn u16_le(s: Seq<u8>, i: int) -> nat
    recommends
        0 <= i,
        i + 2 <= s.len(),
{
    (s[i] + 256 * s[i + 1]) as nat
}

/// The unsigned 32-bit value stored little-endian at offset `i` of `s`.
pub open spec fn u32_le(s: Seq<u8>, i: int) -> nat
    recommends
        0 <= i,
        i + 4 <= s.len(),
{
    u16_le(s, i) + 0x1_0000 * u16_le(s, i + 2)
}

/// The two's-complement 32-bit value stored little-endian at offset `i` of `s`.
pub open spec fn i32_le(s: Seq<u8>, i: int) -> int
    recommends
        0 <= i,
        i + 4 <= s.len(),
{
    if u32_le(s, i) >= 0x8000_0000 {
        u32_le(s, i) - 0x1_0000_0000
    } else {
        u32_le(s, i) as int
    }
}

pub fn read_u16_le(s: &[u8], i: usize) -> (r: u16)
    requires
        i + 2 <= s.len(),
    ensures
        r == u16_le(s@, i as int),
{
    let lo: u16 = *slice_index_get(s, i) as u16;
    let hi: u16 = *slice_index_get(s, i + 1) as u16;
    lo + 256 * hi
}

pub fn read_u32_le(s: &[u8], i: usize) -> (r: u32)
    requires
        i + 4 <= s.len(),
    ensures
        r == u32_le(s@, i as int),
{
    let lo: u32 = read_u16_le(s, i) as u32;
    let hi: u32 = read_u16_le(s, i + 2) as u32;
    lo + 0x1_0000 * hi
}

} // verus!
