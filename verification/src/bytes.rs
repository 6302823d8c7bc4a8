//! Big-endian unsigned integers read from a byte sequence.

use vstd::prelude::*;

verus! {

/// The 16-bit big-endian number held by `s[at]` and `s[at + 1]`.
pub open spec fn be_u16_at(s: Seq<u8>, at: int) -> int {
    s[at] as int * 0x100 + s[at + 1] as int
}

/// The 24-bit big-endian number held by the three bytes from `s[at]` on.
pub open spec fn be_u24_at(s: Seq<u8>, at: int) -> int {
    s[at] as int * 0x1_0000 + s[at + 1] as int * 0x100 + s[at + 2] as int
}

/// The 32-bit big-endian number held by the four bytes from `s[at]` on.
pub open spec fn be_u32_at(s: Seq<u8>, at: int) -> int {
    s[at] as int * 0x100_0000 + s[at + 1] as int * 0x1_0000 + s[at + 2] as int * 0x100 + s[at
        + 3] as int
}

/// Reads a big-endian `u16` at offset `at`.
pub(crate) fn read_be_u16(input: &[u8], at: usize) -> (value: u16)
    requires
        at + 2 <= input@.len(),
    ensures
        value as int == be_u16_at(input@, at as int),
{
    let hi: u16 = input[at] as u16;
    let lo: u16 = input[at + 1] as u16;
    hi * 0x100 + lo
}

/// Reads a big-endian 24-bit number at offset `at`.
pub(crate) fn read_be_u24(input: &[u8], at: usize) -> (value: u32)
    requires
        at + 3 <= input@.len(),
    ensures
        value as int == be_u24_at(input@, at as int),
        value < 0x100_0000,
{
    let b0: u32 = input[at] as u32;
    let b1: u32 = input[at + 1] as u32;
    let b2: u32 = input[at + 2] as u32;
    b0 * 0x1_0000 + b1 * 0x100 + b2
}

/// Reads a big-endian `u32` at offset `at`.
pub(crate) fn read_be_u32(input: &[u8], at: usize) -> (value: u32)
    requires
        at + 4 <= input@.len(),
    ensures
        value as int == be_u32_at(input@, at as int),
{
    let b0: u32 = input[at] as u32;
    let b1: u32 = input[at + 1] as u32;
    let b2: u32 = input[at + 2] as u32;
    let b3: u32 = input[at + 3] as u32;
    b0 * 0x100_0000 + b1 * 0x1_0000 + b2 * 0x100 + b3
}

} // verus!
