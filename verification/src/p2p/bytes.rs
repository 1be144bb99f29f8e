//! Fixed-width integers on the wire: little-endian and big-endian byte
//! sequences, stated arithmetically.

use vstd::prelude::*;

verus! {

/// The two little-endian bytes of `x`.
pub open spec fn u16_le(x: u16) -> Seq<u8> {
    seq![(x % 256) as u8, (x / 256) as u8]
}

/// The two big-endian bytes of `x`.
pub open spec fn u16_be(x: u16) -> Seq<u8> {
    seq![(x / 256) as u8, (x % 256) as u8]
}

/// The four little-endian bytes of `x`.
pub open spec fn u32_le(x: u32) -> Seq<u8> {
    seq![
        (x % 256) as u8,
        (x / 0x100 % 256) as u8,
        (x / 0x1_0000 % 256) as u8,
        (x / 0x100_0000) as u8,
    ]
}

/// The eight little-endian bytes of `x`: those of its low half, then those
/// of its high half.
pub open spec fn u64_le(x: u64) -> Seq<u8> {
    u32_le((x % 0x1_0000_0000) as u32) + u32_le((x / 0x1_0000_0000) as u32)
}

/// The unsigned number with the same 64-bit two's-complement pattern as `x`.
pub open spec fn i64_bits(x: i64) -> u64 {
    if x >= 0 {
        x as u64
    } else {
        (x + 0x1_0000_0000_0000_0000) as u64
    }
}

/// The eight little-endian bytes of `x` in two's complement.
pub open spec fn i64_le(x: i64) -> Seq<u8> {
    u64_le(i64_bits(x))
}

/// The number whose little-endian bytes are `s[at]` and `s[at + 1]`.
pub open spec fn le_u16_at(s: Seq<u8>, at: int) -> int {
    s[at] + 0x100 * s[at + 1]
}

/// The number whose big-endian bytes are `s[at]` and `s[at + 1]`.
pub open spec fn be_u16_at(s: Seq<u8>, at: int) -> int {
    0x100 * s[at] + s[at + 1]
}

/// The number whose little-endian bytes are `s[at] .. s[at + 3]`.
pub open spec fn le_u32_at(s: Seq<u8>, at: int) -> int {
    s[at] + 0x100 * s[at + 1] + 0x1_0000 * s[at + 2] + 0x100_0000 * s[at + 3]
}

/// The number whose little-endian bytes are `s[at] .. s[at + 7]`.
pub open spec fn le_u64_at(s: Seq<u8>, at: int) -> int {
    le_u32_at(s, at) + 0x1_0000_0000 * le_u32_at(s, at + 4)
}

/// Reading back the little-endian bytes of a `u16` gives the number.
pub proof fn lemma_u16_le_round_trip(x: u16)
    ensures
        u16_le(x).len() == 2,
        le_u16_at(u16_le(x), 0) == x,
{
}

/// Reading back the big-endian bytes of a `u16` gives the number.
pub proof fn lemma_u16_be_round_trip(x: u16)
    ensures
        u16_be(x).len() == 2,
        be_u16_at(u16_be(x), 0) == x,
{
}

/// Reading back the little-endian bytes of a `u32` gives the number.
pub proof fn lemma_u32_le_round_trip(x: u32)
    ensures
        u32_le(x).len() == 4,
        le_u32_at(u32_le(x), 0) == x,
{
}

/// Reading back the little-endian bytes of a `u64` gives the number.
pub proof fn lemma_u64_le_round_trip(x: u64)
    ensures
        u64_le(x).len() == 8,
        le_u64_at(u64_le(x), 0) == x,
{
}

/// Reads a little-endian `u16` at `at`.
pub fn read_u16_le(data: &[u8], at: usize) -> (x: u16)
    requires
        at + 2 <= data@.len(),
    ensures
        x == le_u16_at(data@, at as int),
{
    let b0: u16 = data[at] as u16;
    let b1: u16 = data[at + 1] as u16;
    b0 + 0x100 * b1
}

/// Reads a big-endian `u16` at `at`.
pub fn read_u16_be(data: &[u8], at: usize) -> (x: u16)
    requires
        at + 2 <= data@.len(),
    ensures
        x == be_u16_at(data@, at as int),
{
    let b0: u16 = data[at] as u16;
    let b1: u16 = data[at + 1] as u16;
    0x100 * b0 + b1
}

/// Reads a little-endian `u32` at `at`.
pub fn read_u32_le(data: &[u8], at: usize) -> (x: u32)
    requires
        at + 4 <= data@.len(),
    ensures
        x == le_u32_at(data@, at as int),
{
    let b0: u32 = data[at] as u32;
    let b1: u32 = data[at + 1] as u32;
    let b2: u32 = data[at + 2] as u32;
    let b3: u32 = data[at + 3] as u32;
    b0 + 0x100 * b1 + 0x1_0000 * b2 + 0x100_0000 * b3
}

/// Reads a little-endian `u64` at `at`.
pub fn read_u64_le(data: &[u8], at: usize) -> (x: u64)
    requires
        at + 8 <= data@.len(),
    ensures
        x == le_u64_at(data@, at as int),
{
    let len: usize = data.len();
    assert(at + 8 <= len);
    let lo: u64 = read_u32_le(data, at) as u64;
    let hi: u64 = read_u32_le(data, at + 4) as u64;
    lo + 0x1_0000_0000 * hi
}

/// Appends the little-endian bytes of `x`.
pub fn push_u16_le(out: &mut Vec<u8>, x: u16)
    ensures
        final(out)@ == old(out)@ + u16_le(x),
{
    out.push((x % 256) as u8);
    out.push((x / 256) as u8);
}

/// Appends the big-endian bytes of `x`.
pub fn push_u16_be(out: &mut Vec<u8>, x: u16)
    ensures
        final(out)@ == old(out)@ + u16_be(x),
{
    out.push((x / 256) as u8);
    out.push((x % 256) as u8);
}

/// Appends the little-endian bytes of `x`.
pub fn push_u32_le(out: &mut Vec<u8>, x: u32)
    ensures
        final(out)@ == old(out)@ + u32_le(x),
{
    out.push((x % 256) as u8);
    out.push((x / 0x100 % 256) as u8);
    out.push((x / 0x1_0000 % 256) as u8);
    out.push((x / 0x100_0000) as u8);
}

/// Appends the little-endian bytes of `x`.
pub fn push_u64_le(out: &mut Vec<u8>, x: u64)
    ensures
        final(out)@ == old(out)@ + u64_le(x),
{
    push_u32_le(out, (x % 0x1_0000_0000) as u32);
    push_u32_le(out, (x / 0x1_0000_0000) as u32);
}

/// Appends the little-endian two's-complement bytes of `x`.
pub fn push_i64_le(out: &mut Vec<u8>, x: i64)
    ensures
        final(out)@ == old(out)@ + i64_le(x),
{
    let bits: u64 = if x >= 0 {
        x as u64
    } else {
        u64::MAX - ((-(x + 1)) as u64)
    };
    push_u64_le(out, bits);
}

/// Appends every byte of `bytes`.
pub fn push_bytes(out: &mut Vec<u8>, bytes: &[u8])
    ensures
        final(out)@ == old(out)@ + bytes@,
{
    out.extend_from_slice(bytes);
}

} // verus!
