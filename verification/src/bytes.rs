//! Little-endian integer encodings shared by the message, model and map
//! readers.
use vstd::prelude::*;

verus! {

/// The two bytes of `v`, least significant first.
pub open spec fn le_u16(v: u16) -> Seq<u8> {
    seq![(v & 0xff) as u8, (v >> 8) as u8]
}

/// The four bytes of `v`, least significant first.
pub open spec fn le_u32(v: u32) -> Seq<u8> {
    seq![(v & 0xff) as u8, ((v >> 8) & 0xff) as u8, ((v >> 16) & 0xff) as u8, (v >> 24) as u8]
}

/// The value of two bytes read least significant first.
pub open spec fn u16_le(b0: u8, b1: u8) -> u16 {
    ((b1 as u16) << 8) | (b0 as u16)
}

/// The value of four bytes read least significant first.
pub open spec fn u32_le(b0: u8, b1: u8, b2: u8, b3: u8) -> u32 {
    ((b3 as u32) << 24) | ((b2 as u32) << 16) | ((b1 as u32) << 8) | (b0 as u32)
}

/// The value of the two bytes of `s` starting at `at`.
pub open spec fn u16_at(s: Seq<u8>, at: int) -> u16 {
    u16_le(s[at], s[at + 1])
}

/// The value of the four bytes of `s` starting at `at`.
pub open spec fn u32_at(s: Seq<u8>, at: int) -> u32 {
    u32_le(s[at], s[at + 1], s[at + 2], s[at + 3])
}

/// Reading back the encoding of a 16-bit value gives the value.
pub proof fn lemma_u16_round_trip(v: u16)
    ensures
        u16_le(le_u16(v)[0], le_u16(v)[1]) == v,
{
    let b0 = (v & 0xff) as u8;
    let b1 = (v >> 8) as u8;
    assert(((b1 as u16) << 8) | (b0 as u16) == v) by (bit_vector)
        requires
            b0 == (v & 0xff) as u8,
            b1 == (v >> 8) as u8,
    ;
}

/// Reading back the encoding of a 32-bit value gives the value.
pub proof fn lemma_u32_round_trip(v: u32)
    ensures
        u32_le(le_u32(v)[0], le_u32(v)[1], le_u32(v)[2], le_u32(v)[3]) == v,
{
    let b0 = (v & 0xff) as u8;
    let b1 = ((v >> 8) & 0xff) as u8;
    let b2 = ((v >> 16) & 0xff) as u8;
    let b3 = (v >> 24) as u8;
    assert(((b3 as u32) << 24) | ((b2 as u32) << 16) | ((b1 as u32) << 8) | (b0 as u32) == v)
        by (bit_vector)
        requires
            b0 == (v & 0xff) as u8,
            b1 == ((v >> 8) & 0xff) as u8,
            b2 == ((v >> 16) & 0xff) as u8,
            b3 == (v >> 24) as u8,
    ;
}

/// A signed 16-bit value survives the trip through its unsigned bits.
pub proof fn lemma_i16_bits(v: i16)
    ensures
        ((v as u16) as i16) == v,
{
    assert(((v as u16) as i16) == v) by (bit_vector);
}

/// A signed 32-bit value survives the trip through its unsigned bits.
pub proof fn lemma_i32_bits(v: i32)
    ensures
        ((v as u32) as i32) == v,
{
    assert(((v as u32) as i32) == v) by (bit_vector);
}

/// A signed byte survives the trip through its unsigned bits.
pub proof fn lemma_i8_bits(v: i8)
    ensures
        ((v as u8) as i8) == v,
{
    assert(((v as u8) as i8) == v) by (bit_vector);
}

/// The encoding of a 16-bit value.
pub fn u16_to_le(v: u16) -> (out: [u8; 2])
    ensures
        out@ == le_u16(v),
{
    let out = [(v & 0xff) as u8, (v >> 8) as u8];
    assert(out@ =~= le_u16(v));
    out
}

/// The encoding of a 32-bit value.
pub fn u32_to_le(v: u32) -> (out: [u8; 4])
    ensures
        out@ == le_u32(v),
{
    let out = [(v & 0xff) as u8, ((v >> 8) & 0xff) as u8, ((v >> 16) & 0xff) as u8, (v >> 24) as u8];
    assert(out@ =~= le_u32(v));
    out
}

/// The 16-bit value stored at `at` in `data`.
pub fn read_u16_at(data: &[u8], at: usize) -> (v: u16)
    requires
        at + 2 <= data.len(),
    ensures
        v == u16_at(data@, at as int),
{
    ((data[at + 1] as u16) << 8) | (data[at] as u16)
}

/// The 32-bit value stored at `at` in `data`.
pub fn read_u32_at(data: &[u8], at: usize) -> (v: u32)
    requires
        at + 4 <= data.len(),
    ensures
        v == u32_at(data@, at as int),
{
    ((data[at + 3] as u32) << 24) | ((data[at + 2] as u32) << 16) | ((data[at + 1] as u32) << 8)
        | (data[at] as u32)
}

/// The signed 32-bit value stored at `at` in `data`.
pub fn read_i32_at(data: &[u8], at: usize) -> (v: i32)
    requires
        at + 4 <= data.len(),
    ensures
        v == u32_at(data@, at as int) as i32,
{
    read_u32_at(data, at) as i32
}

/// The signed 16-bit value stored at `at` in `data`.
pub fn read_i16_at(data: &[u8], at: usize) -> (v: i16)
    requires
        at + 2 <= data.len(),
    ensures
        v == u16_at(data@, at as int) as i16,
{
    read_u16_at(data, at) as i16
}

} // verus!
