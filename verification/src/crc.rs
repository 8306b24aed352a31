//! The 16-bit CRC that Quake uses for pack directories and message
//! checksums: CRC-CCITT with polynomial 0x1021, starting from 0xffff.
use vstd::prelude::*;

verus! {

pub const CRC_INIT_VALUE: u16 = 0xffff;

/// One shift of the register, folding in the polynomial when the top bit
/// falls out.
pub open spec fn crc_shift(crc: u16) -> u16 {
    if crc & 0x8000 != 0 {
        (crc << 1u16) ^ 0x1021u16
    } else {
        crc << 1u16
    }
}

/// The register after `n` shifts.
pub open spec fn crc_shifts(crc: u16, n: nat) -> u16
    decreases n,
{
    if n == 0 {
        crc
    } else {
        crc_shifts(crc_shift(crc), (n - 1) as nat)
    }
}

/// The register after one more byte.
pub open spec fn crc_byte(crc: u16, b: u8) -> u16 {
    crc_shifts(crc ^ ((b as u16) << 8u16), 8)
}

/// The register after the bytes of `data`, from the initial value.
pub open spec fn crc_of(data: Seq<u8>) -> u16
    decreases data.len(),
{
    if data.len() == 0 {
        CRC_INIT_VALUE
    } else {
        crc_byte(crc_of(data.drop_last()), data.last())
    }
}

fn crc_process_byte(crc: u16, b: u8) -> (r: u16)
    ensures
        r == crc_byte(crc, b),
{
    let mut c: u16 = crc ^ ((b as u16) << 8u16);
    let mut i: u32 = 0;
    while i < 8
        invariant
            i <= 8,
            crc_shifts(c, (8 - i) as nat) == crc_byte(crc, b),
        decreases 8 - i,
    {
        c = if c & 0x8000 != 0 { (c << 1u16) ^ 0x1021u16 } else { c << 1u16 };
        i = i + 1;
    }
    c
}

/// The CRC of a block of bytes.
pub fn crc_block(data: &[u8]) -> (r: u16)
    ensures
        r == crc_of(data@),
{
    let mut crc: u16 = CRC_INIT_VALUE;
    let mut i: usize = 0;
    assert(data@.take(0) =~= Seq::<u8>::empty());
    while i < data.len()
        invariant
            i <= data@.len(),
            crc == crc_of(data@.take(i as int)),
        decreases data@.len() - i,
    {
        assert(data@.take(i + 1).drop_last() =~= data@.take(i as int));
        crc = crc_process_byte(crc, data[i]);
        i = i + 1;
    }
    assert(data@.take(i as int) =~= data@);
    crc
}

} // verus!
