use vstd::prelude::*;

verus! {

/// The two halves of `value`, the less significant first.
pub fn u32_to_u16(value: u32) -> (r: (u16, u16))
    ensures
        r.0 == value % 0x1_0000,
        r.1 == value / 0x1_0000,
{
    assert((value & 0xffffu32) == value % 0x1_0000u32) by (bit_vector);
    assert((value >> 16u32) == value / 0x1_0000u32) by (bit_vector);
    ((value & 0xffff) as u16, (value >> 16) as u16)
}

/// The four bytes of `value`, the least significant first.
pub fn u32_to_u8(value: u32) -> (r: (u8, u8, u8, u8))
    ensures
        r.0 == value % 0x100,
        r.1 == (value / 0x100) % 0x100,
        r.2 == (value / 0x1_0000) % 0x100,
        r.3 == value / 0x100_0000,
{
    assert((value & 0xffu32) == value % 0x100u32) by (bit_vector);
    assert(((value >> 8u32) & 0xffu32) == (value / 0x100u32) % 0x100u32) by (bit_vector);
    assert(((value >> 16u32) & 0xffu32) == (value / 0x1_0000u32) % 0x100u32) by (bit_vector);
    assert((value >> 24u32) == value / 0x100_0000u32) by (bit_vector);
    (
        (value & 0xff) as u8,
        ((value >> 8) & 0xff) as u8,
        ((value >> 16) & 0xff) as u8,
        (value >> 24) as u8,
    )
}

/// The two bytes of `value`, the less significant first.
pub fn u16_to_u8(value: u16) -> (r: (u8, u8))
    ensures
        r.0 == value % 0x100,
        r.1 == value / 0x100,
{
    assert((value & 0xffu16) == value % 0x100u16) by (bit_vector);
    assert((value >> 8u16) == value / 0x100u16) by (bit_vector);
    ((value & 0xff) as u8, (value >> 8) as u8)
}

} // verus!
