use vstd::prelude::*;

verus! {

/// Octet `n` of `num`, counted from the most significant one, which is
/// octet 1.
pub open spec fn nth_octal(num: u32, n: int) -> u8 {
    ((num >> ((32 - 8 * n) as u32)) & 0xFF) as u8
}

/// The low eight bits of `val`.
pub open spec fn lsb(val: u16) -> u8 {
    (val & 0xFF) as u8
}

/// The high eight bits of `val`.
pub open spec fn msb(val: u16) -> u8 {
    (val >> 8) as u8
}

/// The low four bits of `val`.
pub open spec fn lsn(val: u8) -> u8 {
    val & 0x0F
}

/// Whether bit `pos` of `flags` is set, bit 0 being the least significant.
pub open spec fn flag(flags: u8, pos: u8) -> bool {
    ((flags >> pos) & 1) == 1
}

/// Octet `n` of `num`: 1 is the most significant, 4 the least.
pub fn get_nth_octal(num: u32, n: usize) -> (octet: u8)
    requires
        1 <= n <= 4,
    ensures
        octet == nth_octal(num, n as int),
{
    let shift: u32 = (32 - 8 * n) as u32;
    ((num >> shift) & 0xFF) as u8
}

/// The least significant byte.
pub fn get_lsb(val: u16) -> (byte: u8)
    ensures
        byte == lsb(val),
{
    (val & 0xFF) as u8
}

/// The most significant byte.
pub fn get_msb(val: u16) -> (byte: u8)
    ensures
        byte == msb(val),
{
    (val >> 8) as u8
}

/// The least significant nibble.
pub fn get_lsn(val: u8) -> (nibble: u8)
    ensures
        nibble == lsn(val),
        nibble <= 15,
{
    assert(val & 0x0F <= 15) by (bit_vector);
    val & 0x0F
}

/// Whether bit `pos` is set.
pub fn get_flag(flags: u8, pos: u8) -> (set: bool)
    requires
        pos < 8,
    ensures
        set == flag(flags, pos),
{
    ((flags >> pos) & 1) == 1
}

} // verus!
