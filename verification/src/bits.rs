use vstd::prelude::*;

verus! {

/// The width of an integer type, in bits.
pub trait Bits {
    const BITS: u8;
}

impl Bits for u8 {
    const BITS: u8 = 8;
}

impl Bits for u16 {
    const BITS: u8 = 16;
}

impl Bits for u32 {
    const BITS: u8 = 32;
}

impl Bits for u64 {
    const BITS: u8 = 64;
}

impl Bits for u128 {
    const BITS: u8 = 128;
}

impl Bits for i8 {
    const BITS: u8 = 8;
}

impl Bits for i16 {
    const BITS: u8 = 16;
}

impl Bits for i32 {
    const BITS: u8 = 32;
}

impl Bits for i64 {
    const BITS: u8 = 64;
}

impl Bits for i128 {
    const BITS: u8 = 128;
}

/// The widths of the primitive integer types.
pub proof fn lemma_widths()
    ensures
        <u8 as Bits>::BITS == 8,
        <u16 as Bits>::BITS == 16,
        <u32 as Bits>::BITS == 32,
        <u64 as Bits>::BITS == 64,
        <u128 as Bits>::BITS == 128,
        <i8 as Bits>::BITS == 8,
        <i16 as Bits>::BITS == 16,
        <i32 as Bits>::BITS == 32,
        <i64 as Bits>::BITS == 64,
        <i128 as Bits>::BITS == 128,
{
}

} // verus!
