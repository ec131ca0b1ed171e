//! Bit manipulation on 32-bit words.
//!
//! Page entries, logical addresses and descriptor words are all packed into
//! 32-bit words; these helpers read and rewrite bits and bit ranges of them.
//! Bit 0 is the least significant bit, and a range `[start, end)` holds the
//! bits `start`, `start + 1`, …, `end - 1`.

#![allow(non_snake_case)]

use vstd::prelude::*;

verus! {

/// Number of bits in a byte.
pub const SIZE_B: u8 = 8;

/// Number of bits in a 16-bit word.
pub const SIZE_W: u8 = 16;

/// Number of bits in a 32-bit word.
pub const SIZE_D: u8 = 32;

/// The additive identity of `u32` as `num_traits::zero` gives it.
///
/// Trusted: `num_traits::zero::<u32>()` forwards to `<u32 as Zero>::zero()`,
/// which the crate defines as the literal `0`.
#[verifier::external_body]
fn zero_word() -> (w: u32)
    ensures
        w == 0,
{
    num_traits::zero()
}

/// The multiplicative identity of `u32` as `num_traits::one` gives it.
///
/// Trusted: `num_traits::one::<u32>()` forwards to `<u32 as One>::one()`,
/// which the crate defines as the literal `1`.
#[verifier::external_body]
fn one_word() -> (w: u32)
    ensures
        w == 1,
{
    num_traits::one()
}

/// The word whose `width` lowest bits are set and whose other bits are clear.
pub open spec fn low_mask(width: u32) -> u32 {
    !(!0u32 << width)
}

/// The word whose bits in `[start, start + width)` are set and whose other
/// bits are clear.
pub open spec fn range_mask(start: u32, width: u32) -> u32 {
    low_mask(width) << start
}

/// Whether bit `pos` of `word` is set.
pub open spec fn bit_at(word: u32, pos: u32) -> bool {
    (word >> pos) & 1 == 1
}

/// A range `[start, end)` that the shifts of this module can express: it lies
/// inside the word and is narrower than the whole word.
pub open spec fn valid_range(start: u8, end: u8) -> bool {
    start <= end && start < 32 && end - start < 32
}

/// Bit `i` of a range mask is set exactly when `i` lies in the range.
pub proof fn lemma_range_mask_bits(start: u32, width: u32, i: u32)
    requires
        start < 32,
        width < 32,
        i < 32,
    ensures
        bit_at(range_mask(start, width), i) <==> start <= i < start + width,
{
    assert(((!(!0u32 << width) << start) >> i) & 1 == 1 <==> start <= i < start + width)
        by (bit_vector)
        requires
            start < 32,
            width < 32,
            i < 32,
    ;
}

/// The masks of the fields of an address and of a page entry.
pub proof fn lemma_masks()
    by (bit_vector)
    ensures
        range_mask(12, 20) == 0xffff_f000,
        range_mask(22, 10) == 0xffc0_0000,
        range_mask(0, 12) == 0x0000_0fff,
        low_mask(10) == 0x3ff,
        low_mask(12) == 0xfff,
{
}

/// A word with the bits of `[start, end)` set and all others clear.
pub fn CONST_BIT_RANGE(start: u8, end: u8) -> (mask: u32)
    requires
        valid_range(start, end),
    ensures
        mask == range_mask(start as u32, (end - start) as u32),
{
    let width: u32 = (end - start) as u32;
    let ones: u32 = !zero_word();
    !(ones << width) << (start as u32)
}

/// Whether bit `pos` of `word` is set.
pub fn GET_BIT(word: u32, pos: u8) -> (set: bool)
    requires
        pos < 32,
    ensures
        set == bit_at(word, pos as u32),
{
    let p: u32 = pos as u32;
    let probe: u32 = one_word() << p;
    assert((word & (1u32 << p) != 0) == ((word >> p) & 1 == 1)) by (bit_vector)
        requires
            p < 32,
    ;
    word & probe != 0
}

/// `word` with every bit from `length` upwards cleared.
pub fn TRIM_BITS(word: u32, length: u8) -> (trimmed: u32)
    requires
        length < 32,
    ensures
        trimmed == word & low_mask(length as u32),
{
    let mask: u32 = CONST_BIT_RANGE(0, length);
    proof {
        let w: u32 = length as u32;
        assert((!(!0u32 << w)) << 0u32 == !(!0u32 << w)) by (bit_vector);
    }
    word & mask
}

/// `word` with every bit outside `[start, end)` cleared; the bits of the
/// range stay where they are.
pub fn FILTER_BIT_RANGE(word: u32, start: u8, end: u8) -> (kept: u32)
    requires
        valid_range(start, end),
    ensures
        kept == word & range_mask(start as u32, (end - start) as u32),
{
    word & CONST_BIT_RANGE(start, end)
}

/// The bits of `[start, end)` of `word`, moved down so that bit `start`
/// becomes bit 0.
pub fn GET_BIT_RANGE(word: u32, start: u8, end: u8) -> (field: u32)
    requires
        valid_range(start, end),
    ensures
        field == (word >> (start as u32)) & low_mask((end - start) as u32),
{
    TRIM_BITS(word >> (start as u32), end - start)
}

/// `word` with bit `pos` replaced by the lowest bit of `val`.
pub fn UPDATE_BIT(word: u32, pos: u8, val: u32) -> (updated: u32)
    requires
        pos < 32,
    ensures
        updated == (word & !(1u32 << (pos as u32))) | ((val & 1) << (pos as u32)),
        bit_at(updated, pos as u32) == (val & 1 == 1),
        forall|i: u32| i < 32 && i != pos ==> bit_at(updated, i) == bit_at(word, i),
{
    let p: u32 = pos as u32;
    let bit: u32 = TRIM_BITS(val, 1);
    let updated: u32 = (word & !(one_word() << p)) | (bit << p);
    proof {
        assert(low_mask(1) == 1) by (bit_vector);
        assert((((word & !(1u32 << p)) | ((val & 1) << p)) >> p) & 1 == 1 <==> val & 1 == 1)
            by (bit_vector)
            requires
                p < 32,
        ;
        assert forall|i: u32| i < 32 && i != pos implies bit_at(updated, i) == bit_at(
            word,
            i,
        ) by {
            assert(((((word & !(1u32 << p)) | ((val & 1) << p)) >> i) & 1 == 1) == ((word >> i)
                & 1 == 1)) by (bit_vector)
                requires
                    p < 32,
                    i < 32,
                    i != p,
            ;
        }
    }
    updated
}

/// `word` with the bits of `[start, end)` replaced by the lowest
/// `end - start` bits of `val`.
pub fn UPDATE_BIT_RANGE(word: u32, start: u8, end: u8, val: u32) -> (updated: u32)
    requires
        valid_range(start, end),
    ensures
        updated == (word & !range_mask(start as u32, (end - start) as u32)) | ((val & low_mask(
            (end - start) as u32,
        )) << (start as u32)),
{
    let field: u32 = TRIM_BITS(val, end - start);
    (word & !CONST_BIT_RANGE(start, end)) | (field << (start as u32))
}

/// Number of bits that a value of type `T` occupies.
pub fn BIT_SIZE_OF<T>() -> (bits: usize)
    requires
        vstd::layout::size_of::<T>() * 8 <= usize::MAX,
    ensures
        bits == vstd::layout::size_of::<T>() * 8,
{
    core::mem::size_of::<T>() * 8
}

/// The most significant byte of a 16-bit word.
pub fn MSB(d: u16) -> (byte: u8)
    ensures
        byte == d / 256,
{
    let field: u32 = GET_BIT_RANGE(d as u32, SIZE_B, 2 * SIZE_B);
    assert(((d as u32) >> 8) & !(!0u32 << 8) == (d / 256) as u32) by (bit_vector);
    field as u8
}

/// The least significant byte of a 16-bit word.
pub fn LSB(d: u16) -> (byte: u8)
    ensures
        byte == d % 256,
{
    let field: u32 = GET_BIT_RANGE(d as u32, 0, SIZE_B);
    assert(((d as u32) >> 0) & !(!0u32 << 8) == (d % 256) as u32) by (bit_vector);
    field as u8
}

} // verus!
