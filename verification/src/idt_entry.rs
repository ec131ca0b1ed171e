//! Layout of interrupt-descriptor-table entries.

#![allow(non_snake_case)]

use vstd::prelude::*;

verus! {

/// An interrupt gate: two 32-bit words packed into one 64-bit entry.
pub type Gate = u64;

/// Privilege level of the kernel.
pub const HARDWARE_PRIVILEGE: u8 = 0;

/// Privilege level of user code.
pub const USER_PRIVILEGE: u8 = 3;

/// Bit at which the second word of a gate starts.
pub const UPPER_WORD_START: u8 = 32;

/// The 64-bit entry whose low word is `word1` and whose high word is `word2`.
pub open spec fn gate_of(word1: u32, word2: u32) -> u64 {
    ((word2 as u64) << 32) | (word1 as u64)
}

/// Builds a gate from its two words.
pub fn GATE(word1: u32, word2: u32) -> (gate: Gate)
    ensures
        gate == gate_of(word1, word2),
        gate & 0xffff_ffff == word1,
        gate >> 32 == word2,
{
    let gate: u64 = ((word2 as u64) << 32) | (word1 as u64);
    assert((((word2 as u64) << 32) | (word1 as u64)) & 0xffff_ffff == word1 as u64) by (bit_vector);
    assert((((word2 as u64) << 32) | (word1 as u64)) >> 32 == word2 as u64) by (bit_vector);
    gate
}

} // verus!
