//! The parts of a logical address.

#![allow(non_snake_case)]

use crate::byte_utils::{lemma_masks, GET_BIT_RANGE};
use crate::virtual_memory::{
    directory_index, lemma_address_parts, page_offset, table_index, LogicalAddress,
};
use vstd::prelude::*;

verus! {

impl LogicalAddress {
    /// Index of the directory entry, and so of the table, for the address.
    pub fn get_page_table(self) -> (index: u16)
        ensures
            index == directory_index(self.0),
            index < 1024,
    {
        proof {
            lemma_masks();
            lemma_address_parts(self.0);
            lemma_top_field(self.0);
        }
        GET_BIT_RANGE(self.0, 22, 32) as u16
    }

    /// Index of the page entry for the address in its table.
    pub fn get_page(self) -> (index: u16)
        ensures
            index == table_index(self.0),
            index < 1024,
    {
        proof {
            lemma_masks();
            lemma_address_parts(self.0);
        }
        GET_BIT_RANGE(self.0, 12, 22) as u16
    }

    /// Offset of the address in its page.
    pub fn get_page_offset(self) -> (offset: u16)
        ensures
            offset == page_offset(self.0),
            offset < 4096,
    {
        proof {
            lemma_masks();
            lemma_address_parts(self.0);
            lemma_low_field(self.0);
        }
        GET_BIT_RANGE(self.0, 0, 12) as u16
    }
}

/// The top ten bits need no mask.
proof fn lemma_top_field(word: u32)
    by (bit_vector)
    ensures
        (word >> 22) & 0x3ff == word >> 22,
{
}

/// The low twelve bits need no shift.
proof fn lemma_low_field(word: u32)
    by (bit_vector)
    ensures
        (word >> 0) & 0xfff == word & 0xfff,
{
}

} // verus!
