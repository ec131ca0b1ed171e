//! Reading and building page entries.
//!
//! Bit 0 of an entry says that it maps a page, bit 1 that the page may be
//! written, bit 2 that user mode may touch it. The processor sets bit 5 when
//! the page is accessed and bit 6 when it is written. Bits 8, 9 and 10 are
//! the global, copy-on-write and free marks. Bits 12 to 31 are the address of
//! the frame.

#![allow(non_snake_case)]

use crate::byte_utils::{bit_at, lemma_masks, FILTER_BIT_RANGE, GET_BIT};
use crate::virtual_memory::{
    PageEntry, PhysicalAddress, PAGE_ACCESSED_BIT, PAGE_COPY_ON_WRITE_BIT, PAGE_DIRTY_BIT,
    PAGE_FREE_BIT, PAGE_PRESENT_BIT, PAGE_USER_ACCESS_BIT, PAGE_WRITABLE_BIT,
};
use vstd::prelude::*;

verus! {

impl PageEntry {
    /// The entry maps a page.
    pub open spec fn present(self) -> bool {
        bit_at(self.0, 0)
    }

    /// The page may be written.
    pub open spec fn writable(self) -> bool {
        bit_at(self.0, 1)
    }

    /// User mode may touch the page.
    pub open spec fn user(self) -> bool {
        bit_at(self.0, 2)
    }

    /// The processor has accessed the page.
    pub open spec fn accessed(self) -> bool {
        bit_at(self.0, 5)
    }

    /// The processor has written the page.
    pub open spec fn dirty(self) -> bool {
        bit_at(self.0, 6)
    }

    /// The translation survives a switch of address space.
    pub open spec fn global(self) -> bool {
        bit_at(self.0, 8)
    }

    /// The page is shared until its first write.
    pub open spec fn copy_on_write(self) -> bool {
        bit_at(self.0, 9)
    }

    /// The frame is free, or the page is reserved and not yet backed.
    pub open spec fn free(self) -> bool {
        bit_at(self.0, 10)
    }

    /// The address of the frame.
    pub open spec fn address(self) -> PhysicalAddress {
        self.0 & 0xffff_f000
    }

    /// The twelve flag bits.
    pub open spec fn flags(self) -> u32 {
        self.0 & 0xfff
    }

    /// The entry for the frame of `addr` with the flag bits `flags`.
    pub open spec fn make(addr: PhysicalAddress, flags: u16) -> PageEntry {
        PageEntry((addr & 0xffff_f000) | (flags as u32))
    }

    /// The entry with the bits of `flags` set in addition.
    pub open spec fn with(self, flags: u32) -> PageEntry {
        PageEntry(self.0 | flags)
    }

    /// The entry with the bits of `flags` cleared.
    pub open spec fn cleared(self, flags: u32) -> PageEntry {
        PageEntry(self.0 & !flags)
    }

    /// Checks whether the page has been accessed.
    pub fn page_accessed(self) -> (accessed: bool)
        ensures
            accessed == self.accessed(),
    {
        GET_BIT(self.0, PAGE_ACCESSED_BIT)
    }

    /// Checks whether the page has been written to.
    pub fn page_written(self) -> (written: bool)
        ensures
            written == self.dirty(),
    {
        GET_BIT(self.0, PAGE_DIRTY_BIT)
    }

    /// The address of the frame that the entry names.
    pub fn page_address(self) -> (addr: PhysicalAddress)
        ensures
            addr == self.address(),
            addr % 4096 == 0,
    {
        proof {
            lemma_masks();
            lemma_entry_fields(self.0);
        }
        FILTER_BIT_RANGE(self.0, 12, 32)
    }

    /// The flag bits of the entry.
    pub fn page_flags(self) -> (flags: u16)
        ensures
            flags == self.flags(),
            flags < 4096,
    {
        proof {
            lemma_masks();
            lemma_entry_fields(self.0);
        }
        FILTER_BIT_RANGE(self.0, 0, 12) as u16
    }

    /// Checks whether the page may be written.
    pub fn page_is_writable(self) -> (writable: bool)
        ensures
            writable == self.writable(),
    {
        GET_BIT(self.0, PAGE_WRITABLE_BIT)
    }

    /// Checks whether the page is accessible from user mode.
    pub fn page_is_user(self) -> (user: bool)
        ensures
            user == self.user(),
    {
        GET_BIT(self.0, PAGE_USER_ACCESS_BIT)
    }

    /// Checks whether the page is copy-on-write.
    pub fn page_is_copy_on_write(self) -> (shared: bool)
        ensures
            shared == self.copy_on_write(),
    {
        GET_BIT(self.0, PAGE_COPY_ON_WRITE_BIT)
    }

    /// Checks whether the free mark is set.
    pub fn page_is_free(self) -> (free: bool)
        ensures
            free == self.free(),
    {
        GET_BIT(self.0, PAGE_FREE_BIT)
    }

    /// Checks whether the entry maps a page.
    pub fn page_is_present(self) -> (present: bool)
        ensures
            present == self.present(),
    {
        GET_BIT(self.0, PAGE_PRESENT_BIT)
    }

    /// The entry that maps nothing.
    pub fn no_page() -> (entry: Self)
        ensures
            entry == PageEntry(0),
            !entry.present(),
            !entry.free(),
            !entry.accessed(),
    {
        proof {
            lemma_no_page();
        }
        PageEntry(0)
    }

    /// The entry for the frame that holds `addr`, with the flag bits `flags`.
    pub fn new(addr: PhysicalAddress, flags: u16) -> (entry: Self)
        ensures
            entry == PageEntry::make(addr, flags),
            flags < 4096 ==> entry.address() == addr & 0xffff_f000 && entry.flags() == flags,
    {
        proof {
            lemma_make(addr, flags);
        }
        PageEntry(PageEntry(addr).page_address() | (flags as u32))
    }
}

/// The two fields of an entry: the address is page aligned, the flags are
/// below 4096, and together they are the entry.
pub proof fn lemma_entry_fields(word: u32)
    by (bit_vector)
    ensures
        (word & 0xffff_f000) % 4096 == 0,
        word & 0xfff < 4096,
        (word & 0xffff_f000) | (word & 0xfff) == word,
        (word & 0xffff_f000) + (word & 0xfff) == word,
        word % 4096 == 0 ==> word & 0xffff_f000 == word,
{
}

/// The empty entry has none of the named bits set and names frame 0.
pub proof fn lemma_no_page()
    by (bit_vector)
    ensures
        !bit_at(0, 0),
        !bit_at(0, 1),
        !bit_at(0, 2),
        !bit_at(0, 5),
        !bit_at(0, 6),
        !bit_at(0, 8),
        !bit_at(0, 9),
        !bit_at(0, 10),
        0u32 & 0xffff_f000 == 0,
        0u32 & 0xfff == 0,
{
}

/// The fields of an entry built from an address and flags: the flag bits of
/// the entry are those of `flags`, and flags that fit in twelve bits leave
/// the address alone.
pub proof fn lemma_make(addr: u32, flags: u16)
    by (bit_vector)
    ensures
        flags < 4096 ==> ((addr & 0xffff_f000) | (flags as u32)) & 0xffff_f000
            == addr & 0xffff_f000,
        flags < 4096 ==> ((addr & 0xffff_f000) | (flags as u32)) & 0xfff == flags,
        bit_at((addr & 0xffff_f000) | (flags as u32), 0) == bit_at(flags as u32, 0),
        bit_at((addr & 0xffff_f000) | (flags as u32), 1) == bit_at(flags as u32, 1),
        bit_at((addr & 0xffff_f000) | (flags as u32), 2) == bit_at(flags as u32, 2),
        bit_at((addr & 0xffff_f000) | (flags as u32), 5) == bit_at(flags as u32, 5),
        bit_at((addr & 0xffff_f000) | (flags as u32), 6) == bit_at(flags as u32, 6),
        bit_at((addr & 0xffff_f000) | (flags as u32), 8) == bit_at(flags as u32, 8),
        bit_at((addr & 0xffff_f000) | (flags as u32), 9) == bit_at(flags as u32, 9),
        bit_at((addr & 0xffff_f000) | (flags as u32), 10) == bit_at(flags as u32, 10),
{
}

/// Setting flag bits: each named bit of the result is set where the entry or
/// the flags have it set, and flags below bit 12 leave the address alone.
pub proof fn lemma_with(word: u32, flags: u32)
    by (bit_vector)
    ensures
        bit_at(word | flags, 0) == (bit_at(word, 0) || bit_at(flags, 0)),
        bit_at(word | flags, 1) == (bit_at(word, 1) || bit_at(flags, 1)),
        bit_at(word | flags, 2) == (bit_at(word, 2) || bit_at(flags, 2)),
        bit_at(word | flags, 5) == (bit_at(word, 5) || bit_at(flags, 5)),
        bit_at(word | flags, 6) == (bit_at(word, 6) || bit_at(flags, 6)),
        bit_at(word | flags, 8) == (bit_at(word, 8) || bit_at(flags, 8)),
        bit_at(word | flags, 9) == (bit_at(word, 9) || bit_at(flags, 9)),
        bit_at(word | flags, 10) == (bit_at(word, 10) || bit_at(flags, 10)),
        flags < 4096 ==> (word | flags) & 0xffff_f000 == word & 0xffff_f000,
{
}

/// Clearing flag bits: each named bit of the result is set where the entry
/// has it set and the flags have not, and flags below bit 12 leave the
/// address alone.
pub proof fn lemma_cleared(word: u32, flags: u32)
    by (bit_vector)
    ensures
        bit_at(word & !flags, 0) == (bit_at(word, 0) && !bit_at(flags, 0)),
        bit_at(word & !flags, 1) == (bit_at(word, 1) && !bit_at(flags, 1)),
        bit_at(word & !flags, 2) == (bit_at(word, 2) && !bit_at(flags, 2)),
        bit_at(word & !flags, 5) == (bit_at(word, 5) && !bit_at(flags, 5)),
        bit_at(word & !flags, 6) == (bit_at(word, 6) && !bit_at(flags, 6)),
        bit_at(word & !flags, 8) == (bit_at(word, 8) && !bit_at(flags, 8)),
        bit_at(word & !flags, 9) == (bit_at(word, 9) && !bit_at(flags, 9)),
        bit_at(word & !flags, 10) == (bit_at(word, 10) && !bit_at(flags, 10)),
        flags < 4096 ==> (word & !flags) & 0xffff_f000 == word & 0xffff_f000,
{
}

/// Which of the named bits each flag constant has set.
pub proof fn lemma_flag_bits()
    by (bit_vector)
    ensures
        bit_at(0x001, 0) == true,
        bit_at(0x001, 1) == false,
        bit_at(0x001, 2) == false,
        bit_at(0x001, 5) == false,
        bit_at(0x001, 6) == false,
        bit_at(0x001, 8) == false,
        bit_at(0x001, 9) == false,
        bit_at(0x001, 10) == false,
        bit_at(0x002, 0) == false,
        bit_at(0x002, 1) == true,
        bit_at(0x002, 2) == false,
        bit_at(0x002, 5) == false,
        bit_at(0x002, 6) == false,
        bit_at(0x002, 8) == false,
        bit_at(0x002, 9) == false,
        bit_at(0x002, 10) == false,
        bit_at(0x004, 0) == false,
        bit_at(0x004, 1) == false,
        bit_at(0x004, 2) == true,
        bit_at(0x004, 5) == false,
        bit_at(0x004, 6) == false,
        bit_at(0x004, 8) == false,
        bit_at(0x004, 9) == false,
        bit_at(0x004, 10) == false,
        bit_at(0x100, 0) == false,
        bit_at(0x100, 1) == false,
        bit_at(0x100, 2) == false,
        bit_at(0x100, 5) == false,
        bit_at(0x100, 6) == false,
        bit_at(0x100, 8) == true,
        bit_at(0x100, 9) == false,
        bit_at(0x100, 10) == false,
        bit_at(0x200, 0) == false,
        bit_at(0x200, 1) == false,
        bit_at(0x200, 2) == false,
        bit_at(0x200, 5) == false,
        bit_at(0x200, 6) == false,
        bit_at(0x200, 8) == false,
        bit_at(0x200, 9) == true,
        bit_at(0x200, 10) == false,
        bit_at(0x400, 0) == false,
        bit_at(0x400, 1) == false,
        bit_at(0x400, 2) == false,
        bit_at(0x400, 5) == false,
        bit_at(0x400, 6) == false,
        bit_at(0x400, 8) == false,
        bit_at(0x400, 9) == false,
        bit_at(0x400, 10) == true,
{
}

} // verus!
