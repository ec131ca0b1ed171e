//! Addresses, page entries and the constants of two-level paging.
//!
//! A logical address is split into a directory index (bits 22 to 31), a
//! table index (bits 12 to 21) and an offset into the page (bits 0 to 11).
//! A physical address is a plain 32-bit number.

#![allow(non_snake_case)]

use crate::byte_utils::{lemma_masks, FILTER_BIT_RANGE};
use vstd::prelude::*;

pub use crate::vm::address_mapping::AddressMapping;
pub use crate::vm::alloc_mapping::AllocMapping;
pub use crate::vm::direct_mapping::DirectMapping;
pub use crate::vm::paging::{PageDirectory, PageTable};

verus! {

/// Bytes in a page.
pub const PAGE_SIZE: u32 = 4096;

/// Where user memory starts; everything below belongs to the kernel.
pub const USER_MEM_START: u32 = 0x0100_0000;

/// Number of page entries in a table, and of table entries in a directory.
pub const NUM_PAGE_ENTRIES: usize = 1024;

/// Number of pages in kernel memory.
pub const NUM_KERNEL_PAGES: usize = 4096;

/// Bytes that one table maps.
pub const TABLE_SIZE: u32 = 0x0040_0000;

pub const PAGE_PRESENT_BIT: u8 = 0;

pub const PAGE_WRITABLE_BIT: u8 = 1;

pub const PAGE_USER_ACCESS_BIT: u8 = 2;

pub const PAGE_ACCESSED_BIT: u8 = 5;

pub const PAGE_DIRTY_BIT: u8 = 6;

pub const PAGE_GLOBAL_BIT: u8 = 8;

pub const PAGE_COPY_ON_WRITE_BIT: u8 = 9;

pub const PAGE_FREE_BIT: u8 = 10;

/// The entry maps a page.
pub const PAGE_PRESENT: u32 = 0x001;

/// The page may be written.
pub const PAGE_WRITABLE: u32 = 0x002;

/// User mode may touch the page.
pub const PAGE_USER_ACCESS: u32 = 0x004;

/// The translation survives a switch of address space.
pub const PAGE_GLOBAL: u32 = 0x100;

/// The page is shared until its first write.
pub const PAGE_COPY_ON_WRITE: u32 = 0x200;

/// The frame is free to be handed out, or the page is reserved and not yet
/// backed.
pub const PAGE_FREE: u32 = 0x400;

/// A physical address.
pub type PhysicalAddress = u32;

/// A logical address, as a program uses it.
#[derive(Copy, Clone, Debug, PartialEq, Eq, Structural)]
pub struct LogicalAddress(pub u32);

/// One entry of a page table or a page directory: a frame address in bits 12
/// to 31 and flags in bits 0 to 11.
#[derive(Copy, Clone, Default, Debug, PartialEq, Eq, Structural)]
pub struct PageEntry(pub u32);

/// The physical address that stands for no memory.
pub const PHYS_NULL: PhysicalAddress = 0;

/// The physical address that stands for a failed allocation.
pub const NOT_A_FRAME: PhysicalAddress = 0xffff_ffff;

/// `address` rounded down to the start of its page.
pub open spec fn page_base(address: u32) -> u32 {
    address & 0xffff_f000
}

/// `address` rounded down to the start of the region of its table.
pub open spec fn table_base(address: u32) -> u32 {
    address & 0xffc0_0000
}

/// Index of the directory entry for `address`.
pub open spec fn directory_index(address: u32) -> u32 {
    address >> 22
}

/// Index of the table entry for `address`.
pub open spec fn table_index(address: u32) -> u32 {
    (address >> 12) & 0x3ff
}

/// Offset of `address` in its page.
pub open spec fn page_offset(address: u32) -> u32 {
    address & 0xfff
}

/// How the three parts of an address add up to it, and what rounding down
/// means in arithmetic.
pub proof fn lemma_address_parts(address: u32)
    by (bit_vector)
    ensures
        page_base(address) == address - address % 4096,
        page_base(address) % 4096 == 0,
        table_base(address) == address - address % 0x40_0000,
        table_base(address) % 0x40_0000 == 0,
        page_offset(address) == address % 4096,
        directory_index(address) == address / 0x40_0000,
        table_index(address) == (address / 4096) % 1024,
        directory_index(address) < 1024,
        table_index(address) < 1024,
        page_offset(address) < 4096,
        address == directory_index(address) * 0x40_0000 + table_index(address) * 4096
            + page_offset(address),
        page_base(address) == directory_index(address) * 0x40_0000 + table_index(address) * 4096,
        directory_index(page_base(address)) == directory_index(address),
        table_index(page_base(address)) == table_index(address),
        page_offset(page_base(address)) == 0,
{
}

/// Rounds an address down to a page boundary.
pub fn PAGE_ALIGN(address: u32) -> (aligned: u32)
    ensures
        aligned == page_base(address),
        aligned % PAGE_SIZE == 0,
        aligned <= address < aligned + PAGE_SIZE,
{
    proof {
        lemma_masks();
        lemma_address_parts(address);
    }
    FILTER_BIT_RANGE(address, 12, 32)
}

/// Rounds an address down to a table boundary.
pub fn TABLE_ALIGN(address: u32) -> (aligned: u32)
    ensures
        aligned == table_base(address),
        aligned % TABLE_SIZE == 0,
        aligned <= address < aligned + TABLE_SIZE,
{
    proof {
        lemma_masks();
        lemma_address_parts(address);
    }
    FILTER_BIT_RANGE(address, 22, 32)
}

/// The error value that says a range could be mapped up to, and not
/// including, `address`: the last byte before it. For a page-aligned
/// `address` the value is never page aligned, so it cannot be taken for a
/// page; for address 0 it is `NOT_A_FRAME`.
pub fn ERROR_AT(address: u32) -> (error: u32)
    ensures
        error == if address == 0 {
            NOT_A_FRAME
        } else {
            (address - 1) as u32
        },
        address % PAGE_SIZE == 0 ==> error % PAGE_SIZE == PAGE_SIZE - 1,
{
    address.wrapping_sub(1)
}

impl LogicalAddress {
    /// The address with the given directory index, table index and offset.
    /// Each part is cut to its field: 10, 10 and 12 bits.
    pub fn new(tableIndex: u16, pageIndex: u16, offset: u16) -> (addr: Self)
        ensures
            addr.0 == (((tableIndex as u32) & 0x3ff) << 22) | (((
                pageIndex as u32) & 0x3ff) << 12) | (
            (offset as u32) & 0xfff),
            tableIndex < 1024 && pageIndex < 1024 && offset < 4096 ==> {
                &&& directory_index(addr.0) == tableIndex
                &&& table_index(addr.0) == pageIndex
                &&& page_offset(addr.0) == offset
                &&& addr.0 == tableIndex * 0x40_0000 + pageIndex * 4096 + offset
            },
    {
        let t: u32 = (tableIndex as u32) & 0x3ff;
        let p: u32 = (pageIndex as u32) & 0x3ff;
        let o: u32 = (offset as u32) & 0xfff;
        proof {
            lemma_new_parts(tableIndex, pageIndex, offset);
        }
        LogicalAddress((t << 22) | (p << 12) | o)
    }

    /// The address `bytes` further on. Addresses wrap at the top of the
    /// address space, so that the end of a range that reaches the last byte
    /// is address 0.
    pub fn offset(self, bytes: u32) -> (moved: LogicalAddress)
        ensures
            moved.0 == (self.0 + bytes) % 0x1_0000_0000,
    {
        LogicalAddress(self.0.wrapping_add(bytes))
    }
}

/// What `LogicalAddress::new` builds from parts that fit their fields.
pub proof fn lemma_new_parts(t: u16, p: u16, o: u16)
    by (bit_vector)
    ensures
        t < 1024 && p < 1024 && o < 4096 ==> {
            let a = (((t as u32) & 0x3ff) << 22) | (((p as u32) & 0x3ff) << 12) | ((o as u32)
                & 0xfff);
            &&& a >> 22 == t
            &&& (a >> 12) & 0x3ff == p
            &&& a & 0xfff == o
            &&& a == t * 0x40_0000 + p * 4096 + o
        },
{
}

/// The address `a` lies in one of the pages that hold an address of
/// `[start, end)`; an `end` of 0 is the top of the address space.
pub open spec fn in_span(start: u32, end: u32, a: LogicalAddress) -> bool {
    page_base(start) <= page_base(a.0) < range_limit(end)
}

/// The end of a range as a number that the whole address space fits under:
/// an end of 0 means the top of the address space.
pub open spec fn range_limit(end: u32) -> int {
    if end == 0 {
        0x1_0000_0000
    } else {
        end as int
    }
}

/// Number of steps of width `step` that start in `[next, limit)`, counted
/// from `next`.
pub open spec fn steps_in(next: int, limit: int, step: int) -> nat {
    if limit <= next {
        0
    } else {
        ((limit - next + step - 1) / step) as nat
    }
}

/// The addresses `next`, `next + step`, … that lie below `limit`.
pub open spec fn addresses_from(next: int, limit: int, step: int) -> Seq<LogicalAddress> {
    Seq::new(steps_in(next, limit, step), |k: int| LogicalAddress((next + k * step) as u32))
}

/// The page-aligned addresses of the pages that hold an address of
/// `[start, end)`, in rising order; an `end` of 0 is the top of the address
/// space.
pub open spec fn pages_in(start: u32, end: u32) -> Seq<LogicalAddress> {
    addresses_from(page_base(start) as int, range_limit(end), PAGE_SIZE as int)
}

/// The table-aligned addresses of the table regions that hold an address of
/// `[start, end)`, in rising order; an `end` of 0 is the top of the address
/// space.
pub open spec fn tables_in(start: u32, end: u32) -> Seq<LogicalAddress> {
    addresses_from(table_base(start) as int, range_limit(end), TABLE_SIZE as int)
}

/// Taking one step: the first address is `next`, and the rest are the
/// addresses from `next + step`.
pub proof fn lemma_addresses_step(next: int, limit: int, step: int)
    requires
        next < limit,
        step == 4096 || step == 0x40_0000,
    ensures
        addresses_from(next, limit, step).len() > 0,
        addresses_from(next, limit, step)[0] == LogicalAddress(next as u32),
        addresses_from(next, limit, step).skip(1) == addresses_from(next + step, limit, step),
{
    let all = addresses_from(next, limit, step);
    let rest = addresses_from(next + step, limit, step);
    assert(steps_in(next + step, limit, step) + 1 == steps_in(next, limit, step));
    assert forall|k: int| 0 <= k < rest.len() implies all.skip(1)[k] == rest[k] by {
        assert(next + (k + 1) * step == next + step + k * step) by (nonlinear_arith);
    }
    assert(all.skip(1) =~= rest);
    assert(next + 0 * step == next);
}

/// A walk over the pages of a range of addresses.
#[derive(Debug)]
pub struct PageIter {
    next: u64,
    end: u64,
}

impl PageIter {
    /// The pages still to come.
    pub closed spec fn view(&self) -> Seq<LogicalAddress> {
        addresses_from(self.next as int, self.end as int, PAGE_SIZE as int)
    }

    /// The address that comes next, where the walk has not ended.
    pub closed spec fn position(&self) -> int {
        self.next as int
    }

    /// The address at which the walk ends.
    pub closed spec fn limit(&self) -> int {
        self.end as int
    }

    /// The walk stays inside the address space and on page boundaries.
    pub closed spec fn wf(&self) -> bool {
        &&& self.next % 4096 == 0
        &&& self.end <= 0x1_0000_0000
        &&& self.next <= 0x1_0000_0000
    }

    /// The next page, or `None` at the end of the range.
    pub fn next(&mut self) -> (page: Option<LogicalAddress>)
        requires
            old(self).wf(),
        ensures
            final(self).wf(),
            old(self)@.len() == 0 ==> page is None && final(self)@ == old(self)@,
            old(self)@.len() > 0 ==> page == Some(old(self)@[0]) && final(self)@ == old(self)@.skip(
                1,
            ),
            final(self).limit() == old(self).limit(),
            old(self).position() < old(self).limit() ==> page == Some(
                LogicalAddress(old(self).position() as u32),
            ) && final(self).position() == old(self).position() + PAGE_SIZE,
            old(self).position() >= old(self).limit() ==> page is None && final(self).position()
                == old(self).position(),
            old(self).position() % 4096 == 0,
            0 <= old(self).position() <= 0x1_0000_0000,
            (old(self)@.len() == 0) == (old(self).position() >= old(self).limit()),
    {
        if self.next < self.end {
            proof {
                lemma_addresses_step(self.next as int, self.end as int, PAGE_SIZE as int);
            }
            let current = LogicalAddress(self.next as u32);
            self.next += PAGE_SIZE as u64;
            Some(current)
        } else {
            None
        }
    }
}

/// Walks the pages that hold an address of `[start, end)`. An `end` of 0
/// means the top of the address space.
pub fn foreach_page_in(start: u32, end: u32) -> (pages: PageIter)
    ensures
        pages.wf(),
        pages@ == pages_in(start, end),
        pages.position() == page_base(start),
        pages.position() % 4096 == 0,
        pages.limit() == range_limit(end),
{
    let first = PAGE_ALIGN(start);
    PageIter { next: first as u64, end: if end == 0 { 0x1_0000_0000 } else { end as u64 } }
}

/// A walk over the table regions of a range of addresses.
#[derive(Debug)]
pub struct TableIter {
    next: u64,
    end: u64,
}

impl TableIter {
    /// The table regions still to come.
    pub closed spec fn view(&self) -> Seq<LogicalAddress> {
        addresses_from(self.next as int, self.end as int, TABLE_SIZE as int)
    }

    /// The address that comes next, where the walk has not ended.
    pub closed spec fn position(&self) -> int {
        self.next as int
    }

    /// The address at which the walk ends.
    pub closed spec fn limit(&self) -> int {
        self.end as int
    }

    /// The walk stays inside the address space and on table boundaries.
    pub closed spec fn wf(&self) -> bool {
        &&& self.next % 0x40_0000 == 0
        &&& self.end <= 0x1_0000_0000
        &&& self.next <= 0x1_0000_0000
    }

    /// The next table region, or `None` at the end of the range.
    pub fn next(&mut self) -> (table: Option<LogicalAddress>)
        requires
            old(self).wf(),
        ensures
            final(self).wf(),
            old(self)@.len() == 0 ==> table is None && final(self)@ == old(self)@,
            old(self)@.len() > 0 ==> table == Some(old(self)@[0]) && final(self)@
                == old(self)@.skip(
                1,
            ),
            final(self).limit() == old(self).limit(),
            old(self).position() < old(self).limit() ==> table == Some(
                LogicalAddress(old(self).position() as u32),
            ) && final(self).position() == old(self).position() + TABLE_SIZE,
            old(self).position() >= old(self).limit() ==> table is None && final(self).position()
                == old(self).position(),
            old(self).position() % 0x40_0000 == 0,
            0 <= old(self).position() <= 0x1_0000_0000,
            (old(self)@.len() == 0) == (old(self).position() >= old(self).limit()),
    {
        if self.next < self.end {
            proof {
                lemma_addresses_step(self.next as int, self.end as int, TABLE_SIZE as int);
            }
            let current = LogicalAddress(self.next as u32);
            self.next += TABLE_SIZE as u64;
            Some(current)
        } else {
            None
        }
    }
}

/// Walks the table regions that hold an address of `[start, end)`. An `end`
/// of 0 means the top of the address space.
pub fn foreach_table_in(start: u32, end: u32) -> (tables: TableIter)
    ensures
        tables.wf(),
        tables@ == tables_in(start, end),
        tables.position() == table_base(start),
        tables.limit() == range_limit(end),
{
    let first = TABLE_ALIGN(start);
    TableIter { next: first as u64, end: if end == 0 { 0x1_0000_0000 } else { end as u64 } }
}

} // verus!
