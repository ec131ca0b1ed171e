//! Walking the entries of a directory, and setting the kernel's memory up.

#![allow(non_snake_case)]

use crate::byte_utils::bit_at;
use crate::virtual_memory::{
    addresses_from, directory_index, lemma_address_parts, page_base, range_limit, steps_in,
    table_base, AddressMapping, AllocMapping, DirectMapping, LogicalAddress, PAGE_ALIGN, PAGE_FREE,
    PAGE_GLOBAL, PAGE_SIZE, PAGE_WRITABLE, PageDirectory, PageEntry, PageTable, PhysicalAddress,
    TABLE_ALIGN, TABLE_SIZE, USER_MEM_START,
};
use crate::vm::frame_alloc::{
    allocFrame, fulfil_rel, initFrameAllocator, reserve_rel, FrameAllocator,
};
use crate::vm::mapped_memory::{lemma_present_flags, present_flags};
use crate::vm::memory_alloc::mapPage;
use crate::vm::mmu::Mmu;
use crate::vm::page_entry::{lemma_cleared, lemma_flag_bits, lemma_make, lemma_no_page, lemma_with};
use crate::vm::paging::{lemma_same_entry, page_start};
use vstd::prelude::*;

verus! {

/// How far a walk over the entries of `dir` moves on from `curr`: past the
/// whole region of a table where `curr` starts one that the directory does
/// not hold, and to the next page otherwise.
pub open spec fn stride_from(dir: &PageDirectory, curr: LogicalAddress) -> u32 {
    if curr.0 == table_base(curr.0) && !dir.directory()[directory_index(curr.0) as int].present() {
        TABLE_SIZE
    } else {
        PAGE_SIZE
    }
}

/// How far a walk over the entries of `dir` moves on from `curr`.
pub fn strideFrom(dir: &PageDirectory, curr: LogicalAddress) -> (stride: u32)
    requires
        dir.wf(),
    ensures
        stride == stride_from(dir, curr),
        stride == TABLE_SIZE ==> curr.0 % TABLE_SIZE == 0 && dir.table(
            directory_index(curr.0) as int,
        ) is None,
{
    proof {
        lemma_address_parts(curr.0);
        assert(dir.slot_wf(directory_index(curr.0) as int));
    }
    if curr.0 == TABLE_ALIGN(curr.0) {
        let entry = dir.getPageTableEntry(curr);
        if !entry.page_is_present() {
            return TABLE_SIZE;
        }
    }
    PAGE_SIZE
}

/// The address at which a walk over the entries of `dir` goes on after
/// `curr`. Addresses wrap at the top of the address space.
pub fn nextAddress(dir: &PageDirectory, curr: LogicalAddress) -> (next: LogicalAddress)
    requires
        dir.wf(),
    ensures
        next.0 == (curr.0 + stride_from(dir, curr)) % 0x1_0000_0000,
{
    curr.offset(strideFrom(dir, curr))
}

/// A walk over the pages of a range of addresses that passes over the
/// regions of tables which the directory does not hold.
#[derive(Debug)]
pub struct EntryIter {
    next: u64,
    end: u64,
}

impl EntryIter {
    /// The address that comes next, where the walk has not ended.
    pub closed spec fn position(&self) -> int {
        self.next as int
    }

    /// The address at which the walk ends.
    pub closed spec fn limit(&self) -> int {
        self.end as int
    }

    /// The walk stays inside the address space and on page boundaries.
    pub closed spec fn wf(&self) -> bool {
        &&& self.next % 4096 == 0
        &&& self.end <= 0x1_0000_0000
        &&& self.next <= 0x1_0000_0000
    }

    /// The next page of the walk through `dir`, or `None` at the end of the
    /// range.
    pub fn next(&mut self, dir: &PageDirectory) -> (page: Option<LogicalAddress>)
        requires
            old(self).wf(),
            dir.wf(),
        ensures
            final(self).wf(),
            final(self).limit() == old(self).limit(),
            old(self).position() % 4096 == 0,
            0 <= old(self).position() <= final(self).position() <= 0x1_0000_0000,
            old(self).limit() <= 0x1_0000_0000,
            old(self).position() < old(self).limit() ==> page == Some(
                LogicalAddress(old(self).position() as u32),
            ) && final(self).position() == old(self).position() + stride_from(
                dir,
                LogicalAddress(old(self).position() as u32),
            ),
            old(self).position() >= old(self).limit() ==> page is None && final(self).position()
                == old(self).position(),
    {
        if self.next < self.end {
            let current = LogicalAddress(self.next as u32);
            let stride = strideFrom(dir, current);
            self.next += stride as u64;
            Some(current)
        } else {
            None
        }
    }
}

/// Walks the pages that hold an address of `[start, end)` and that a table
/// of the directory can have an entry for. An `end` of 0 means the top of
/// the address space.
pub fn foreach_entry_in(start: u32, end: u32) -> (entries: EntryIter)
    ensures
        entries.wf(),
        entries.position() == page_base(start),
        entries.position() % 4096 == 0,
        entries.position() <= 0x1_0000_0000,
        entries.limit() == range_limit(end),
{
    let first = PAGE_ALIGN(start);
    EntryIter { next: first as u64, end: if end == 0 { 0x1_0000_0000 } else { end as u64 } }
}

/// The kernel's view of memory: the frame allocator, which holds the
/// kernel's directory, and the page of zeroes that copy-on-write reads share.
pub struct VirtualMemory {
    /// The strategy that hands out the frames of user memory.
    pub frames: AllocMapping,
    /// The frame of the page of zeroes.
    pub zeroedPage: PhysicalAddress,
}

/// The flags with which the kernel maps the page at `page`: writable, and
/// global below the start of user memory.
pub open spec fn kernel_flags(page: u32) -> u32 {
    if page < USER_MEM_START {
        0x102
    } else {
        0x002
    }
}

/// The entry with which the kernel maps the address `a` onto itself.
pub open spec fn kernel_entry(a: LogicalAddress) -> PageEntry {
    PageEntry::make(page_base(a.0), present_flags(kernel_flags(page_base(a.0))))
}

/// The entry for the address `a` once the frames of user memory up to
/// `memory` bytes have been handed to the allocator and the frame at
/// `zeroed` has been taken from it: every frame of user memory but that one
/// carries the free mark.
pub open spec fn kernel_entry_ready(a: LogicalAddress, memory: u32, zeroed: PhysicalAddress)
    -> PageEntry {
    if USER_MEM_START <= page_base(a.0) < memory {
        if page_base(a.0) == zeroed {
            kernel_entry(a).with(PAGE_FREE).cleared(PAGE_FREE)
        } else {
            kernel_entry(a).with(PAGE_FREE)
        }
    } else {
        kernel_entry(a)
    }
}

/// What the kernel's entry for an address says: the address is mapped onto
/// itself, present and writable and closed to user mode; it is global below
/// the start of user memory; and it carries the free mark exactly when it is
/// a frame of user memory other than the page of zeroes.
pub proof fn lemma_kernel_entry_ready(a: LogicalAddress, memory: u32, zeroed: PhysicalAddress)
    ensures
        kernel_entry_ready(a, memory, zeroed).address() == page_base(a.0),
        kernel_entry_ready(a, memory, zeroed).present(),
        kernel_entry_ready(a, memory, zeroed).writable(),
        !kernel_entry_ready(a, memory, zeroed).user(),
        kernel_entry_ready(a, memory, zeroed).global() == (page_base(a.0) < USER_MEM_START),
        kernel_entry_ready(a, memory, zeroed).free() == (USER_MEM_START <= page_base(a.0) < memory
            && page_base(a.0) != zeroed),
{
    let page = page_base(a.0);
    let plain = kernel_entry(a);
    lemma_present_flags(kernel_flags(page));
    lemma_make(page, present_flags(kernel_flags(page)));
    lemma_kernel_flag_bits();
    lemma_with(plain.0, PAGE_FREE);
    lemma_cleared(plain.with(PAGE_FREE).0, PAGE_FREE);
    lemma_flag_bits();
    lemma_page_base_twice(a.0);
}

/// Which of the named bits the kernel's flags have set.
proof fn lemma_kernel_flag_bits()
    by (bit_vector)
    ensures
        !bit_at(0x102, 0) && bit_at(0x102, 1) && !bit_at(0x102, 2) && bit_at(0x102, 8) && !bit_at(
            0x102,
            10,
        ),
        0x002u32 | 0x100u32 == 0x102u32,
{
}

/// Rounding down to a page twice is rounding down once.
proof fn lemma_page_base_twice(word: u32)
    by (bit_vector)
    ensures
        (word & 0xffff_f000) & 0xffff_f000 == word & 0xffff_f000,
{
}

/// Number of tables that map `memory` bytes from address 0.
pub open spec fn tables_for(memory: int) -> int {
    (memory + 0x3f_ffff) / 0x40_0000
}

impl VirtualMemory {
    /// The frame of the page of zeroes.
    pub open spec fn zeroed_page(&self) -> PhysicalAddress {
        self.zeroedPage
    }

    /// The kernel's directory.
    pub open spec fn kernel(&self) -> &PageDirectory {
        self.frames.frames.directory()
    }

    /// The kernel maps the first `memory` bytes of physical memory onto
    /// themselves and nothing else, the frames of user memory are with the
    /// allocator, and all of them but the page of zeroes are free.
    pub open spec fn ready(&self, memory: u32) -> bool {
        &&& self.frames.inv()
        &&& self.zeroed_page() == USER_MEM_START
        &&& self.frames.frames.region_start() == USER_MEM_START
        &&& self.frames.frames.region_end() == memory
        &&& self.frames.frames.current_frame() == USER_MEM_START
        &&& self.frames.frames.bytes_free() == memory - USER_MEM_START - PAGE_SIZE
        &&& self.frames.frames.honoured()
        &&& forall|a: LogicalAddress|
            a.0 < memory ==> #[trigger] self.kernel().entry_at(a) == Some(
                kernel_entry_ready(a, memory, USER_MEM_START),
            )
        &&& forall|a: LogicalAddress| a.0 >= memory ==> #[trigger] self.kernel().page_at(a) is None
    }
}

/// The kernel's directory.
pub fn kernelDirectory(memory: &VirtualMemory) -> (dir: &PageDirectory)
    ensures
        dir == memory.kernel(),
{
    memory.frames.frames.kernelDirectory()
}

/// The frame of the page of zeroes.
pub fn zeroedPage(memory: &VirtualMemory) -> (page: PhysicalAddress)
    ensures
        page == memory.zeroed_page(),
{
    memory.zeroedPage
}

/// Sets up the kernel's virtual memory for a machine with `numFrames`
/// frames. A directory is built that maps every frame onto itself, writable,
/// and global below the start of user memory, with a table for each region
/// of 4 MiB. The directory is made known as the kernel's. The frames of user
/// memory go to the frame allocator, and the first of them becomes the page
/// of zeroes.
///
/// The directory and its tables are built in spare blocks. `None`, with
/// nothing changed, when there are too few of them or the machine has no
/// user memory.
pub fn initVirtualMemory(mmu: &mut Mmu, numFrames: u32) -> (memory: Option<VirtualMemory>)
    requires
        old(mmu).wf(),
        numFrames <= 0xf_ffff,
    ensures
        final(mmu).wf(),
        memory is Some <==> numFrames * PAGE_SIZE > USER_MEM_START && old(mmu).spare().len()
            > tables_for(numFrames * PAGE_SIZE),
        memory is None ==> *final(mmu) == *old(mmu),
        memory matches Some(m) ==> {
            &&& m.ready((numFrames * PAGE_SIZE) as u32)
            &&& m.kernel().wf()
            &&& m.kernel().base() == old(mmu).spare().last()
            &&& final(mmu).kernel() == m.kernel().base()
            &&& final(mmu).cr3() == old(mmu).cr3()
            &&& final(mmu).zeroed() == old(mmu).zeroed().push(USER_MEM_START)
            &&& final(mmu).spare() == old(mmu).spare().take(
                old(mmu).spare().len() - 1 - tables_for(numFrames * PAGE_SIZE),
            )
            &&& final(mmu).flushed() == if old(mmu).live(old(mmu).spare().last()) {
                old(mmu).flushed() + addresses_from(0, numFrames * PAGE_SIZE, 4096)
            } else {
                old(mmu).flushed()
            }
        },
{
    let memSize: u32 = numFrames * PAGE_SIZE;
    let needed: usize = ((memSize as u64 + 0x3f_ffff) / 0x40_0000) as usize;
    if memSize <= USER_MEM_START || mmu.spareCount() <= needed {
        return None;
    }
    let ghost spare = mmu.spare();
    let mut dir = match PageDirectory::new(mmu) {
        Some(dir) => dir,
        None => {
            return None;
        },
    };
    let mut direct = DirectMapping;
    let mut addr: u32 = 0;
    while addr < memSize
        invariant
            dir.wf(),
            mmu.wf(),
            addr % 4096 == 0,
            memSize % 4096 == 0,
            addr <= memSize,
            needed == tables_for(memSize as int),
            spare.len() > needed,
            spare == old(mmu).spare(),
            dir.base() == spare.last(),
            mmu.cr3() == old(mmu).cr3(),
            mmu.kernel() == old(mmu).kernel(),
            mmu.zeroed() == old(mmu).zeroed(),
            mmu.flushed() == if old(mmu).live(spare.last()) {
                old(mmu).flushed() + addresses_from(0, addr as int, 4096)
            } else {
                old(mmu).flushed()
            },
            mmu.spare() == spare.take(spare.len() - 1 - tables_for(addr as int)),
            forall|a: LogicalAddress|
                page_start(a) < addr ==> #[trigger] dir.entry_at(a) == Some(kernel_entry(a)),
            forall|a: LogicalAddress|
                page_start(a) >= addr ==> #[trigger] dir.entry_at(a) == if table_base(a.0) < addr {
                    Some(PageEntry(0))
                } else {
                    None
                },
        decreases memSize - addr,
    {
        let here = LogicalAddress(addr);
        let ghost before = dir;
        proof {
            lemma_address_parts(addr);
            lemma_no_page();
        }
        if addr % TABLE_SIZE == 0 {
            assert(dir.entry_at(here) is None);
            let block = match mmu.takeBlock() {
                Some(block) => block,
                None => {
                    return None;
                },
            };
            let table = PageTable::new(block);
            dir.insertPageTable(table, here.get_page_table() as u32, PAGE_WRITABLE);
            proof {
                assert(mmu.spare() =~= spare.take(spare.len() - 1 - tables_for(addr + 4096)));
                assert forall|a: LogicalAddress|
                    page_start(a) < addr implies #[trigger] dir.entry_at(a)
                        == Some(kernel_entry(a)) by {
                    lemma_address_parts(a.0);
                    assert(before.entry_at(a) == Some(kernel_entry(a)));
                    assert(dir.table(directory_index(a.0) as int) == before.table(
                        directory_index(a.0) as int,
                    ));
                }
                assert forall|a: LogicalAddress|
                    page_start(a) >= addr implies #[trigger] dir.entry_at(a) == if table_base(a.0)
                    <= addr {
                    Some(PageEntry(0))
                } else {
                    None
                } by {
                    lemma_address_parts(a.0);
                    if directory_index(a.0) != directory_index(addr) {
                        assert(dir.table(directory_index(a.0) as int) == before.table(
                            directory_index(a.0) as int,
                        ));
                        assert(before.entry_at(a) == if table_base(a.0) < addr {
                            Some(PageEntry(0))
                        } else {
                            None::<PageEntry>
                        });
                    }
                }
            }
        }
        let ghost mid = dir;
        let flags = if addr < USER_MEM_START {
            PAGE_WRITABLE | PAGE_GLOBAL
        } else {
            PAGE_WRITABLE
        };
        proof {
            lemma_kernel_flag_bits();
            assert(mid.entry_at(here) == Some(PageEntry(0)));
        }
        let ghost flushed = mmu.flushed();
        let page = mapPage(&mut dir, mmu, &mut direct, here, flags);
        proof {
            assert(page == Some(addr));
            let so_far = addresses_from(0, addr as int, 4096);
            let further = addresses_from(0, addr + 4096, 4096);
            assert(steps_in(0, addr + 4096, 4096) == steps_in(0, addr as int, 4096) + 1);
            assert(steps_in(0, addr as int, 4096) == addr / 4096);
            assert(further =~= so_far.push(here));
            if old(mmu).live(spare.last()) {
                assert(mmu.flushed() == flushed.push(here));
                assert(mmu.flushed() =~= old(mmu).flushed() + further);
            }
            assert(tables_for(addr + 4096) == if addr % 0x40_0000 == 0 {
                tables_for(addr as int) + 1
            } else {
                tables_for(addr as int)
            });
            assert forall|a: LogicalAddress|
                page_start(a) < addr + 4096 implies #[trigger] dir.entry_at(a) == Some(
                kernel_entry(a),
            ) by {
                lemma_address_parts(a.0);
                lemma_same_entry(a, here);
                if page_start(a) != addr {
                    assert(mid.entry_at(a) == Some(kernel_entry(a)));
                }
            }
            assert forall|a: LogicalAddress|
                page_start(a) >= addr + 4096 implies #[trigger] dir.entry_at(a)
                    == if table_base(a.0)
                < addr + 4096 {
                Some(PageEntry(0))
            } else {
                None
            } by {
                lemma_address_parts(a.0);
            }
        }
        addr = addr + PAGE_SIZE;
    }
    mmu.publishKernel(dir.frame());
    let ghost built = dir;
    proof {
        assert forall|f: int| #[trigger]
            crate::vm::frame_alloc::frame_of_region(
                USER_MEM_START as int,
                memSize as int,
                f,
            ) implies built.entry_at(LogicalAddress(f as u32)) is Some by {
            lemma_address_parts(f as u32);
        }
    }
    let mut frames = initFrameAllocator(dir, USER_MEM_START, memSize);
    let ghost given = frames;
    let zeroed = match allocFrame(&mut frames) {
        Some(zeroed) => zeroed,
        None => {
            return None;
        },
    };
    mmu.zeroFrame(zeroed);
    proof {
        let held = choose|held: FrameAllocator| #[trigger]
            reserve_rel(&given, 1, &held, true) && held.wf() && fulfil_rel(
                &held,
                &frames,
                Some(zeroed),
            );
        lemma_address_parts(USER_MEM_START);
        assert(held.manages(USER_MEM_START as int));
        assert(built.entry_at(LogicalAddress(USER_MEM_START)) is Some);
        lemma_with(built.entry_at(LogicalAddress(USER_MEM_START))->0 .0, PAGE_FREE);
        lemma_flag_bits();
        assert(held.is_free(USER_MEM_START as int));
        assert(held.rank(zeroed as int) <= held.rank(USER_MEM_START as int));
        assert(zeroed == USER_MEM_START);
        assert forall|a: LogicalAddress| a.0 < memSize
            implies #[trigger] frames.directory().entry_at(
            a,
        ) == Some(kernel_entry_ready(a, memSize, USER_MEM_START)) by {
            lemma_address_parts(a.0);
            assert(built.entry_at(a) == Some(kernel_entry(a)));
            assert(given.directory().entry_at(a) == Some(
                if crate::vm::frame_alloc::frame_of_region(
                    USER_MEM_START as int,
                    memSize as int,
                    page_start(a),
                ) {
                    kernel_entry(a).with(PAGE_FREE)
                } else {
                    kernel_entry(a)
                },
            ));
        }
        assert forall|a: LogicalAddress| a.0 >= memSize
            implies #[trigger] frames.directory().page_at(a) is None by {
            lemma_address_parts(a.0);
            lemma_no_page();
            assert(built.entry_at(a) == if table_base(a.0) < memSize {
                Some(PageEntry(0))
            } else {
                None::<PageEntry>
            });
            if built.entry_at(a) is Some {
                lemma_with(0, PAGE_FREE);
                assert(given.directory().entry_at(a) == Some(PageEntry(0)));
            } else {
                assert(given.directory().entry_at(a) is None);
            }
        }
        assert(spare.take(spare.len() - 1 - tables_for(memSize as int)) =~= old(mmu).spare().take(
            old(mmu).spare().len() - 1 - tables_for(numFrames * PAGE_SIZE),
        ));
    }
    Some(VirtualMemory { frames: AllocMapping { frames }, zeroedPage: zeroed })
}

} // verus!
