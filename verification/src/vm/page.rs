//! The contents of a page, and pages taken from the frame allocator.

#![allow(non_snake_case)]

use crate::virtual_memory::{PhysicalAddress, PAGE_SIZE};
use crate::vm::frame_alloc::{alloc_rel, allocFrame, free_rel, freeFrame, FrameAllocator};
use crate::vm::mmu::Mmu;
use vstd::prelude::*;

verus! {

/// The bytes of one page.
pub struct Page {
    bytes: Vec<u8>,
}

impl Page {
    /// The bytes of the page, lowest address first.
    pub closed spec fn view(&self) -> Seq<u8> {
        self.bytes@
    }

    /// The page has its 4096 bytes.
    pub open spec fn wf(&self) -> bool {
        self@.len() == PAGE_SIZE
    }

    /// The page with the given bytes; `None` unless there are 4096 of them.
    pub fn from_bytes(bytes: Vec<u8>) -> (page: Option<Page>)
        ensures
            bytes.len() == PAGE_SIZE ==> page is Some && page->0@ == bytes@ && page->0.wf(),
            bytes.len() != PAGE_SIZE ==> page is None,
    {
        if bytes.len() == PAGE_SIZE as usize {
            Some(Page { bytes })
        } else {
            None
        }
    }

    /// The bytes of the page.
    pub fn bytes(&self) -> (bytes: &Vec<u8>)
        ensures
            bytes@ == self@,
    {
        &self.bytes
    }

    /// Sets every byte of the page to 0.
    pub fn zero(&mut self)
        requires
            old(self).wf(),
        ensures
            final(self).wf(),
            forall|i: int| 0 <= i < PAGE_SIZE ==> final(self)@[i] == 0,
    {
        let mut i: usize = 0;
        while i < PAGE_SIZE as usize
            invariant
                self.wf(),
                i <= PAGE_SIZE,
                forall|k: int| 0 <= k < i ==> self@[k] == 0,
            decreases PAGE_SIZE - i,
        {
            self.bytes.set(i, 0);
            i += 1;
        }
    }

    /// Allocates a frame for a new page and asks for it to be filled with
    /// zeroes. The kernel's address space must be loaded. `None` when no
    /// frame is to be had, and for the frame at address 0, which cannot
    /// serve as a page.
    pub fn new(mmu: &mut Mmu, allocator: &mut FrameAllocator) -> (page: Option<PhysicalAddress>)
        requires
            old(mmu).in_kernel_space(),
            old(allocator).wf(),
        ensures
            final(allocator).wf(),
            exists|frame: Option<PhysicalAddress>| #[trigger]
                alloc_rel(old(allocator), final(allocator), frame) && page == (if frame == Some(
                    0u32,
                ) {
                    None
                } else {
                    frame
                }),
            page matches Some(p) ==> p % 4096 == 0 && p != 0,
            final(mmu).zeroed() == if page is Some {
                old(mmu).zeroed().push(page->0)
            } else {
                old(mmu).zeroed()
            },
            final(mmu).cr3() == old(mmu).cr3(),
            final(mmu).kernel() == old(mmu).kernel(),
            final(mmu).spare() == old(mmu).spare(),
            final(mmu).flushed() == old(mmu).flushed(),
    {
        let frame = match allocFrame(allocator) {
            Some(frame) => frame,
            None => {
                return None;
            },
        };
        if frame == 0 {
            return None;
        }
        mmu.zeroFrame(frame);
        Some(frame)
    }

    /// Gives the frame of a page from `new` back to the allocator. The
    /// kernel's address space must be loaded. Returns whether the request
    /// was in order: the frame lies in the allocator's region.
    pub fn freePage(page: PhysicalAddress, mmu: &Mmu, allocator: &mut FrameAllocator) -> (legal:
        bool)
        requires
            mmu.in_kernel_space(),
            old(allocator).wf(),
            page % 4096 == 0,
        ensures
            final(allocator).wf(),
            free_rel(old(allocator), page, final(allocator)),
            legal == old(allocator).manages(page as int),
    {
        freeFrame(allocator, page)
    }

    /// Copies every byte of the page to `to`.
    pub fn copyPage(&self, to: &mut Page)
        requires
            self.wf(),
            old(to).wf(),
        ensures
            final(to).wf(),
            final(to)@ == self@,
    {
        let mut i: usize = 0;
        while i < PAGE_SIZE as usize
            invariant
                self.wf(),
                to.wf(),
                i <= PAGE_SIZE,
                forall|k: int| 0 <= k < i ==> to@[k] == self@[k],
            decreases PAGE_SIZE - i,
        {
            to.bytes.set(i, self.bytes[i]);
            i += 1;
        }
        assert(to@ =~= self@);
    }
}

} // verus!
