//! The paging unit of the processor, as far as the memory manager drives it.
//!
//! The manager never touches the hardware itself. It reads which directory is
//! loaded, and it leaves behind what has to be done to the machine: which
//! translations to flush and which frames to fill with zeroes. Whoever runs
//! the manager carries those requests out and clears them. Page tables and
//! directories are built in page-sized blocks that the kernel heap has set
//! aside beforehand; when none is left, building one fails.

#![allow(non_snake_case)]

use crate::virtual_memory::{LogicalAddress, PhysicalAddress};
use vstd::prelude::*;

verus! {

/// State of the paging unit and the requests pending for it.
pub struct Mmu {
    cr3: PhysicalAddress,
    kernel: PhysicalAddress,
    spare: Vec<PhysicalAddress>,
    flushed: Vec<LogicalAddress>,
    zeroed: Vec<PhysicalAddress>,
}

impl Mmu {
    /// Base of the directory that is loaded.
    pub closed spec fn cr3(&self) -> PhysicalAddress {
        self.cr3
    }

    /// Base of the kernel's directory.
    pub closed spec fn kernel(&self) -> PhysicalAddress {
        self.kernel
    }

    /// The blocks set aside for tables and directories; the last one is
    /// handed out first.
    pub closed spec fn spare(&self) -> Seq<PhysicalAddress> {
        self.spare@
    }

    /// The addresses whose translations are to be flushed, oldest first.
    pub closed spec fn flushed(&self) -> Seq<LogicalAddress> {
        self.flushed@
    }

    /// The frames that are to be filled with zeroes, oldest first.
    pub closed spec fn zeroed(&self) -> Seq<PhysicalAddress> {
        self.zeroed@
    }

    /// Every spare block is page aligned.
    pub open spec fn wf(&self) -> bool {
        forall|i: int| 0 <= i < self.spare().len() ==> #[trigger] self.spare()[i] % 4096 == 0
    }

    /// The directory at `base` is the one that is loaded.
    pub open spec fn live(&self, base: PhysicalAddress) -> bool {
        self.cr3() == base
    }

    /// The processor runs in the kernel's address space.
    pub open spec fn in_kernel_space(&self) -> bool {
        self.cr3() == self.kernel()
    }

    /// A paging unit with the directory at `cr3` loaded, the kernel's
    /// directory at `kernel`, no spare blocks and nothing pending.
    pub fn new(cr3: PhysicalAddress, kernel: PhysicalAddress) -> (mmu: Mmu)
        ensures
            mmu.wf(),
            mmu.cr3() == cr3,
            mmu.kernel() == kernel,
            mmu.spare().len() == 0,
            mmu.flushed().len() == 0,
            mmu.zeroed().len() == 0,
    {
        Mmu { cr3, kernel, spare: Vec::new(), flushed: Vec::new(), zeroed: Vec::new() }
    }

    /// Base of the directory that is loaded.
    pub fn get_cr3(&self) -> (base: PhysicalAddress)
        ensures
            base == self.cr3(),
    {
        self.cr3
    }

    /// Records that the directory at `base` has been loaded.
    pub fn set_cr3(&mut self, base: PhysicalAddress)
        ensures
            final(self).cr3() == base,
            final(self).kernel() == old(self).kernel(),
            final(self).spare() == old(self).spare(),
            final(self).flushed() == old(self).flushed(),
            final(self).zeroed() == old(self).zeroed(),
    {
        self.cr3 = base;
    }

    /// Base of the kernel's directory.
    pub fn kernelBase(&self) -> (base: PhysicalAddress)
        ensures
            base == self.kernel(),
    {
        self.kernel
    }

    /// Makes the directory at `base` known as the kernel's.
    pub fn publishKernel(&mut self, base: PhysicalAddress)
        ensures
            final(self).kernel() == base,
            final(self).cr3() == old(self).cr3(),
            final(self).spare() == old(self).spare(),
            final(self).flushed() == old(self).flushed(),
            final(self).zeroed() == old(self).zeroed(),
    {
        self.kernel = base;
    }

    /// Whether the directory at `base` is the one that is loaded.
    pub fn isLive(&self, base: PhysicalAddress) -> (live: bool)
        ensures
            live == self.live(base),
    {
        self.cr3 == base
    }

    /// Sets the block at `block` aside for a table or a directory. A block
    /// that is not page aligned is refused.
    pub fn provide(&mut self, block: PhysicalAddress) -> (taken: bool)
        requires
            old(self).wf(),
        ensures
            final(self).wf(),
            taken == (block % 4096 == 0),
            final(self).spare() == if taken {
                old(self).spare().push(block)
            } else {
                old(self).spare()
            },
            final(self).cr3() == old(self).cr3(),
            final(self).kernel() == old(self).kernel(),
            final(self).flushed() == old(self).flushed(),
            final(self).zeroed() == old(self).zeroed(),
    {
        if block % 4096 == 0 {
            self.spare.push(block);
            proof {
                assert forall|i: int| 0 <= i < self.spare().len() implies #[trigger] self.spare()[i]
                    % 4096 == 0 by {
                    if i < old(self).spare().len() {
                        assert(self.spare()[i] == old(self).spare()[i]);
                    }
                }
            }
            true
        } else {
            false
        }
    }

    /// Hands out a spare block, the one set aside last; `None` when none is
    /// left.
    pub fn takeBlock(&mut self) -> (block: Option<PhysicalAddress>)
        requires
            old(self).wf(),
        ensures
            final(self).wf(),
            final(self).cr3() == old(self).cr3(),
            final(self).kernel() == old(self).kernel(),
            final(self).flushed() == old(self).flushed(),
            final(self).zeroed() == old(self).zeroed(),
            old(self).spare().len() == 0 ==> block is None && *final(self) == *old(self),
            old(self).spare().len() > 0 ==> block == Some(old(self).spare().last())
                && final(self).spare() == old(self).spare().drop_last()
                    && old(self).spare().last() % 4096 == 0,
    {
        if self.spare.len() == 0 {
            return None;
        }
        let block = self.spare.pop();
        proof {
            if old(self).spare().len() > 0 {
                assert(old(self).spare()[old(self).spare().len() - 1] % 4096 == 0);
                assert forall|i: int| 0 <= i < self.spare().len() implies #[trigger] self.spare()[i]
                    % 4096 == 0 by {
                    assert(self.spare()[i] == old(self).spare()[i]);
                }
            }
        }
        block
    }

    /// Number of spare blocks.
    pub fn spareCount(&self) -> (count: usize)
        ensures
            count == self.spare().len(),
    {
        self.spare.len()
    }

    /// Asks for the frame at `frame` to be filled with zeroes.
    pub fn zeroFrame(&mut self, frame: PhysicalAddress)
        ensures
            final(self).zeroed() == old(self).zeroed().push(frame),
            final(self).cr3() == old(self).cr3(),
            final(self).kernel() == old(self).kernel(),
            final(self).spare() == old(self).spare(),
            final(self).flushed() == old(self).flushed(),
    {
        self.zeroed.push(frame);
    }

    /// Asks for the translation of `addr` to be flushed.
    pub fn flush(&mut self, addr: LogicalAddress)
        ensures
            final(self).flushed() == old(self).flushed().push(addr),
            final(self).cr3() == old(self).cr3(),
            final(self).kernel() == old(self).kernel(),
            final(self).spare() == old(self).spare(),
            final(self).zeroed() == old(self).zeroed(),
    {
        self.flushed.push(addr);
    }

    /// Hands over the pending flush requests, oldest first, and clears them.
    pub fn takeFlushed(&mut self) -> (pending: Vec<LogicalAddress>)
        ensures
            pending@ == old(self).flushed(),
            final(self).flushed().len() == 0,
            final(self).cr3() == old(self).cr3(),
            final(self).kernel() == old(self).kernel(),
            final(self).spare() == old(self).spare(),
            final(self).zeroed() == old(self).zeroed(),
    {
        let mut pending: Vec<LogicalAddress> = Vec::new();
        core::mem::swap(&mut self.flushed, &mut pending);
        pending
    }

    /// Hands over the pending zeroing requests, oldest first, and clears
    /// them.
    pub fn takeZeroed(&mut self) -> (pending: Vec<PhysicalAddress>)
        ensures
            pending@ == old(self).zeroed(),
            final(self).zeroed().len() == 0,
            final(self).cr3() == old(self).cr3(),
            final(self).kernel() == old(self).kernel(),
            final(self).spare() == old(self).spare(),
            final(self).flushed() == old(self).flushed(),
    {
        let mut pending: Vec<PhysicalAddress> = Vec::new();
        core::mem::swap(&mut self.zeroed, &mut pending);
        pending
    }
}

} // verus!
