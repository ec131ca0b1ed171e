//! Making and unmaking page directories.

#![allow(non_snake_case)]

use crate::virtual_memory::{PageDirectory, PhysicalAddress, NUM_PAGE_ENTRIES};
use crate::vm::mmu::Mmu;
use vstd::prelude::*;

verus! {

/// The frames of the tables that `dir` holds at the indices below `n`, in
/// the order of the indices.
pub open spec fn table_frames(dir: &PageDirectory, n: int) -> Seq<PhysicalAddress>
    decreases n,
{
    if n <= 0 {
        Seq::empty()
    } else if dir.table(n - 1) is Some {
        table_frames(dir, n - 1).push(dir.table_frame(n - 1))
    } else {
        table_frames(dir, n - 1)
    }
}

impl PageDirectory {
    /// A new, empty directory in a spare block; `None` when no block is
    /// left.
    pub fn new(mmu: &mut Mmu) -> (dir: Option<PageDirectory>)
        requires
            old(mmu).wf(),
        ensures
            final(mmu).wf(),
            final(mmu).cr3() == old(mmu).cr3(),
            final(mmu).kernel() == old(mmu).kernel(),
            final(mmu).flushed() == old(mmu).flushed(),
            final(mmu).zeroed() == old(mmu).zeroed(),
            old(mmu).spare().len() == 0 ==> dir is None && *final(mmu) == *old(mmu),
            old(mmu).spare().len() > 0 ==> {
                &&& dir matches Some(d)
                &&& d.wf()
                &&& d.base() == old(mmu).spare().last()
                &&& d.base() % 4096 == 0
                &&& forall|i: int| 0 <= i < NUM_PAGE_ENTRIES ==> #[trigger] d.table(i) is None
                &&& forall|a: crate::virtual_memory::LogicalAddress| #[trigger] d.entry_at(
                    a) is None
                &&& final(mmu).spare() == old(mmu).spare().drop_last()
            },
    {
        match mmu.takeBlock() {
            Some(block) => {
                let dir = PageDirectory::empty(block);
                proof {
                    assert forall|a: crate::virtual_memory::LogicalAddress| #[trigger]
                        dir.entry_at(a) is None by {
                        crate::virtual_memory::lemma_address_parts(a.0);
                        assert(dir.table(crate::virtual_memory::directory_index(
                            a.0) as int) is None);
                    }
                }
                Some(dir)
            },
            None => None,
        }
    }

    /// Unmakes the directory: the blocks of its tables, in the order of
    /// their indices, and then its own block become spare again. The pages
    /// that the tables name are not touched. The kernel's address space must
    /// be loaded, and the directory must not be the kernel's.
    pub fn destroy(self, mmu: &mut Mmu)
        requires
            self.wf(),
            old(mmu).wf(),
            self.base() % 4096 == 0,
            old(mmu).in_kernel_space(),
            self.base() != old(mmu).kernel(),
        ensures
            final(mmu).wf(),
            final(mmu).cr3() == old(mmu).cr3(),
            final(mmu).kernel() == old(mmu).kernel(),
            final(mmu).flushed() == old(mmu).flushed(),
            final(mmu).zeroed() == old(mmu).zeroed(),
            final(mmu).spare() == old(mmu).spare() + table_frames(
                &self,
                NUM_PAGE_ENTRIES as int,
            ).push(self.base()),
    {
        let mut dir = self;
        let mut index: usize = 0;
        while index < NUM_PAGE_ENTRIES
            invariant
                dir.wf(),
                self.wf(),
                mmu.wf(),
                index <= NUM_PAGE_ENTRIES,
                dir.base() == self.base(),
                mmu.cr3() == old(mmu).cr3(),
                mmu.kernel() == old(mmu).kernel(),
                mmu.flushed() == old(mmu).flushed(),
                mmu.zeroed() == old(mmu).zeroed(),
                mmu.spare() == old(mmu).spare() + table_frames(&self, index as int),
                forall|k: int|
                    index <= k < NUM_PAGE_ENTRIES ==> #[trigger] dir.table(k) == self.table(k)
                        && dir.table_frame(k) == self.table_frame(k),
            decreases NUM_PAGE_ENTRIES - index,
        {
            assert(dir.slot_wf(index as int));
            match dir.removeTable(index) {
                Some(table) => {
                    proof {
                        crate::vm::page_entry::lemma_entry_fields(
                            self.directory()[index as int].0,
                        );
                        assert(self.slot_wf(index as int));
                    }
                    let taken = mmu.provide(table.frame());
                    assert(taken);
                    assert(mmu.spare() =~= old(mmu).spare() + table_frames(&self, index + 1));
                },
                None => {},
            }
            index += 1;
        }
        let taken = mmu.provide(dir.frame());
        assert(taken);
        assert(mmu.spare() =~= old(mmu).spare() + table_frames(
            &self,
            NUM_PAGE_ENTRIES as int,
        ).push(self.base()));
    }
}

} // verus!
