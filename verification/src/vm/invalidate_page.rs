//! Flushing a translation.

#![allow(non_snake_case)]

use crate::virtual_memory::LogicalAddress;
use crate::vm::mmu::Mmu;
use vstd::prelude::*;

verus! {

/// Flushes the translation of `addr` from the translation buffer: the
/// request is left with the paging unit.
pub fn invalidatePage(mmu: &mut Mmu, addr: LogicalAddress)
    ensures
        final(mmu).flushed() == old(mmu).flushed().push(addr),
        final(mmu).cr3() == old(mmu).cr3(),
        final(mmu).kernel() == old(mmu).kernel(),
        final(mmu).spare() == old(mmu).spare(),
        final(mmu).zeroed() == old(mmu).zeroed(),
{
    mmu.flush(addr);
}

} // verus!
