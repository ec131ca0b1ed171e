//! The strategy that maps addresses to newly allocated frames.

#![allow(non_snake_case)]

use crate::virtual_memory::{LogicalAddress, PhysicalAddress};
use crate::vm::address_mapping::AddressMapping;
use crate::vm::frame_alloc::{
    alloc_rel, allocFrame, free_rel, freeFrame, fulfil_rel, fulfillReservedFrame, reserve_rel,
    reserveFrames, unreserve_rel, unreserveFrames, FrameAllocator,
};
use vstd::prelude::*;

verus! {

/// Alloc mapping: every page gets a frame of its own from the frame
/// allocator, which the strategy holds.
pub struct AllocMapping {
    pub frames: FrameAllocator,
}

impl AddressMapping for AllocMapping {
    open spec fn inv(&self) -> bool {
        self.frames.wf()
    }

    open spec fn allocated(
        pre: Self,
        addr: LogicalAddress,
        post: Self,
        frame: Option<PhysicalAddress>,
    ) -> bool {
        &&& alloc_rel(&pre.frames, &post.frames, frame)
        &&& frame matches Some(f) ==> f % 4096 == 0
    }

    open spec fn freed(pre: Self, addr: PhysicalAddress, post: Self) -> bool {
        free_rel(&pre.frames, addr, &post.frames)
    }

    open spec fn reserved(pre: Self, count: u32, post: Self, granted: bool) -> bool {
        reserve_rel(&pre.frames, count, &post.frames, granted)
    }

    open spec fn unreserved(pre: Self, count: u32, post: Self) -> bool {
        unreserve_rel(&pre.frames, count, &post.frames)
    }

    open spec fn fulfilled(
        pre: Self,
        addr: LogicalAddress,
        post: Self,
        frame: Option<PhysicalAddress>,
    ) -> bool {
        fulfil_rel(&pre.frames, &post.frames, frame)
    }

    /// A newly allocated frame, whatever the address.
    fn allocAddressMapping(&mut self, addr: LogicalAddress) -> (frame: Option<PhysicalAddress>) {
        allocFrame(&mut self.frames)
    }

    /// Gives the frame back to the allocator, which refuses a frame outside
    /// its region without effect.
    fn freeAddressMapping(&mut self, addr: PhysicalAddress) {
        let _ = freeFrame(&mut self.frames, addr);
    }

    /// Reserves `count` frames with the allocator.
    fn reserveAddressMapping(&mut self, count: u32) -> (outcome: Result<(), ()>) {
        reserveFrames(&mut self.frames, count)
    }

    /// Gives `count` reserved frames back to the allocator.
    fn unreserveAddressMapping(&mut self, count: u32) {
        unreserveFrames(&mut self.frames, count);
    }

    /// Chooses the frame for a reservation, whatever the address.
    fn fulfillAddressMapping(&mut self, addr: LogicalAddress) -> (frame: Option<PhysicalAddress>) {
        fulfillReservedFrame(&mut self.frames)
    }
}

} // verus!
