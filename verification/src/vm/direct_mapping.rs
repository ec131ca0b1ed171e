//! The strategy that maps every address to itself.

#![allow(non_snake_case)]

use crate::virtual_memory::{LogicalAddress, PhysicalAddress};
use crate::vm::address_mapping::AddressMapping;
use vstd::prelude::*;

verus! {

/// Direct mapping: the physical address is the logical address. Nothing is
/// allocated, so nothing can run out and nothing needs to be given back.
pub struct DirectMapping;

impl AddressMapping for DirectMapping {
    open spec fn inv(&self) -> bool {
        true
    }

    open spec fn allocated(
        pre: Self,
        addr: LogicalAddress,
        post: Self,
        frame: Option<PhysicalAddress>,
    ) -> bool {
        frame == Some(addr.0)
    }

    open spec fn freed(pre: Self, addr: PhysicalAddress, post: Self) -> bool {
        true
    }

    open spec fn reserved(pre: Self, count: u32, post: Self, granted: bool) -> bool {
        granted
    }

    open spec fn unreserved(pre: Self, count: u32, post: Self) -> bool {
        true
    }

    open spec fn fulfilled(
        pre: Self,
        addr: LogicalAddress,
        post: Self,
        frame: Option<PhysicalAddress>,
    ) -> bool {
        frame == Some(addr.0)
    }

    /// The frame at the address itself.
    fn allocAddressMapping(&mut self, addr: LogicalAddress) -> (frame: Option<PhysicalAddress>) {
        Some(addr.0)
    }

    /// Nothing to give back.
    fn freeAddressMapping(&mut self, addr: PhysicalAddress) {
    }

    /// Always granted.
    fn reserveAddressMapping(&mut self, count: u32) -> (outcome: Result<(), ()>) {
        Ok(())
    }

    /// Nothing to give back.
    fn unreserveAddressMapping(&mut self, count: u32) {
    }

    /// The frame at the address itself.
    fn fulfillAddressMapping(&mut self, addr: LogicalAddress) -> (frame: Option<PhysicalAddress>) {
        Some(addr.0)
    }
}

} // verus!
