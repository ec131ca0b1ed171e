//! Strategies for choosing the frame behind a logical address.

#![allow(non_snake_case)]

use crate::virtual_memory::{LogicalAddress, PhysicalAddress};
use vstd::prelude::*;

verus! {

/// A strategy for finding, reserving and giving back the frames that
/// logical addresses are mapped to.
///
/// Each operation comes with a relation between the strategy before the
/// call, the arguments, the strategy after the call and the result. An
/// implementation says in that relation what the operation does; code that
/// is generic over the strategy hands the relation on to its callers.
pub trait AddressMapping: Sized {
    /// The strategy is in a state that its operations can work on.
    spec fn inv(&self) -> bool;

    /// What `allocAddressMapping` does.
    spec fn allocated(pre: Self, addr: LogicalAddress, post: Self,
        frame: Option<PhysicalAddress>) -> bool;

    /// What `freeAddressMapping` does.
    spec fn freed(pre: Self, addr: PhysicalAddress, post: Self) -> bool;

    /// What `reserveAddressMapping` does.
    spec fn reserved(pre: Self, count: u32, post: Self, granted: bool) -> bool;

    /// What `unreserveAddressMapping` does.
    spec fn unreserved(pre: Self, count: u32, post: Self) -> bool;

    /// What `fulfillAddressMapping` does.
    spec fn fulfilled(pre: Self, addr: LogicalAddress, post: Self,
        frame: Option<PhysicalAddress>) -> bool;

    /// A frame to map the page-aligned address `addr` to, or `None` when
    /// there is none to be had.
    fn allocAddressMapping(&mut self, addr: LogicalAddress) -> (frame: Option<PhysicalAddress>)
        requires
            old(self).inv(),
        ensures
            final(self).inv(),
            Self::allocated(*old(self), addr, *final(self), frame),
    ;

    /// Gives back the page-aligned frame `addr` that `allocAddressMapping`
    /// handed out.
    fn freeAddressMapping(&mut self, addr: PhysicalAddress)
        requires
            old(self).inv(),
            addr % 4096 == 0,
        ensures
            final(self).inv(),
            Self::freed(*old(self), addr, *final(self)),
    ;

    /// Sets `count` frames aside without choosing them yet.
    fn reserveAddressMapping(&mut self, count: u32) -> (outcome: Result<(), ()>)
        requires
            old(self).inv(),
        ensures
            final(self).inv(),
            Self::reserved(*old(self), count, *final(self), outcome is Ok),
    ;

    /// Gives `count` reserved frames back.
    fn unreserveAddressMapping(&mut self, count: u32)
        requires
            old(self).inv(),
        ensures
            final(self).inv(),
            Self::unreserved(*old(self), count, *final(self)),
    ;

    /// Chooses the frame for a page that was reserved before.
    fn fulfillAddressMapping(&mut self, addr: LogicalAddress) -> (frame: Option<PhysicalAddress>)
        requires
            old(self).inv(),
        ensures
            final(self).inv(),
            Self::fulfilled(*old(self), addr, *final(self), frame),
    ;
}

} // verus!
