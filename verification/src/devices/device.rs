//! What every emulated device is: something that answers reads and takes writes at offsets
//! within its own window.
//!
//! A device sees plain bytes and offsets, never a guest-physical address.

use vstd::prelude::*;

verus! {

pub trait Device: Sized {
    /// Whether a read at `offset` may fill `before` with `after` and leave the device as `post`.
    /// Unless an implementer says more, it may be so.
    open spec fn reads(&self, offset: u64, before: Seq<u8>, post: &Self, after: Seq<u8>) -> bool {
        true
    }

    /// Whether a write of `data` at `offset` may leave the device as `post`. Unless an
    /// implementer says more, it may be so.
    open spec fn writes(&self, offset: u64, data: Seq<u8>, post: &Self) -> bool {
        true
    }

    /// Handles a guest read of `data.len()` bytes at `offset`: fills `data`.
    fn read(&mut self, offset: u64, data: &mut [u8])
        ensures
            final(data)@.len() == old(data)@.len(),
            old(self).reads(offset, old(data)@, final(self), final(data)@),
    ;

    /// Handles a guest write of `data` at `offset`.
    fn write(&mut self, offset: u64, data: &[u8])
        ensures
            old(self).writes(offset, data@, final(self)),
    ;
}

/// An interrupt line towards the guest. A device asserts and deasserts it; how it reaches
/// the guest is its implementer's affair.
pub trait IrqLine: Sized {
    /// Whether driving the line to `active` may leave it as `post`. Unless an implementer says
    /// more, it may be so.
    open spec fn drives(&self, active: bool, post: &Self) -> bool {
        true
    }

    fn set(&mut self, active: bool)
        ensures
            old(self).drives(active, final(self)),
    ;
}

/// A line that leads nowhere.
pub struct NullIrq;

impl IrqLine for NullIrq {
    open spec fn drives(&self, active: bool, post: &Self) -> bool {
        *post == *self
    }

    fn set(&mut self, active: bool) {
    }
}

} // verus!
