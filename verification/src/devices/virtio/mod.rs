//! The virtio device family: split virtqueues, the register model of the virtio-mmio
//! transport (version 2), and the block and network devices on top of them.

use vstd::prelude::*;

pub mod blk_device_laws;
pub mod blk_drain;
pub mod blk_laws;
pub mod blk_request_laws;
pub mod block;
pub mod guest;
pub mod mmio;
pub mod mmio_regs;
pub mod net;
pub mod net_device_laws;
pub mod net_laws;
pub mod net_mmio;
pub mod queue;
pub mod register_laws;
pub mod regs;
pub mod ring_laws;

verus! {

/// Content of the magic-value register: "virt", little-endian.
pub const VIRTIO_MMIO_MAGIC: u32 = 0x7472_6976;

/// The modern transport.
pub const VIRTIO_MMIO_VERSION: u32 = 2;

/// Device type of a network card.
pub const VIRTIO_ID_NET: u32 = 1;

/// Device type of a block device.
pub const VIRTIO_ID_BLOCK: u32 = 2;

} // verus!
