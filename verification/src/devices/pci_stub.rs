//! A PCI host bridge with nothing behind it, on the legacy configuration ports: a guest that
//! scans for devices finds none and goes on.

use vstd::prelude::*;

use super::device::Device;
use crate::bytes;

verus! {

/// The port that selects a configuration register.
pub const PCI_CONFIG_ADDRESS: u16 = 0xCF8;

/// The port through which the selected register is reached.
pub const PCI_CONFIG_DATA: u16 = 0xCFC;

/// The bridge; it claims the two ports, four bytes each.
pub struct PciHostBridgeStub {
    /// What was last written to the address port.
    address: u32,
}

/// What a read of `n` bytes at `offset` of the address port gives: its bytes, then zeros.
pub open spec fn address_bytes(address: u32, offset: u64, n: nat) -> Seq<u8> {
    Seq::new(
        n,
        |i: int|
            if offset + i < 4 {
                bytes::le32(address)[offset + i]
            } else {
                0
            },
    )
}

/// The address after a write of `data` at `offset`: the bytes written replace those there.
pub open spec fn address_patched(address: u32, offset: u64, data: Seq<u8>) -> u32 {
    bytes::u32_of(bytes::write_at(bytes::le32(address), offset as int, data))
}

impl PciHostBridgeStub {
    /// What the address port holds.
    pub closed spec fn selected(&self) -> u32 {
        self.address
    }

    pub fn new() -> (r: Self)
        ensures
            r.selected() == 0,
    {
        PciHostBridgeStub { address: 0 }
    }
}

impl Default for PciHostBridgeStub {
    fn default() -> (r: Self)
        ensures
            r.selected() == 0,
    {
        PciHostBridgeStub { address: 0 }
    }
}

/// An address that was written whole reads back.
pub proof fn address_roundtrip(old_address: u32, v: u32)
    ensures
        address_bytes(address_patched(old_address, 0, bytes::le32(v)), 0, 4) == bytes::le32(v),
{
    assert(bytes::write_at(bytes::le32(old_address), 0, bytes::le32(v)) =~= bytes::le32(v));
    bytes::le32_roundtrip(v);
    assert(address_bytes(v, 0, 4) =~= bytes::le32(v));
}

impl Device for PciHostBridgeStub {
    open spec fn reads(&self, offset: u64, before: Seq<u8>, post: &Self, after: Seq<u8>) -> bool {
        &&& *post == *self
        &&& after == if offset < 4 {
            address_bytes(self.selected(), offset, before.len())
        } else {
            Seq::new(before.len(), |i: int| 0xffu8)
        }
    }

    open spec fn writes(&self, offset: u64, data: Seq<u8>, post: &Self) -> bool {
        post.selected() == if offset < 4 {
            address_patched(self.selected(), offset, data)
        } else {
            self.selected()
        }
    }

    fn read(&mut self, offset: u64, data: &mut [u8]) {
        if offset < 4 {
            let b = bytes::to_le32(self.address);
            let n: usize = data.len();
            let mut i: usize = 0;
            while i < n
                invariant
                    i <= n,
                    offset < 4,
                    n == data@.len(),
                    n == old(data)@.len(),
                    b@ == bytes::le32(self.address),
                    forall|j: int|
                        0 <= j < i ==> data@[j] == address_bytes(self.address, offset, n as nat)[j],
                decreases n - i,
            {
                data[i] = if i < 4 - offset as usize {
                    b[offset as usize + i]
                } else {
                    0
                };
                i += 1;
            }
            assert(data@ =~= address_bytes(self.address, offset, n as nat));
        } else {
            bytes::fill(data, 0xff);
        }
    }

    fn write(&mut self, offset: u64, data: &[u8]) {
        if offset < 4 {
            let mut b = bytes::to_le32(self.address);
            let ghost was = b@;
            let mut i: usize = 0;
            while i < data.len() && i < 4 - offset as usize
                invariant
                    i <= data@.len(),
                    offset < 4,
                    i <= 4 - offset,
                    was.len() == 4,
                    b@ == bytes::write_at(was, offset as int, data@.take(i as int)),
                decreases data@.len() - i,
            {
                b[offset as usize + i] = data[i];
                i += 1;
                assert(b@ =~= bytes::write_at(was, offset as int, data@.take(i as int)));
            }
            assert(b@ =~= bytes::write_at(was, offset as int, data@));
            self.address = bytes::from_le32(&b);
        }
    }
}

} // verus!
