//! The register model that all virtio-mmio devices share: feature negotiation, queue
//! programming, status and interrupt bits.

use vstd::prelude::*;

use super::mmio_regs as reg;
use super::queue::QueueConfig;
use super::{VIRTIO_MMIO_MAGIC, VIRTIO_MMIO_VERSION};
use crate::bytes;

verus! {

/// What the vendor register reads; any number but zero would do.
pub const VENDOR: u32 = 0x554d_4551;

/// Interrupt status bit: a buffer was used.
pub const INT_USED_RING: u32 = 0x1;

/// Feature bit 32: a modern device.
pub const VIRTIO_F_VERSION_1: u64 = 0x1_0000_0000;

/// The largest queue that a device offers.
pub const QUEUE_SIZE_MAX: u16 = 256;

/// What the driver has programmed of one queue, and how far the device has come in it.
#[derive(Debug, Clone, Copy)]
pub struct QueueState {
    pub num: u16,
    pub ready: bool,
    pub desc: u64,
    pub avail: u64,
    pub used: u64,
    pub last_avail_idx: u16,
}

/// The transport registers that belong to no queue.
#[derive(Debug, Clone, Copy)]
pub struct MmioRegs {
    pub status: u32,
    /// The queue that the queue registers speak of.
    pub queue_sel: u32,
    /// Which half of the device's features the driver reads.
    pub device_features_sel: u32,
    /// Which half of its own features the driver writes.
    pub driver_features_sel: u32,
    pub driver_features: u64,
    pub interrupt_status: u32,
}

/// A queue after reset.
pub open spec fn blank_queue() -> QueueState {
    QueueState { num: 0, ready: false, desc: 0, avail: 0, used: 0, last_avail_idx: 0 }
}

/// The registers of a new device.
pub open spec fn blank_regs() -> MmioRegs {
    MmioRegs {
        status: 0,
        queue_sel: 0,
        device_features_sel: 0,
        driver_features_sel: 0,
        driver_features: 0,
        interrupt_status: 0,
    }
}

/// `v` with its lower half replaced.
pub open spec fn with_low(v: u64, half: u32) -> u64 {
    (v as int / 0x1_0000_0000 * 0x1_0000_0000 + half) as u64
}

/// `v` with its upper half replaced.
pub open spec fn with_high(v: u64, half: u32) -> u64 {
    (v as int % 0x1_0000_0000 + half * 0x1_0000_0000) as u64
}

/// The half of `v` that a selector picks: the upper one for 1, else the lower one.
pub open spec fn half_of(v: u64, sel: u32) -> u32 {
    if sel == 1 {
        (v / 0x1_0000_0000) as u32
    } else {
        (v % 0x1_0000_0000) as u32
    }
}

/// The number that a register write carries: its first four bytes, zero where there are fewer.
pub open spec fn reg_val(data: Seq<u8>) -> u32 {
    bytes::u32_of(
        Seq::new(
            4,
            |i: int|
                if i < data.len() {
                    data[i]
                } else {
                    0
                },
        ),
    )
}

/// What a read of `n` bytes of a register gives: its four bytes, then zeros.
pub open spec fn reg_bytes(val: u32, n: nat) -> Seq<u8> {
    Seq::new(
        n,
        |i: int|
            if i < 4 {
                bytes::le32(val)[i]
            } else {
                0
            },
    )
}

/// What a read of `n` bytes at `offset` of a configuration space gives: its bytes, then zeros.
pub open spec fn config_bytes(config: Seq<u8>, offset: u64, n: nat) -> Seq<u8> {
    Seq::new(
        n,
        |i: int|
            if offset + i < config.len() {
                config[offset + i]
            } else {
                0
            },
    )
}

/// The registers after a write of `val` at `offset`.
pub open spec fn regs_written(r: MmioRegs, offset: u64, val: u32) -> MmioRegs {
    if offset == reg::DEVICE_FEATURES_SEL {
        MmioRegs { device_features_sel: val, ..r }
    } else if offset == reg::DRIVER_FEATURES_SEL {
        MmioRegs { driver_features_sel: val, ..r }
    } else if offset == reg::DRIVER_FEATURES {
        MmioRegs {
            driver_features: if r.driver_features_sel == 1 {
                with_high(r.driver_features, val)
            } else {
                with_low(r.driver_features, val)
            },
            ..r
        }
    } else if offset == reg::QUEUE_SEL {
        MmioRegs { queue_sel: val, ..r }
    } else if offset == reg::STATUS && val == 0 {
        MmioRegs { status: 0, interrupt_status: 0, ..r }
    } else if offset == reg::STATUS {
        MmioRegs { status: val, ..r }
    } else if offset == reg::INTERRUPT_ACK {
        MmioRegs { interrupt_status: r.interrupt_status & !val, ..r }
    } else {
        r
    }
}

/// The selected queue after a write of `val` at `offset`.
pub open spec fn queue_programmed(q: QueueState, offset: u64, val: u32) -> QueueState {
    if offset == reg::QUEUE_NUM {
        QueueState { num: (val % 0x1_0000) as u16, ..q }
    } else if offset == reg::QUEUE_READY {
        QueueState { ready: val % 2 == 1, ..q }
    } else if offset == reg::QUEUE_DESC_LOW {
        QueueState { desc: with_low(q.desc, val), ..q }
    } else if offset == reg::QUEUE_DESC_HIGH {
        QueueState { desc: with_high(q.desc, val), ..q }
    } else if offset == reg::QUEUE_AVAIL_LOW {
        QueueState { avail: with_low(q.avail, val), ..q }
    } else if offset == reg::QUEUE_AVAIL_HIGH {
        QueueState { avail: with_high(q.avail, val), ..q }
    } else if offset == reg::QUEUE_USED_LOW {
        QueueState { used: with_low(q.used, val), ..q }
    } else if offset == reg::QUEUE_USED_HIGH {
        QueueState { used: with_high(q.used, val), ..q }
    } else {
        q
    }
}

/// What a register below the configuration space reads, on a device of type `id` that offers
/// `features`; `ready` is that of the selected queue.
pub open spec fn reg_read(r: MmioRegs, id: u32, features: u64, ready: bool, offset: u64) -> u32 {
    if offset == reg::MAGIC_VALUE {
        VIRTIO_MMIO_MAGIC
    } else if offset == reg::VERSION {
        VIRTIO_MMIO_VERSION
    } else if offset == reg::DEVICE_ID {
        id
    } else if offset == reg::VENDOR_ID {
        VENDOR
    } else if offset == reg::DEVICE_FEATURES {
        half_of(features, r.device_features_sel)
    } else if offset == reg::QUEUE_NUM_MAX {
        QUEUE_SIZE_MAX as u32
    } else if offset == reg::QUEUE_READY {
        if ready {
            1
        } else {
            0
        }
    } else if offset == reg::INTERRUPT_STATUS {
        r.interrupt_status
    } else if offset == reg::STATUS {
        r.status
    } else {
        0
    }
}

/// Whether the write is a driver's reset: zero into the status register.
pub open spec fn is_reset(offset: u64, val: u32) -> bool {
    offset == reg::STATUS && val == 0
}

/// Whether the write acknowledges the last pending interrupt bit.
pub open spec fn acks_all(r: MmioRegs, offset: u64, val: u32) -> bool {
    offset == reg::INTERRUPT_ACK && r.interrupt_status & !val == 0
}

/// The registers with the used-buffer interrupt pending.
pub open spec fn regs_raised(r: MmioRegs) -> MmioRegs {
    MmioRegs { interrupt_status: r.interrupt_status | INT_USED_RING, ..r }
}

impl QueueState {
    /// Where the queue stands, as a virtqueue takes it.
    pub open spec fn config_spec(self) -> QueueConfig {
        QueueConfig {
            size: self.num,
            desc_table: self.desc,
            avail_ring: self.avail,
            used_ring: self.used,
            ready: true,
        }
    }

    pub fn config(&self) -> (r: QueueConfig)
        ensures
            r == self.config_spec(),
    {
        QueueConfig {
            size: self.num,
            desc_table: self.desc,
            avail_ring: self.avail,
            used_ring: self.used,
            ready: true,
        }
    }

    /// Applies a write to one of the queue registers.
    pub fn program(&mut self, offset: u64, val: u32)
        ensures
            *final(self) == queue_programmed(*old(self), offset, val),
    {
        match offset {
            reg::QUEUE_NUM => self.num = (val % 0x1_0000) as u16,
            reg::QUEUE_READY => self.ready = val % 2 == 1,
            reg::QUEUE_DESC_LOW => self.desc = low_set(self.desc, val),
            reg::QUEUE_DESC_HIGH => self.desc = high_set(self.desc, val),
            reg::QUEUE_AVAIL_LOW => self.avail = low_set(self.avail, val),
            reg::QUEUE_AVAIL_HIGH => self.avail = high_set(self.avail, val),
            reg::QUEUE_USED_LOW => self.used = low_set(self.used, val),
            reg::QUEUE_USED_HIGH => self.used = high_set(self.used, val),
            _ => {},
        }
    }
}

impl Default for QueueState {
    fn default() -> (r: Self)
        ensures
            r == blank_queue(),
    {
        QueueState { num: 0, ready: false, desc: 0, avail: 0, used: 0, last_avail_idx: 0 }
    }
}

impl MmioRegs {
    /// Applies a write to one of the registers that belong to no queue.
    pub fn write(&mut self, offset: u64, val: u32)
        ensures
            *final(self) == regs_written(*old(self), offset, val),
    {
        match offset {
            reg::DEVICE_FEATURES_SEL => self.device_features_sel = val,
            reg::DRIVER_FEATURES_SEL => self.driver_features_sel = val,
            reg::DRIVER_FEATURES => {
                if self.driver_features_sel == 1 {
                    self.driver_features = high_set(self.driver_features, val);
                } else {
                    self.driver_features = low_set(self.driver_features, val);
                }
            },
            reg::QUEUE_SEL => self.queue_sel = val,
            reg::STATUS => {
                self.status = val;
                if val == 0 {
                    self.interrupt_status = 0;
                }
            },
            reg::INTERRUPT_ACK => self.interrupt_status = self.interrupt_status & !val,
            _ => {},
        }
    }

    /// Reads one of the registers below the configuration space.
    pub fn read(&self, id: u32, features: u64, ready: bool, offset: u64) -> (r: u32)
        ensures
            r == reg_read(*self, id, features, ready, offset),
    {
        match offset {
            reg::MAGIC_VALUE => VIRTIO_MMIO_MAGIC,
            reg::VERSION => VIRTIO_MMIO_VERSION,
            reg::DEVICE_ID => id,
            reg::VENDOR_ID => VENDOR,
            reg::DEVICE_FEATURES => {
                if self.device_features_sel == 1 {
                    (features / 0x1_0000_0000) as u32
                } else {
                    (features % 0x1_0000_0000) as u32
                }
            },
            reg::QUEUE_NUM_MAX => QUEUE_SIZE_MAX as u32,
            reg::QUEUE_READY => {
                if ready {
                    1
                } else {
                    0
                }
            },
            reg::INTERRUPT_STATUS => self.interrupt_status,
            reg::STATUS => self.status,
            _ => 0,
        }
    }
}

impl Default for MmioRegs {
    fn default() -> (r: Self)
        ensures
            r == blank_regs(),
    {
        MmioRegs {
            status: 0,
            queue_sel: 0,
            device_features_sel: 0,
            driver_features_sel: 0,
            driver_features: 0,
            interrupt_status: 0,
        }
    }
}

/// Replaces the lower half of `v`.
fn low_set(v: u64, half: u32) -> (r: u64)
    ensures
        r == with_low(v, half),
{
    v / 0x1_0000_0000 * 0x1_0000_0000 + half as u64
}

/// Replaces the upper half of `v`.
fn high_set(v: u64, half: u32) -> (r: u64)
    ensures
        r == with_high(v, half),
{
    v % 0x1_0000_0000 + half as u64 * 0x1_0000_0000
}

/// The number that a register write carries.
pub fn decode_val(data: &[u8]) -> (r: u32)
    ensures
        r == reg_val(data@),
{
    let mut v: [u8; 4] = [0, 0, 0, 0];
    let mut i: usize = 0;
    while i < 4 && i < data.len()
        invariant
            i <= 4,
            i <= data@.len(),
            forall|j: int| 0 <= j < i ==> v@[j] == data@[j],
            forall|j: int| i <= j < 4 ==> v@[j] == 0,
        decreases 4 - i,
    {
        v[i] = data[i];
        i += 1;
    }
    assert(v@ =~= Seq::new(4, |i: int| if i < data@.len() { data@[i] } else { 0 }));
    bytes::from_le32(&v)
}

/// Fills `data` with the bytes of a register.
pub fn fill_val(data: &mut [u8], val: u32)
    ensures
        final(data)@ == reg_bytes(val, old(data)@.len()),
{
    let b = bytes::to_le32(val);
    let n: usize = data.len();
    let mut i: usize = 0;
    while i < n
        invariant
            i <= n,
            n == data@.len(),
            n == old(data)@.len(),
            b@ == bytes::le32(val),
            forall|j: int| 0 <= j < i ==> data@[j] == reg_bytes(val, n as nat)[j],
        decreases n - i,
    {
        data[i] = if i < 4 {
            b[i]
        } else {
            0
        };
        i += 1;
    }
    assert(data@ =~= reg_bytes(val, n as nat));
}

/// Fills `data` with the bytes at `offset` of a configuration space.
pub fn fill_config(data: &mut [u8], config: &[u8], offset: u64)
    ensures
        final(data)@ == config_bytes(config@, offset, old(data)@.len()),
{
    let n: usize = data.len();
    let mut i: usize = 0;
    while i < n
        invariant
            i <= n,
            n == data@.len(),
            n == old(data)@.len(),
            forall|j: int| 0 <= j < i ==> data@[j] == config_bytes(config@, offset, n as nat)[j],
        decreases n - i,
    {
        data[i] = if offset < config.len() as u64 && i < config.len() - offset as usize {
            config[offset as usize + i]
        } else {
            0
        };
        i += 1;
    }
    assert(data@ =~= config_bytes(config@, offset, n as nat));
}

/// A half that was written reads back, and the other half stays.
pub proof fn halves_independent(v: u64, half: u32)
    ensures
        half_of(with_low(v, half), 0) == half,
        half_of(with_low(v, half), 1) == half_of(v, 1),
        half_of(with_high(v, half), 1) == half,
        half_of(with_high(v, half), 0) == half_of(v, 0),
{
    let lo: int = v as int % 0x1_0000_0000;
    let hi: int = v as int / 0x1_0000_0000;
    assert(with_low(v, half) == hi * 0x1_0000_0000 + half);
    assert(with_high(v, half) == half * 0x1_0000_0000 + lo);
}

/// The interrupt that was raised stays pending until the driver acknowledges that bit or resets
/// the device: no other write clears it.
pub proof fn pending_until_acknowledged(r: MmioRegs, offset: u64, val: u32)
    requires
        r.interrupt_status & INT_USED_RING != 0,
        !is_reset(offset, val),
        offset == reg::INTERRUPT_ACK ==> val & INT_USED_RING == 0,
    ensures
        regs_written(r, offset, val).interrupt_status & INT_USED_RING != 0,
        !acks_all(r, offset, val),
        regs_raised(r).interrupt_status & INT_USED_RING != 0,
{
    let s = r.interrupt_status;
    assert(s & 1u32 != 0 && val & 1u32 == 0 ==> (s & !val) & 1u32 != 0) by (bit_vector);
    assert(s & 1u32 != 0 && val & 1u32 == 0 ==> (s & !val) != 0) by (bit_vector);
    assert((s | 1u32) & 1u32 != 0) by (bit_vector);
}

/// A register that is read as it was written: four bytes written are four bytes read.
pub proof fn reg_roundtrip(val: u32)
    ensures
        reg_val(bytes::le32(val)) == val,
        reg_bytes(val, 4) == bytes::le32(val),
{
    bytes::le32_roundtrip(val);
    assert(reg_bytes(val, 4) =~= bytes::le32(val));
    assert(Seq::new(4, |i: int| if i < bytes::le32(val).len() { bytes::le32(val)[i] } else { 0 }) =~= bytes::le32(val));
}

/// Writing the low and the high half of a queue's three addresses, its size and its ready
/// flag, in any state of that queue, gives the configuration that the driver meant.
pub proof fn programming_law(q: QueueState, num: u16, desc: u64, avail: u64, used: u64)
    ensures
        ({
            let q1 = queue_programmed(q, reg::QUEUE_NUM, num as u32);
            let q2 = queue_programmed(q1, reg::QUEUE_DESC_LOW, half_of(desc, 0));
            let q3 = queue_programmed(q2, reg::QUEUE_DESC_HIGH, half_of(desc, 1));
            let q4 = queue_programmed(q3, reg::QUEUE_AVAIL_LOW, half_of(avail, 0));
            let q5 = queue_programmed(q4, reg::QUEUE_AVAIL_HIGH, half_of(avail, 1));
            let q6 = queue_programmed(q5, reg::QUEUE_USED_LOW, half_of(used, 0));
            let q7 = queue_programmed(q6, reg::QUEUE_USED_HIGH, half_of(used, 1));
            let q8 = queue_programmed(q7, reg::QUEUE_READY, 1);
            q8 == QueueState {
                num,
                ready: true,
                desc,
                avail,
                used,
                last_avail_idx: q.last_avail_idx,
            }
        }),
{
    assert(with_high(with_low(q.desc, half_of(desc, 0)), half_of(desc, 1)) == desc) by {
        halves_independent(q.desc, half_of(desc, 0));
    }
    assert(with_high(with_low(q.avail, half_of(avail, 0)), half_of(avail, 1)) == avail) by {
        halves_independent(q.avail, half_of(avail, 0));
    }
    assert(with_high(with_low(q.used, half_of(used, 0)), half_of(used, 1)) == used) by {
        halves_independent(q.used, half_of(used, 0));
    }
}

} // verus!
