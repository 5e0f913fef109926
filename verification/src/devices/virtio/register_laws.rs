//! What a driver finds in the registers of the two devices, number by number, and what its own
//! writes do there.

use vstd::prelude::*;

use super::blk_device_laws;
use super::guest::GuestAccess;
use super::mmio::VirtioBlkMmio;
use super::net::NetBackend;
use super::net_mmio::VirtioNetMmio;
use super::regs;
use super::regs::{MmioRegs, QueueState};
use crate::bytes;
use crate::devices::device::{Device, IrqLine};

verus! {

/// Four bytes for a register to fill.
pub open spec fn four() -> Seq<u8> {
    seq![0u8, 0u8, 0u8, 0u8]
}

/// The number that four bytes make.
pub open spec fn number(b: Seq<u8>) -> int {
    b[0] + 0x100 * b[1] + 0x1_0000 * b[2] + 0x100_0000 * b[3]
}

/// What both devices say of themselves, `id` being the device's type and `low` the lower half of
/// the features that it offers: the word "virt", the modern transport, the type, a queue of up to
/// 256, whether the selected queue is ready, the pending interrupts, the status, and the features
/// by halves. Any other register reads zero.
pub open spec fn says(r: MmioRegs, id: int, low: int, ready: bool, offset: u64, n: int) -> bool {
    &&& offset == 0x0 ==> n == 0x7472_6976
    &&& offset == 0x4 ==> n == 2
    &&& offset == 0x8 ==> n == id
    &&& offset == 0xc ==> n == 0x554d_4551
    &&& offset == 0x10 && r.device_features_sel != 1 ==> n == low
    &&& offset == 0x10 && r.device_features_sel == 1 ==> n == 1
    &&& offset == 0x34 ==> n == 256
    &&& offset == 0x44 ==> n == if ready {
        1int
    } else {
        0
    }
    &&& offset == 0x60 ==> n == r.interrupt_status
    &&& offset == 0x70 ==> n == r.status
    &&& offset != 0x0 && offset != 0x4 && offset != 0x8 && offset != 0xc && offset != 0x10 && offset
        != 0x34 && offset != 0x44 && offset != 0x60 && offset != 0x70 ==> n == 0
}

/// A register read of four bytes gives the number in the register.
proof fn bytes_make_number(val: u32)
    ensures
        regs::reg_bytes(val, 4).len() == 4,
        number(regs::reg_bytes(val, 4)) == val,
{
    bytes::bytes_weigh(0, val, 0);
}

/// A register read of any length gives the bytes of the number in the register, least significant
/// first, and zeros behind the fourth; and a write of any length carries the number that its
/// first four bytes make, those that are missing counting nothing.
pub proof fn short_and_long_accesses(val: u32, n: nat, i: int, data: Seq<u8>)
    requires
        0 <= i < n,
    ensures
        regs::reg_bytes(val, n).len() == n,
        i < 4 ==> regs::reg_bytes(val, n)[i] == regs::reg_bytes(val, 4)[i],
        i >= 4 ==> regs::reg_bytes(val, n)[i] == 0,
        number(regs::reg_bytes(val, 4)) == val,
        data.len() >= 4 ==> regs::reg_val(data) == number(data),
        data.len() == 3 ==> regs::reg_val(data) == data[0] + 0x100 * data[1] + 0x1_0000 * data[2],
        data.len() == 2 ==> regs::reg_val(data) == data[0] + 0x100 * data[1],
        data.len() == 1 ==> regs::reg_val(data) == data[0],
        data.len() == 0 ==> regs::reg_val(data) == 0,
{
    bytes_make_number(val);
}

/// Raising the interrupt of a used buffer sets the lowest bit of the interrupt status, and
/// changes nothing else.
pub proof fn raising_sets_one_bit(r: MmioRegs, b: u32)
    requires
        b < 32,
    ensures
        bit(regs::regs_raised(r).interrupt_status, b) <==> bit(r.interrupt_status, b) || b == 0,
        regs::regs_raised(r) == (MmioRegs {
            interrupt_status: regs::regs_raised(r).interrupt_status,
            ..r
        }),
{
    let s = r.interrupt_status;
    assert(((s | 1u32) >> b) & 1 == 1 <==> (s >> b) & 1 == 1 || b == 0) by (bit_vector)
        requires
            b < 32,
    ;
}

/// What the block device says of itself.
pub proof fn block_registers<A: GuestAccess, I: IrqLine>(
    d: VirtioBlkMmio<A, I>,
    offset: u64,
    p: VirtioBlkMmio<A, I>,
    after: Seq<u8>,
)
    requires
        offset < 0x100,
        d.reads(offset, four(), &p, after),
    ensures
        p == d,
        after.len() == 4,
        says(d@.regs, 2, 0, d@.queue.ready, offset, number(after)),
{
    let val = regs::reg_read(
        d@.regs,
        super::VIRTIO_ID_BLOCK,
        regs::VIRTIO_F_VERSION_1,
        d@.queue.ready,
        offset,
    );
    bytes_make_number(val);
}

/// The block device's configuration is its capacity in sectors, eight bytes of it.
pub proof fn block_capacity<A: GuestAccess, I: IrqLine>(
    d: VirtioBlkMmio<A, I>,
    before: Seq<u8>,
    p: VirtioBlkMmio<A, I>,
    after: Seq<u8>,
)
    requires
        before.len() == 8,
        d.reads(0x100, before, &p, after),
    ensures
        after.len() == 8,
        number(after) + 0x1_0000_0000 * number(after.skip(4)) == d@.capacity,
{
    bytes::bytes_weigh(0, 0, d@.capacity);
    let c = bytes::le64(d@.capacity);
    assert(after =~= c);
    assert(after.skip(4)[0] == c[4] && after.skip(4)[1] == c[5] && after.skip(4)[2] == c[6]
        && after.skip(4)[3] == c[7]);
}

/// Any part of the capacity reads as its bytes there, and zero behind them.
pub proof fn block_capacity_in_parts<A: GuestAccess, I: IrqLine>(
    d: VirtioBlkMmio<A, I>,
    at: int,
    before: Seq<u8>,
    p: VirtioBlkMmio<A, I>,
    after: Seq<u8>,
    i: int,
)
    requires
        0 <= at < 0x1000,
        0 <= i < before.len(),
        d.reads((0x100 + at) as u64, before, &p, after),
    ensures
        p == d,
        after.len() == before.len(),
        at + i < 8 ==> after[i] == bytes::le64(d@.capacity)[at + i],
        at + i >= 8 ==> after[i] == 0,
{
}

/// Any part of the network card's configuration reads as its bytes there, and zero behind them.
pub proof fn net_configuration_in_parts<N: NetBackend, A: GuestAccess, I: IrqLine>(
    d: VirtioNetMmio<N, A, I>,
    at: int,
    before: Seq<u8>,
    p: VirtioNetMmio<N, A, I>,
    after: Seq<u8>,
    i: int,
)
    requires
        d@.mac.len() == 6,
        0 <= at < 0x1000,
        0 <= i < before.len(),
        d.reads((0x100 + at) as u64, before, &p, after),
    ensures
        p == d,
        after.len() == before.len(),
        at + i < 8 ==> after[i] == (d@.mac + seq![1u8, 0u8])[at + i],
        at + i >= 8 ==> after[i] == 0,
{
    let c = super::net_mmio::net_config(d@.mac);
    assert(c =~= d@.mac + seq![1u8, 0u8]);
}

/// What the network card says of itself; it offers an address and a link status.
pub proof fn net_registers<N: NetBackend, A: GuestAccess, I: IrqLine>(
    d: VirtioNetMmio<N, A, I>,
    offset: u64,
    p: VirtioNetMmio<N, A, I>,
    after: Seq<u8>,
)
    requires
        offset < 0x100,
        d.reads(offset, four(), &p, after),
    ensures
        p == d,
        after.len() == 4,
        d@.regs.queue_sel == 0 ==> says(d@.regs, 1, 0x1_0020, d@.rx.ready, offset, number(after)),
        d@.regs.queue_sel == 1 ==> says(d@.regs, 1, 0x1_0020, d@.tx.ready, offset, number(after)),
        d@.regs.queue_sel > 1 ==> says(d@.regs, 1, 0x1_0020, false, offset, number(after)),
{
    bytes_make_number(
        regs::reg_read(
            d@.regs,
            super::VIRTIO_ID_NET,
            super::net_mmio::net_features(),
            d@.rx.ready,
            offset,
        ),
    );
    bytes_make_number(
        regs::reg_read(
            d@.regs,
            super::VIRTIO_ID_NET,
            super::net_mmio::net_features(),
            d@.tx.ready,
            offset,
        ),
    );
    bytes_make_number(
        regs::reg_read(
            d@.regs,
            super::VIRTIO_ID_NET,
            super::net_mmio::net_features(),
            false,
            offset,
        ),
    );
}

/// The network card's configuration is its address, then a link that is up.
pub proof fn net_configuration<N: NetBackend, A: GuestAccess, I: IrqLine>(
    d: VirtioNetMmio<N, A, I>,
    before: Seq<u8>,
    p: VirtioNetMmio<N, A, I>,
    after: Seq<u8>,
)
    requires
        d@.mac.len() == 6,
        before.len() == 8,
        d.reads(0x100, before, &p, after),
    ensures
        after == d@.mac + seq![1u8, 0u8],
{
    assert(after =~= d@.mac + seq![1u8, 0u8]);
}

/// What a register write does to the transport's own registers: the status, the selectors and
/// the driver's features keep what was written, an acknowledgement clears the bits that it
/// names, and zero in the status clears status and interrupts.
pub open spec fn took(r: MmioRegs, offset: u64, n: int, w: MmioRegs) -> bool {
    &&& w.status == if offset == 0x70 {
        n
    } else {
        r.status as int
    }
    &&& w.queue_sel == if offset == 0x30 {
        n
    } else {
        r.queue_sel as int
    }
    &&& w.device_features_sel == if offset == 0x14 {
        n
    } else {
        r.device_features_sel as int
    }
    &&& w.driver_features_sel == if offset == 0x24 {
        n
    } else {
        r.driver_features_sel as int
    }
    &&& offset != 0x20 ==> w.driver_features == r.driver_features
    &&& offset == 0x20 && r.driver_features_sel != 1 ==> {
        &&& w.driver_features as int % 0x1_0000_0000 == n
        &&& w.driver_features as int / 0x1_0000_0000 == r.driver_features as int / 0x1_0000_0000
    }
    &&& offset == 0x20 && r.driver_features_sel == 1 ==> {
        &&& w.driver_features as int / 0x1_0000_0000 == n
        &&& w.driver_features as int % 0x1_0000_0000 == r.driver_features as int % 0x1_0000_0000
    }
    &&& offset == 0x64 ==> forall|b: u32|
        b < 32 ==> (#[trigger] bit(w.interrupt_status, b) <==> bit(r.interrupt_status, b) && !bit(
            n as u32,
            b,
        ))
    &&& offset == 0x70 && n == 0 ==> w.interrupt_status == 0
    &&& offset != 0x64 && !(offset == 0x70 && n == 0) ==> w.interrupt_status
        == r.interrupt_status
}

/// Whether bit `b` of `x` is set.
pub open spec fn bit(x: u32, b: u32) -> bool {
    (x >> b) & 1 == 1
}

/// The registers take a write so.
#[verifier::rlimit(60)]
#[verifier::spinoff_prover]
proof fn registers_take(r: MmioRegs, offset: u64, n: int)
    requires
        0 <= n < 0x1_0000_0000,
    ensures
        took(r, offset, n, regs::regs_written(r, offset, n as u32)),
{
    let w = regs::regs_written(r, offset, n as u32);
    regs::halves_independent(r.driver_features, n as u32);
    if offset == 0x64 {
        let s = r.interrupt_status;
        let v = n as u32;
        assert forall|b: u32| b < 32 implies (#[trigger] bit(w.interrupt_status, b) <==> bit(s, b)
            && !bit(v, b)) by {
            assert(((s & !v) >> b) & 1 == 1 <==> (s >> b) & 1 == 1 && !((v >> b) & 1 == 1))
                by (bit_vector)
                requires
                    b < 32,
            ;
        }
    }
}

/// A register write to the block device does that, and to its queue what it is for; a reset
/// leaves the queue blank; and once no interrupt is pending behind an acknowledgement, the line
/// goes down. A job under way, the disk and memory are left alone.
#[verifier::rlimit(60)]
#[verifier::spinoff_prover]
pub proof fn block_takes_write<A: GuestAccess, I: IrqLine>(
    d: VirtioBlkMmio<A, I>,
    offset: u64,
    n: int,
    p: VirtioBlkMmio<A, I>,
)
    requires
        0 <= n < 0x1_0000_0000,
        d.writes(offset, blk_device_laws::register(n), &p),
        offset != 0x50,
    ensures
        offset < 0x100 ==> took(d@.regs, offset, n, p@.regs),
        offset >= 0x100 ==> p@ == d@,
        p@.job == d@.job,
        p@.mem == d@.mem,
        p@.capacity == d@.capacity,
        offset == 0x70 && n == 0 ==> blank(p@.queue),
        offset < 0x100 && !(offset == 0x70 && n == 0) ==> queue_took(d@.queue, offset, n, p@.queue),
        offset == 0x64 && p@.regs.interrupt_status == 0 ==> d@.irq.drives(false, &p@.irq),
        !(offset == 0x64 && p@.regs.interrupt_status == 0) ==> p@.irq == d@.irq,
{
    blk_device_laws::register_carries(n);
    registers_take(d@.regs, offset, n);
    queue_takes(d@.queue, offset, n);
}

/// A queue of which nothing is set.
pub open spec fn blank(q: QueueState) -> bool {
    q.num == 0 && !q.ready && q.desc == 0 && q.avail == 0 && q.used == 0 && q.last_avail_idx == 0
}

/// Whether one half of an address was set, and the other kept.
pub open spec fn half_set(v: u64, high: bool, n: int, w: u64) -> bool {
    if high {
        w as int / 0x1_0000_0000 == n && w as int % 0x1_0000_0000 == v as int % 0x1_0000_0000
    } else {
        w as int % 0x1_0000_0000 == n && w as int / 0x1_0000_0000 == v as int / 0x1_0000_0000
    }
}

/// What a register write does to the queue that it is for: size, readiness, and the halves of
/// the three addresses, each by its own register and none by another.
pub open spec fn queue_took(q: QueueState, offset: u64, n: int, w: QueueState) -> bool {
    &&& w.last_avail_idx == q.last_avail_idx
    &&& w.num == if offset == 0x38 {
        n % 0x1_0000
    } else {
        q.num as int
    }
    &&& w.ready == if offset == 0x44 {
        n % 2 == 1
    } else {
        q.ready
    }
    &&& if offset == 0x80 || offset == 0x84 {
        half_set(q.desc, offset == 0x84, n, w.desc)
    } else {
        w.desc == q.desc
    }
    &&& if offset == 0x90 || offset == 0x94 {
        half_set(q.avail, offset == 0x94, n, w.avail)
    } else {
        w.avail == q.avail
    }
    &&& if offset == 0xa0 || offset == 0xa4 {
        half_set(q.used, offset == 0xa4, n, w.used)
    } else {
        w.used == q.used
    }
}

/// A queue takes a write so.
proof fn queue_takes(q: QueueState, offset: u64, n: int)
    requires
        0 <= n < 0x1_0000_0000,
    ensures
        queue_took(q, offset, n, regs::queue_programmed(q, offset, n as u32)),
{
    regs::halves_independent(q.desc, n as u32);
    regs::halves_independent(q.avail, n as u32);
    regs::halves_independent(q.used, n as u32);
}

/// A register write to the network card does that, and to the queue that is selected, and to no
/// other, what it is for; a reset leaves both blank.
#[verifier::rlimit(60)]
#[verifier::spinoff_prover]
pub proof fn net_takes_write<N: NetBackend, A: GuestAccess, I: IrqLine>(
    d: VirtioNetMmio<N, A, I>,
    offset: u64,
    n: int,
    p: VirtioNetMmio<N, A, I>,
)
    requires
        0 <= n < 0x1_0000_0000,
        d.writes(offset, blk_device_laws::register(n), &p),
        offset != 0x50,
    ensures
        offset < 0x100 ==> took(d@.regs, offset, n, p@.regs),
        offset >= 0x100 ==> p@ == d@,
        p@.mem == d@.mem,
        p@.backend == d@.backend,
        p@.mac == d@.mac,
        p@.held == d@.held,
        offset == 0x70 && n == 0 ==> blank(p@.rx) && blank(p@.tx),
        offset < 0x100 && !(offset == 0x70 && n == 0) && d@.regs.queue_sel == 0 ==> queue_took(
            d@.rx,
            offset,
            n,
            p@.rx,
        ) && p@.tx == d@.tx,
        offset < 0x100 && !(offset == 0x70 && n == 0) && d@.regs.queue_sel == 1 ==> queue_took(
            d@.tx,
            offset,
            n,
            p@.tx,
        ) && p@.rx == d@.rx,
        offset < 0x100 && !(offset == 0x70 && n == 0) && d@.regs.queue_sel > 1 ==> p@.rx == d@.rx
            && p@.tx == d@.tx,
        offset == 0x64 && p@.regs.interrupt_status == 0 ==> d@.irq.drives(false, &p@.irq),
        !(offset == 0x64 && p@.regs.interrupt_status == 0) ==> p@.irq == d@.irq,
{
    blk_device_laws::register_carries(n);
    registers_take(d@.regs, offset, n);
    queue_takes(d@.rx, offset, n);
    queue_takes(d@.tx, offset, n);
}

/// Whether nothing was written to the transport's registers, and nothing is pending.
pub open spec fn untouched(r: MmioRegs) -> bool {
    &&& r.status == 0 && r.interrupt_status == 0 && r.queue_sel == 0
    &&& r.device_features_sel == 0 && r.driver_features_sel == 0 && r.driver_features == 0
}

/// New devices: nothing negotiated, nothing set up, nothing pending.
pub proof fn devices_start_blank<N: NetBackend, A: GuestAccess, I: IrqLine>(
    capacity: u64,
    mem: A,
    irq: I,
    d: VirtioBlkMmio<A, I>,
)
    requires
        call_ensures(VirtioBlkMmio::<A, I>::new, (capacity, mem, irq), d),
    ensures
        d@.capacity == capacity,
        d@.mem == mem,
        d@.irq == irq,
        d@.job is None,
        blank(d@.queue),
        untouched(d@.regs),
        forall|backend: N, mac: [u8; 6], c: VirtioNetMmio<N, A, I>| #[trigger]
            call_ensures(VirtioNetMmio::<N, A, I>::new, (backend, mem, irq, mac), c) ==> {
                &&& blank(c@.rx) && blank(c@.tx)
                &&& c@.mac == mac@
                &&& c@.backend == backend
                &&& c@.held is None
                &&& untouched(c@.regs)
            },
{
}

} // verus!
