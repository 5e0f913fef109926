//! What an access does, wherever it goes: the bus finds the device that has the address, and
//! the small devices answer with what was stored in them.

use vstd::prelude::*;

use super::bus;
use super::bus::{Bus, BusError, BusRange, Slots};
use super::device::Device;
use super::fb::{FbGeometry, Framebuffer};
use super::pci_stub::PciHostBridgeStub;
use super::rtc_cmos::RtcCmos;
use crate::bytes;

verus! {

/// Whether `addr` is one of the addresses of `r`.
pub open spec fn within(r: BusRange, addr: int) -> bool {
    r.start <= addr < r.end
}

/// Whether two ranges have an address in common.
pub open spec fn share_address(a: BusRange, b: BusRange) -> bool {
    exists|x: int| #[trigger] within(a, x) && within(b, x)
}

/// A device is registered, behind those that are there, exactly when it shares no address with
/// any of them; otherwise nothing changes, and the error names the two ranges that met.
pub proof fn registration_is_by_address<D: Device>(
    pre: Slots<D>,
    range: BusRange,
    dev: D,
    post: Slots<D>,
    r: Result<(), BusError>,
)
    requires
        bus::registered(pre, range, dev, post, r),
        range.start < range.end,
        forall|i: int| 0 <= i < pre.len() ==> (#[trigger] pre[i]).0.start < pre[i].0.end,
    ensures
        r is Ok <==> forall|i: int|
            0 <= i < pre.len() ==> !share_address((#[trigger] pre[i]).0, range),
        r is Ok ==> post == pre.push((range, dev)),
        r is Err ==> post == pre,
        r matches Err(BusError::Overlap { new_start, new_end, ex_start, ex_end }) ==> new_start
            == range.start && new_end == range.end && exists|i: int|
            0 <= i < pre.len() && ex_start == (#[trigger] pre[i]).0.start && ex_end == pre[i].0.end
                && share_address(pre[i].0, range),
{
    bus::clash_law(pre, range);
    assert forall|i: int| 0 <= i < pre.len() implies (share_address((#[trigger] pre[i]).0, range)
        <==> range.meets(pre[i].0)) by {
        let a = pre[i].0;
        if range.meets(a) {
            let x = if a.start < range.start {
                range.start as int
            } else {
                a.start as int
            };
            assert(within(a, x) && within(range, x));
        }
    }
    if let Some(i) = bus::clash(pre, range) {
        assert(share_address(pre[i].0, range));
    }
}

/// Registering in one space leaves the other alone, and follows the rule on addresses.
pub proof fn registering_calls<D: Device>(range: BusRange, dev: D, r: Result<(), BusError>)
    ensures
        forall|s: &mut Bus<D>| #[trigger]
            call_ensures(Bus::<D>::register_mmio, (s, range, dev), r) ==> {
                &&& bus::registered((*s).mmio(), range, dev, (*final(s)).mmio(), r)
                &&& (*final(s)).pio() == (*s).pio()
            },
        forall|s: &mut Bus<D>| #[trigger]
            call_ensures(Bus::<D>::register_pio, (s, range, dev), r) ==> {
                &&& bus::registered((*s).pio(), range, dev, (*final(s)).pio(), r)
                &&& (*final(s)).mmio() == (*s).mmio()
            },
{
}

/// The bus counts its devices and gives out the one that is asked for, in the order in which they
/// were registered; what is done to one through it is done to no other.
pub proof fn devices_are_given_out<D: Device>(
    b: Bus<D>,
    i: usize,
    ports: usize,
    cells: usize,
    d: &D,
)
    requires
        call_ensures(Bus::<D>::pio_count, (&b,), ports),
        call_ensures(Bus::<D>::mmio_count, (&b,), cells),
        i < cells,
        call_ensures(Bus::<D>::mmio_device, (&b, i), d),
    ensures
        ports == b.pio().len(),
        cells == b.mmio().len(),
        *d == b.mmio()[i as int].1,
        forall|s: &mut Bus<D>, m: &mut D| #[trigger]
            call_ensures(Bus::<D>::mmio_device_mut, (s, i), m) && i < (*s).mmio().len() ==> {
                &&& *m == (*s).mmio()[i as int].1
                &&& (*final(s)).mmio().len() == (*s).mmio().len()
                &&& (*final(s)).mmio()[i as int].1 == *final(m)
                &&& (*final(s)).mmio()[i as int].0 == (*s).mmio()[i as int].0
                &&& forall|j: int|
                    0 <= j < (*s).mmio().len() && j != i ==> (#[trigger] (*final(s)).mmio()[j])
                        == (*s).mmio()[j]
                &&& (*final(s)).pio() == (*s).pio()
            },
        forall|s: &mut Bus<D>, m: &mut D| #[trigger]
            call_ensures(Bus::<D>::pio_device_mut, (s, i), m) && i < (*s).pio().len() ==> {
                &&& *m == (*s).pio()[i as int].1
                &&& (*final(s)).pio().len() == (*s).pio().len()
                &&& (*final(s)).pio()[i as int].1 == *final(m)
                &&& (*final(s)).pio()[i as int].0 == (*s).pio()[i as int].0
                &&& forall|j: int|
                    0 <= j < (*s).pio().len() && j != i ==> (#[trigger] (*final(s)).pio()[j])
                        == (*s).pio()[j]
                &&& (*final(s)).mmio() == (*s).mmio()
            },
{
}

/// A range of so many addresses has those addresses and no other.
pub proof fn range_has_its_addresses(start: u64, len: u64, r: BusRange, x: int)
    requires
        start + len <= u64::MAX,
        call_ensures(BusRange::new, (start, len), r),
    ensures
        within(r, x) <==> start <= x < start + len,
{
}

/// A read is answered by the device that has the address, asked at its own offset, and no other
/// device hears of it.
pub proof fn read_reaches_device<D: Device>(
    pre: Slots<D>,
    i: int,
    addr: u64,
    before: Seq<u8>,
    post: Slots<D>,
    after: Seq<u8>,
)
    requires
        bus::slots_apart(pre),
        0 <= i < pre.len(),
        within(pre[i].0, addr as int),
        bus::space_read(pre, addr, before, post, after),
    ensures
        post.len() == pre.len(),
        post[i].0 == pre[i].0,
        pre[i].1.reads((addr - pre[i].0.start) as u64, before, &post[i].1, after),
        forall|j: int| 0 <= j < pre.len() && j != i ==> (#[trigger] post[j]) == pre[j],
{
    bus::claim_unique(pre, addr, i);
}

/// A write is taken by the device that has the address, at its own offset, and no other device
/// hears of it.
pub proof fn write_reaches_device<D: Device>(
    pre: Slots<D>,
    i: int,
    addr: u64,
    data: Seq<u8>,
    post: Slots<D>,
)
    requires
        bus::slots_apart(pre),
        0 <= i < pre.len(),
        within(pre[i].0, addr as int),
        bus::space_written(pre, addr, data, post),
    ensures
        post.len() == pre.len(),
        post[i].0 == pre[i].0,
        pre[i].1.writes((addr - pre[i].0.start) as u64, data, &post[i].1),
        forall|j: int| 0 <= j < pre.len() && j != i ==> (#[trigger] post[j]) == pre[j],
{
    bus::claim_unique(pre, addr, i);
}

/// Where no device has the address, a read gives all ones, a write is dropped, and nothing
/// changes.
pub proof fn nobody_answers<D: Device>(
    pre: Slots<D>,
    addr: u64,
    before: Seq<u8>,
    post: Slots<D>,
    after: Seq<u8>,
    written: Slots<D>,
)
    requires
        forall|i: int| 0 <= i < pre.len() ==> !within((#[trigger] pre[i]).0, addr as int),
        bus::space_read(pre, addr, before, post, after),
        bus::space_written(pre, addr, before, written),
    ensures
        post == pre,
        written == pre,
        after.len() == before.len(),
        forall|i: int| 0 <= i < after.len() ==> after[i] == 0xff,
{
    bus::claim_law(pre, addr);
}

/// Accesses through the bus go to the space that they name, and leave the other alone.
pub proof fn accessing_calls<D: Device>(addr: u64, data: &[u8])
    ensures
        forall|s: &mut Bus<D>, d: &mut [u8]| #[trigger]
            call_ensures(Bus::<D>::read_mmio, (s, addr, d), ()) ==> {
                &&& bus::space_read((*s).mmio(), addr, (*d)@, (*final(s)).mmio(), (*final(d))@)
                &&& (*final(s)).pio() == (*s).pio()
            },
        forall|s: &mut Bus<D>, d: &mut [u8]| #[trigger]
            call_ensures(Bus::<D>::read_pio, (s, addr, d), ()) ==> {
                &&& bus::space_read((*s).pio(), addr, (*d)@, (*final(s)).pio(), (*final(d))@)
                &&& (*final(s)).mmio() == (*s).mmio()
            },
        forall|s: &mut Bus<D>| #[trigger]
            call_ensures(Bus::<D>::write_mmio, (s, addr, data), ()) ==> {
                &&& bus::space_written((*s).mmio(), addr, data@, (*final(s)).mmio())
                &&& (*final(s)).pio() == (*s).pio()
            },
        forall|s: &mut Bus<D>| #[trigger]
            call_ensures(Bus::<D>::write_pio, (s, addr, data), ()) ==> {
                &&& bus::space_written((*s).pio(), addr, data@, (*final(s)).pio())
                &&& (*final(s)).mmio() == (*s).mmio()
            },
{
}

/// A new clock says midnight on the first of January 2024, in binary and 24 hours, that its
/// memory is valid, and nothing else.
pub proof fn clock_starts(c: RtcCmos, i: int)
    requires
        call_ensures(RtcCmos::new, (), c) || call_ensures(RtcCmos::default, (), c),
        0 <= i < 128,
    ensures
        c.registers().len() == 128,
        c.selected() == 0,
        c.registers()[7] == 1 && c.registers()[8] == 1 && c.registers()[9] == 24,
        c.registers()[10] == 0x26 && c.registers()[11] == 6 && c.registers()[13] == 0x80,
        !(7 <= i <= 11) && i != 13 ==> c.registers()[i] == 0,
{
}

/// A register of the clock is reached by writing its number to the first port and then using
/// the second: it gives what was last stored in it, status A without the update flag. Storing
/// in one register leaves the others.
pub proof fn clock_register_holds(
    c: RtcCmos,
    select: Seq<u8>,
    d: RtcCmos,
    store: Seq<u8>,
    e: RtcCmos,
    before: Seq<u8>,
    f: RtcCmos,
    after: Seq<u8>,
    g: RtcCmos,
    number: Seq<u8>,
)
    requires
        c.registers().len() == 128,
        select.len() > 0,
        store.len() > 0,
        c.writes(0, select, &d),
        d.writes(1, store, &e),
        e.reads(1, before, &f, after),
        d.reads(0, before, &g, number),
        before.len() > 0,
    ensures
        d.registers() == c.registers(),
        ({
            let n = select[0] as int % 128;
            &&& n != 10 ==> after[0] == store[0]
            &&& n == 10 ==> after[0] == store[0] % 128
            &&& number[0] == n
            &&& e.registers().len() == 128
            &&& e.registers()[n] == store[0]
            &&& forall|i: int| 0 <= i < 128 && i != n ==> e.registers()[i] == c.registers()[i]
        }),
        e.selected() == d.selected(),
        f == e,
        g == d,
        after.len() == before.len(),
        forall|i: int| 1 <= i < after.len() ==> after[i] == 0 && number[i] == 0,
{
}

/// What is written to the configuration address reads back where it was written, and the bytes
/// beside it stay. No configuration register answers: each reads as all ones, and takes
/// nothing.
pub proof fn bridge_keeps_address(
    c: PciHostBridgeStub,
    offset: u64,
    data: Seq<u8>,
    d: PciHostBridgeStub,
    before: Seq<u8>,
    e: PciHostBridgeStub,
    after: Seq<u8>,
    i: int,
)
    requires
        c.writes(offset, data, &d),
        d.reads(0, before, &e, after),
        before.len() == 4,
        0 <= i < 4,
    ensures
        e == d,
        after.len() == 4,
        offset < 4 && offset <= i < offset + data.len() ==> after[i] == data[i - offset],
        !(offset < 4 && offset <= i < offset + data.len()) ==> after[i] == bytes::le32(
            c.selected(),
        )[i],
        offset >= 4 ==> d.selected() == c.selected(),
{
    let was = bytes::le32(c.selected());
    if offset < 4 {
        let patched = bytes::write_at(was, offset as int, data);
        assert(patched.len() == 4);
        bytes::u32_roundtrip(patched);
    }
}

/// Nothing is behind the bridge: every register reads as all ones.
pub proof fn bridge_has_no_devices(
    c: PciHostBridgeStub,
    offset: u64,
    before: Seq<u8>,
    d: PciHostBridgeStub,
    after: Seq<u8>,
)
    requires
        offset >= 4,
        c.reads(offset, before, &d, after),
    ensures
        d == c,
        after.len() == before.len(),
        forall|i: int| 0 <= i < after.len() ==> after[i] == 0xff,
{
}

/// A display of so many pixels takes four bytes for each; and every change is counted.
pub proof fn display_counts(g: FbGeometry, n: usize)
    requires
        call_ensures(FbGeometry::size_bytes, (&g,), n),
    ensures
        n == 4 * (g.width * g.height),
        forall|f: Framebuffer| #[trigger]
            call_ensures(Framebuffer::new, (g,), f) ==> f.shape() == g && f.changes() == 0,
        forall|s: &mut Framebuffer| #[trigger]
            call_ensures(Framebuffer::mark_dirty, (s,), ()) ==> {
                &&& (*final(s)).shape() == (*s).shape()
                &&& (*s).changes() < u64::MAX ==> (*final(s)).changes() == (*s).changes() + 1
                &&& (*s).changes() == u64::MAX ==> (*final(s)).changes() == 0
            },
{
    assert(g.width * g.height * 4 == 4 * (g.width * g.height)) by (nonlinear_arith);
}

} // verus!
