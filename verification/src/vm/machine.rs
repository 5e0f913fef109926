//! The machine that a guest runs on: a serial port, a PCI bridge with nothing behind it and a
//! clock on their ports, and in memory a disk and a network card where there are any.

use vstd::prelude::*;

use super::vm::FbShare;
use crate::boot::layout;
use crate::devices::bus;
use crate::devices::bus::{Bus, BusError, BusRange, Slots};
use crate::devices::device::{Device, IrqLine};
use crate::devices::pci_stub::{PciHostBridgeStub, PCI_CONFIG_ADDRESS};
use crate::devices::rtc_cmos;
use crate::devices::rtc_cmos::{RtcCmos, RTC_INDEX_PORT};
use crate::devices::uart;
use crate::devices::uart::{SerialSink, Uart, UartView};
use crate::devices::virtio::guest::GuestAccess;
use crate::devices::virtio::mmio;
use crate::devices::virtio::mmio::{BlkRun, BlkView, DiskOp, DiskReply, VirtioBlkMmio};
use crate::devices::virtio::net::NetBackend;
use crate::devices::virtio::net_mmio;
use crate::devices::virtio::net_mmio::VirtioNetMmio;

verus! {

/// A device of the machine.
pub enum PcDevice<S, I, A, N> {
    Uart(Uart<S, I>),
    Pci(PciHostBridgeStub),
    Rtc(RtcCmos),
    Blk(VirtioBlkMmio<A, I>),
    Net(VirtioNetMmio<N, A, I>),
}

impl<S: SerialSink, I: IrqLine, A: GuestAccess, N: NetBackend> Device for PcDevice<S, I, A, N> {
    open spec fn reads(&self, offset: u64, before: Seq<u8>, post: &Self, after: Seq<u8>) -> bool {
        match (*self, *post) {
            (PcDevice::Uart(d), PcDevice::Uart(p)) => d.reads(offset, before, &p, after),
            (PcDevice::Pci(d), PcDevice::Pci(p)) => d.reads(offset, before, &p, after),
            (PcDevice::Rtc(d), PcDevice::Rtc(p)) => d.reads(offset, before, &p, after),
            (PcDevice::Blk(d), PcDevice::Blk(p)) => d.reads(offset, before, &p, after),
            (PcDevice::Net(d), PcDevice::Net(p)) => d.reads(offset, before, &p, after),
            _ => false,
        }
    }

    open spec fn writes(&self, offset: u64, data: Seq<u8>, post: &Self) -> bool {
        match (*self, *post) {
            (PcDevice::Uart(d), PcDevice::Uart(p)) => d.writes(offset, data, &p),
            (PcDevice::Pci(d), PcDevice::Pci(p)) => d.writes(offset, data, &p),
            (PcDevice::Rtc(d), PcDevice::Rtc(p)) => d.writes(offset, data, &p),
            (PcDevice::Blk(d), PcDevice::Blk(p)) => d.writes(offset, data, &p),
            (PcDevice::Net(d), PcDevice::Net(p)) => d.writes(offset, data, &p),
            _ => false,
        }
    }

    fn read(&mut self, offset: u64, data: &mut [u8]) {
        match self {
            PcDevice::Uart(d) => d.read(offset, data),
            PcDevice::Pci(d) => d.read(offset, data),
            PcDevice::Rtc(d) => d.read(offset, data),
            PcDevice::Blk(d) => d.read(offset, data),
            PcDevice::Net(d) => d.read(offset, data),
        }
    }

    fn write(&mut self, offset: u64, data: &[u8]) {
        match self {
            PcDevice::Uart(d) => d.write(offset, data),
            PcDevice::Pci(d) => d.write(offset, data),
            PcDevice::Rtc(d) => d.write(offset, data),
            PcDevice::Blk(d) => d.write(offset, data),
            PcDevice::Net(d) => d.write(offset, data),
        }
    }
}

/// The ports of the serial port.
pub open spec fn uart_ports() -> BusRange {
    BusRange { start: 0x3f8, end: 0x400 }
}

/// The ports of the PCI bridge.
pub open spec fn pci_ports() -> BusRange {
    BusRange { start: 0xcf8, end: 0xd00 }
}

/// The ports of the clock.
pub open spec fn rtc_ports() -> BusRange {
    BusRange { start: 0x70, end: 0x72 }
}

/// The window of the disk.
pub open spec fn blk_window() -> BusRange {
    BusRange { start: 0xfe00_0000, end: 0xfe00_1000 }
}

/// The window of the network card.
pub open spec fn net_window() -> BusRange {
    BusRange { start: 0xfe00_1000, end: 0xfe00_2000 }
}

/// The memory space of a machine with that disk and that network card.
pub open spec fn mmio_of<S, I, A, N>(
    blk: Option<VirtioBlkMmio<A, I>>,
    net: Option<VirtioNetMmio<N, A, I>>,
) -> Slots<PcDevice<S, I, A, N>> {
    let first = match blk {
        Some(d) => seq![(blk_window(), PcDevice::<S, I, A, N>::Blk(d))],
        None => seq![],
    };
    match net {
        Some(d) => first.push((net_window(), PcDevice::<S, I, A, N>::Net(d))),
        None => first,
    }
}

/// Whether the port space is that of a machine with that serial port, its bridge and its clock
/// as they are made.
pub open spec fn pio_of<S, I, A, N>(uart: Uart<S, I>, list: Slots<PcDevice<S, I, A, N>>) -> bool {
    &&& list.len() == 3
    &&& list[0] == (uart_ports(), PcDevice::<S, I, A, N>::Uart(uart))
    &&& list[1].0 == pci_ports()
    &&& list[1].1 matches PcDevice::Pci(d) && d.selected() == 0
    &&& list[2].0 == rtc_ports()
    &&& list[2].1 matches PcDevice::Rtc(d) && d.selected() == 0 && d.registers()
        == rtc_cmos::fresh_registers()
}

/// Puts a machine together. Its devices never get in each other's way.
pub fn assemble<S: SerialSink, I: IrqLine, A: GuestAccess, N: NetBackend>(
    uart: Uart<S, I>,
    blk: Option<VirtioBlkMmio<A, I>>,
    net: Option<VirtioNetMmio<N, A, I>>,
) -> (r: Result<Bus<PcDevice<S, I, A, N>>, BusError>)
    ensures
        r matches Ok(b) && pio_of(uart, b.pio()) && b.mmio() == mmio_of::<S, I, A, N>(blk, net),
{
    reveal_with_fuel(bus::clash, 4);
    let mut b: Bus<PcDevice<S, I, A, N>> = Bus::new();
    match b.register_pio(
        BusRange::new(layout::COM1_PORT_BASE as u64, layout::COM1_PORT_SIZE as u64),
        PcDevice::Uart(uart),
    ) {
        Ok(()) => {},
        Err(e) => {
            return Err(e);
        },
    }
    let ghost p1 = b.pio();
    assert(p1.drop_last() =~= Slots::<PcDevice<S, I, A, N>>::empty());
    match b.register_pio(
        BusRange::new(PCI_CONFIG_ADDRESS as u64, 8),
        PcDevice::Pci(PciHostBridgeStub::new()),
    ) {
        Ok(()) => {},
        Err(e) => {
            return Err(e);
        },
    }
    let ghost p2 = b.pio();
    assert(p2.drop_last() =~= p1);
    match b.register_pio(
        BusRange::new(RTC_INDEX_PORT as u64, 2),
        PcDevice::Rtc(RtcCmos::new()),
    ) {
        Ok(()) => {},
        Err(e) => {
            return Err(e);
        },
    }
    assert(b.mmio() =~= Slots::<PcDevice<S, I, A, N>>::empty());
    if let Some(d) = blk {
        match b.register_mmio(
            BusRange::new(layout::VIRTIO_MMIO_BASE, layout::VIRTIO_MMIO_SIZE),
            PcDevice::Blk(d),
        ) {
            Ok(()) => {},
            Err(e) => {
                return Err(e);
            },
        }
        assert(b.mmio() =~= seq![(blk_window(), PcDevice::<S, I, A, N>::Blk(d))]);
    }
    let ghost m1 = b.mmio();
    assert(m1.len() > 0 ==> m1.drop_last() =~= Slots::<PcDevice<S, I, A, N>>::empty());
    if let Some(d) = net {
        let base: u64 = layout::virtio_mmio_addr(1);
        match b.register_mmio(
            BusRange::new(base, layout::VIRTIO_MMIO_SIZE),
            PcDevice::Net(d),
        ) {
            Ok(()) => {},
            Err(e) => {
                return Err(e);
            },
        }
        assert(b.mmio() =~= m1.push((net_window(), PcDevice::<S, I, A, N>::Net(d))));
    }
    assert(b.mmio() =~= mmio_of::<S, I, A, N>(blk, net));
    Ok(b)
}

/// Where the machine's devices answer: the serial port, the bridge and the clock at their
/// ports and nowhere else, the disk and the network card in their windows.
pub proof fn machine_map<S, I, A, N>(
    uart: Uart<S, I>,
    blk: VirtioBlkMmio<A, I>,
    net: VirtioNetMmio<N, A, I>,
    pio: Slots<PcDevice<S, I, A, N>>,
    addr: u64,
)
    requires
        pio_of(uart, pio),
    ensures
        bus::claim(pio, addr) == if uart_ports().covers(addr) {
            Some(0int)
        } else if pci_ports().covers(addr) {
            Some(1int)
        } else if rtc_ports().covers(addr) {
            Some(2int)
        } else {
            None
        },
        bus::claim(mmio_of::<S, I, A, N>(Some(blk), Some(net)), addr) == if blk_window().covers(
            addr,
        ) {
            Some(0int)
        } else if net_window().covers(addr) {
            Some(1int)
        } else {
            None
        },
        bus::slots_apart(pio),
        bus::slots_apart(mmio_of::<S, I, A, N>(Some(blk), Some(net))),
{
    reveal_with_fuel(bus::claim, 4);
    let mm = mmio_of::<S, I, A, N>(Some(blk), Some(net));
    assert(pio.drop_last().drop_last().drop_last() =~= Slots::<PcDevice<S, I, A, N>>::empty());
    assert(pio.drop_last().drop_last().last() == pio[0]);
    assert(pio.drop_last().last() == pio[1]);
    assert(mm.drop_last().drop_last() =~= Slots::<PcDevice<S, I, A, N>>::empty());
    assert(mm.drop_last().last() == mm[0]);
}

/// How many milliseconds to wait after a poll of the network card: none while frames come, one
/// when there was nothing to deliver, five after an error.
pub fn poll_pause_ms(r: &std::io::Result<bool>) -> (ms: u64)
    ensures
        ms == match *r {
            Ok(true) => 0,
            Ok(false) => 1,
            Err(_) => 5int,
        },
{
    match r {
        Ok(true) => 0,
        Ok(false) => 1,
        Err(_) => 5,
    }
}

/// A machine that runs.
pub struct RunningVm<S, I, A, N> {
    bus: Bus<PcDevice<S, I, A, N>>,
    framebuffer: Option<FbShare>,
    stop: bool,
}

/// The disk of a memory space, where it has one: it comes first.
pub open spec fn blk_slot<S, I, A, N>(list: Slots<PcDevice<S, I, A, N>>) -> Option<int> {
    if list.len() > 0 && list[0].1 is Blk {
        Some(0)
    } else {
        None
    }
}

/// The network card of a memory space, where it has one: it comes behind the disk.
pub open spec fn net_slot<S, I, A, N>(list: Slots<PcDevice<S, I, A, N>>) -> Option<int> {
    if list.len() > 0 && list[0].1 is Net {
        Some(0)
    } else if list.len() > 1 && list[1].1 is Net {
        Some(1)
    } else {
        None
    }
}

impl<S: SerialSink, I: IrqLine, A: GuestAccess, N: NetBackend> RunningVm<S, I, A, N> {
    /// The machine's memory space.
    pub closed spec fn mmio(&self) -> Slots<PcDevice<S, I, A, N>> {
        self.bus.mmio()
    }

    /// The machine's port space.
    pub closed spec fn pio(&self) -> Slots<PcDevice<S, I, A, N>> {
        self.bus.pio()
    }

    /// The framebuffer that a viewer can map.
    pub closed spec fn share(&self) -> Option<FbShare> {
        self.framebuffer
    }

    /// Whether the processors were asked to stop.
    pub closed spec fn stopping(&self) -> bool {
        self.stop
    }

    pub fn new(bus: Bus<PcDevice<S, I, A, N>>, framebuffer: Option<FbShare>) -> (r: Self)
        ensures
            r.mmio() == bus.mmio(),
            r.pio() == bus.pio(),
            r.share() == framebuffer,
            !r.stopping(),
    {
        RunningVm { bus, framebuffer, stop: false }
    }

    /// The bus, for the processors.
    pub fn bus(&mut self) -> (b: &mut Bus<PcDevice<S, I, A, N>>)
        ensures
            b.mmio() == old(self).mmio(),
            b.pio() == old(self).pio(),
            final(self).mmio() == final(b).mmio(),
            final(self).pio() == final(b).pio(),
            final(self).share() == old(self).share(),
            final(self).stopping() == old(self).stopping(),
    {
        &mut self.bus
    }

    /// The framebuffer that a viewer can map.
    pub fn framebuffer(&self) -> (r: Option<FbShare>)
        ensures
            r == self.share(),
    {
        self.framebuffer
    }

    /// Feeds what the host sends to the serial port.
    pub fn feed_serial(&mut self, data: &[u8])
        ensures
            final(self).mmio() == old(self).mmio(),
            final(self).share() == old(self).share(),
            final(self).stopping() == old(self).stopping(),
            if old(self).pio().len() > 0 && old(self).pio()[0].1 is Uart {
                let u = old(self).pio()[0].1->Uart_0;
                let w = final(self).pio()[0].1->Uart_0;
                &&& final(self).pio() == old(self).pio().update(
                    0,
                    (old(self).pio()[0].0, PcDevice::Uart(w)),
                )
                &&& uart::line_follows(UartView { rx: u@.rx + data@, ..u@ }, w@)
            } else {
                final(self).pio() == old(self).pio()
            },
    {
        if self.bus.pio_count() == 0 {
            return;
        }
        let d = self.bus.pio_device_mut(0);
        match d {
            PcDevice::Uart(u) => u.enqueue_input(data),
            _ => {},
        }
        assert(!(old(self).pio()[0].1 is Uart) ==> self.bus.pio() =~= old(self).pio());
    }

    /// Asks the processors to stop.
    pub fn stop(&mut self)
        ensures
            final(self).stopping(),
            final(self).mmio() == old(self).mmio(),
            final(self).pio() == old(self).pio(),
            final(self).share() == old(self).share(),
    {
        self.stop = true;
    }

    /// Whether the processors were asked to stop.
    pub fn is_stopping(&self) -> (r: bool)
        ensures
            r == self.stopping(),
    {
        self.stop
    }

    /// Polls the network card for one inbound frame; nothing where there is no card.
    pub fn poll_rx_once(&mut self) -> (r: Option<std::io::Result<bool>>)
        ensures
            final(self).pio() == old(self).pio(),
            final(self).share() == old(self).share(),
            final(self).stopping() == old(self).stopping(),
            match net_slot(old(self).mmio()) {
                None => r is None && final(self).mmio() == old(self).mmio(),
                Some(i) => {
                    let w = final(self).mmio()[i].1->Net_0;
                    &&& r is Some
                    &&& final(self).mmio() == old(self).mmio().update(
                        i,
                        (old(self).mmio()[i].0, PcDevice::Net(w)),
                    )
                    &&& net_mmio::polled(old(self).mmio()[i].1->Net_0@, w@, r->0)
                },
            },
    {
        let n: usize = self.bus.mmio_count();
        let mut i: usize = 0;
        while i < n && i < 2
            invariant
                n == self.bus.mmio().len(),
                i <= n,
                i <= 2,
                *self == *old(self),
                i > 0 ==> !(self.bus.mmio()[0].1 is Net),
                i > 1 ==> !(self.bus.mmio()[1].1 is Net),
            decreases 2 - i,
        {
            let here: bool = match self.bus.mmio_device(i) {
                PcDevice::Net(_) => true,
                _ => false,
            };
            if here {
                let d = self.bus.mmio_device_mut(i);
                return match d {
                    PcDevice::Net(net) => Some(net.poll_rx_once()),
                    _ => None,
                };
            }
            i += 1;
        }
        None
    }

    /// What the disk is asked for, if anything.
    pub fn disk_op(&self) -> (r: Option<&DiskOp>)
        ensures
            match blk_slot(self.mmio()) {
                None => r is None,
                Some(i) => {
                    let v = self.mmio()[i].1->Blk_0@;
                    match r {
                        Some(op) => v.job is Some && v.job->0.op == op@,
                        None => v.job is None,
                    }
                },
            },
    {
        if self.bus.mmio_count() == 0 {
            return None;
        }
        match self.bus.mmio_device(0) {
            PcDevice::Blk(d) => d.disk_op(),
            _ => None,
        }
    }

    /// Hands back what came of it. Without a disk nothing happens.
    pub fn disk_done(&mut self, reply: DiskReply)
        ensures
            final(self).pio() == old(self).pio(),
            final(self).share() == old(self).share(),
            final(self).stopping() == old(self).stopping(),
            match blk_slot(old(self).mmio()) {
                None => final(self).mmio() == old(self).mmio(),
                Some(i) => {
                    let v = old(self).mmio()[i].1->Blk_0@;
                    let w = final(self).mmio()[i].1->Blk_0;
                    &&& final(self).mmio() == old(self).mmio().update(
                        i,
                        (old(self).mmio()[i].0, PcDevice::Blk(w)),
                    )
                    &&& match v.job {
                        None => w@ == v,
                        Some(j) => mmio::stopped(
                            BlkView { job: None, ..v },
                            j.cfg,
                            mmio::resumed::<A>(
                                j.cfg,
                                BlkRun { mem: v.mem.mem(), last: j.last, served: j.served },
                                j.req,
                                reply,
                            ),
                            w@,
                        ),
                    }
                },
            },
    {
        if self.bus.mmio_count() == 0 {
            return;
        }
        let d = self.bus.mmio_device_mut(0);
        match d {
            PcDevice::Blk(blk) => blk.disk_done(reply),
            _ => {},
        }
        assert(!(old(self).mmio()[0].1 is Blk) ==> self.bus.mmio() =~= old(self).mmio());
    }
}

} // verus!
