use std::cell::RefCell;
use std::rc::Rc;

use vmm::devices::bus::{Bus, BusError, BusRange};
use vmm::devices::device::{Device, IrqLine, NullIrq};
use vmm::devices::fb::{FbGeometry, Framebuffer};
use vmm::devices::pci_stub::PciHostBridgeStub;
use vmm::devices::rtc_cmos::{RtcCmos, REG_DAY_OF_MONTH, REG_STATUS_A};
use vmm::devices::uart::{
    NullSink, SerialSink, Uart, IER_RX_AVAIL, IER_THR_EMPTY, LCR_DLAB, LSR_DATA_READY,
    LSR_THR_EMPTY, REG_DATA, REG_IER, REG_IIR_FCR, REG_LCR, REG_LSR, REG_MCR, REG_MSR, REG_SCR,
};

/// A device that records writes and returns a fixed byte on reads.
#[derive(Clone)]
struct Recorder {
    marker: u8,
    writes: Rc<RefCell<Vec<(u64, Vec<u8>)>>>,
}

impl Recorder {
    fn new(marker: u8) -> Self {
        Recorder { marker, writes: Rc::new(RefCell::new(Vec::new())) }
    }
}

impl Device for Recorder {
    fn read(&mut self, _offset: u64, data: &mut [u8]) {
        data.fill(self.marker);
    }
    fn write(&mut self, offset: u64, data: &[u8]) {
        self.writes.borrow_mut().push((offset, data.to_vec()));
    }
}

#[test]
fn unclaimed_mmio_read_returns_0xff() {
    let mut bus: Bus<Recorder> = Bus::new();
    let mut buf = [0u8; 4];
    bus.read_mmio(0xdead_beef, &mut buf);
    assert_eq!(buf, [0xFF; 4]);
}

#[test]
fn dispatch_translates_offset() {
    let mut bus = Bus::new();
    let rec = Recorder::new(0xAB);
    bus.register_mmio(BusRange::new(0x1000, 0x100), rec.clone())
        .unwrap();

    let mut buf = [0u8; 2];
    bus.read_mmio(0x1004, &mut buf);
    assert_eq!(buf, [0xAB, 0xAB]);

    bus.write_mmio(0x1008, &[1, 2, 3]);
    let w = rec.writes.borrow();
    assert_eq!(w[0], (0x8, vec![1, 2, 3])); // offset is device-relative
}

#[test]
fn overlap_is_rejected() {
    let mut bus = Bus::new();
    let d = Recorder::new(0);
    bus.register_mmio(BusRange::new(0x1000, 0x100), d.clone())
        .unwrap();
    let err = bus
        .register_mmio(BusRange::new(0x1080, 0x100), d.clone())
        .unwrap_err();
    assert!(matches!(err, BusError::Overlap { .. }));
}

#[test]
fn pio_and_mmio_are_separate_spaces() {
    let mut bus = Bus::new();
    let d = Recorder::new(0x11);
    // Same numeric address in PIO and MMIO must not collide.
    bus.register_mmio(BusRange::new(0x3F8, 8), d.clone()).unwrap();
    bus.register_pio(BusRange::new(0x3F8, 8), d.clone()).unwrap();
    let mut buf = [0u8; 1];
    bus.read_pio(0x3F8, &mut buf);
    assert_eq!(buf, [0x11]);
}

#[test]
fn overlap_names_both_ranges() {
    let mut bus = Bus::new();
    bus.register_pio(BusRange::new(0x1000, 0x100), Recorder::new(0)).unwrap();
    let err = bus
        .register_pio(BusRange::new(0x10ff, 0x10), Recorder::new(0))
        .unwrap_err();
    assert_eq!(
        err.message(),
        "device range [0x10ff,0x110f) overlaps existing [0x1000,0x1100)"
    );
    // Ranges that only touch are no overlap.
    bus.register_pio(BusRange::new(0x1100, 0x10), Recorder::new(1)).unwrap();
    assert_eq!(bus.pio_count(), 2);
    assert_eq!(bus.mmio_count(), 0);
}

#[test]
fn every_address_has_one_device() {
    let mut bus = Bus::new();
    bus.register_mmio(BusRange::new(0x2000, 0x10), Recorder::new(2)).unwrap();
    bus.register_mmio(BusRange::new(0x1000, 0x10), Recorder::new(1)).unwrap();
    let mut b = [0u8; 1];
    bus.read_mmio(0x1000, &mut b);
    assert_eq!(b, [1]);
    bus.read_mmio(0x200f, &mut b);
    assert_eq!(b, [2]);
    bus.read_mmio(0x1010, &mut b);
    assert_eq!(b, [0xff]);
    // A write that nobody claims is dropped.
    bus.write_mmio(0x3000, &[1]);
    bus.write_pio(0x1000, &[1]);
}

#[test]
fn size_computation() {
    let g = FbGeometry::new(640, 480);
    assert_eq!(g.size_bytes(), 640 * 480 * 4);
}

#[test]
fn dirty_bumps_seq() {
    let mut fb = Framebuffer::new(FbGeometry::new(1, 1));
    assert_eq!(fb.frame_seq(), 0);
    fb.mark_dirty();
    assert_eq!(fb.frame_seq(), 1);
}

#[test]
fn data_port_reports_no_device() {
    let mut dev = PciHostBridgeStub::new();
    let mut buf = [0u8; 2];
    dev.read(4, &mut buf); // read at data-port offset
    assert_eq!(buf, [0xFF, 0xFF]);
}

#[test]
fn address_register_roundtrips() {
    let mut dev = PciHostBridgeStub::new();
    dev.write(0, &0x8000_1000u32.to_le_bytes());
    let mut buf = [0u8; 4];
    dev.read(0, &mut buf);
    assert_eq!(u32::from_le_bytes(buf), 0x8000_1000);
}

#[test]
fn address_register_takes_parts() {
    let mut dev = PciHostBridgeStub::default();
    dev.write(0, &0x1122_3344u32.to_le_bytes());
    dev.write(2, &[0xaa]);
    dev.write(3, &[0xbb, 0xcc]);
    dev.write(4, &[0xdd]); // the data port takes nothing
    let mut buf = [9u8; 6];
    dev.read(0, &mut buf);
    assert_eq!(buf, [0x44, 0x33, 0xaa, 0xbb, 0, 0]);
    dev.read(2, &mut buf);
    assert_eq!(buf, [0xaa, 0xbb, 0, 0, 0, 0]);
}

#[test]
fn status_a_reports_uip_clear() {
    let mut rtc = RtcCmos::new();
    // select register 0x0A
    rtc.write(0, &[REG_STATUS_A]);
    let mut buf = [0u8; 1];
    rtc.read(1, &mut buf);
    assert_eq!(buf[0] & 0x80, 0, "UIP must be clear so the kernel proceeds");
}

#[test]
fn time_registers_readable() {
    let mut rtc = RtcCmos::new();
    rtc.write(0, &[REG_DAY_OF_MONTH]);
    let mut buf = [0u8; 1];
    rtc.read(1, &mut buf);
    assert_eq!(buf[0], 1);
}

#[test]
fn ram_roundtrips() {
    let mut rtc = RtcCmos::new();
    rtc.write(0, &[0x50]); // scratch CMOS byte
    rtc.write(1, &[0xAB]);
    rtc.write(0, &[0x50]);
    let mut buf = [0u8; 1];
    rtc.read(1, &mut buf);
    assert_eq!(buf[0], 0xAB);
}

#[test]
fn clock_registers_and_flags() {
    let mut rtc = RtcCmos::default();
    let mut buf = [7u8; 3];
    for (reg, want) in [(0x09u8, 24u8), (0x0a, 0x26), (0x0b, 0x06), (0x0d, 0x80), (0x08, 1)] {
        rtc.write(0, &[reg | 0x80]); // the top bit selects nothing
        rtc.read(1, &mut buf);
        assert_eq!(buf, [want, 0, 0]);
    }
    rtc.write(0, &[0x0a]);
    rtc.write(1, &[0xff]);
    rtc.read(1, &mut buf);
    assert_eq!(buf[0], 0x7f);
    rtc.read(0, &mut buf);
    assert_eq!(buf[0], 0x0a);
    rtc.write(0, &[]);
    rtc.read(0, &mut buf);
    assert_eq!(buf[0], 0x0a);
}

#[derive(Clone)]
struct CaptureSink(Rc<RefCell<Vec<u8>>>);
impl SerialSink for CaptureSink {
    fn tx(&mut self, bytes: &[u8]) {
        self.0.borrow_mut().extend_from_slice(bytes);
    }
}

#[derive(Clone)]
struct CountIrq(Rc<RefCell<(bool, u32)>>); // (current level, rising edges)
impl CountIrq {
    fn new() -> Self {
        CountIrq(Rc::new(RefCell::new((false, 0))))
    }
}
impl IrqLine for CountIrq {
    fn set(&mut self, active: bool) {
        let mut g = self.0.borrow_mut();
        if active && !g.0 {
            g.1 += 1;
        }
        g.0 = active;
    }
}

#[test]
fn thr_write_reaches_sink() {
    let sink = CaptureSink(Rc::new(RefCell::new(Vec::new())));
    let mut uart = Uart::new(sink.clone());
    for &b in b"Hi" {
        uart.write(REG_DATA, &[b]);
    }
    assert_eq!(&*sink.0.borrow(), b"Hi");
}

#[test]
fn lsr_reports_thr_empty() {
    let mut uart = Uart::new(NullSink);
    let mut buf = [0u8; 1];
    uart.read(REG_LSR, &mut buf);
    assert_ne!(buf[0] & LSR_THR_EMPTY, 0);
}

#[test]
fn host_input_is_read_back_and_sets_data_ready() {
    let mut uart = Uart::new(NullSink);
    uart.enqueue_input(b"ab");
    let mut lsr = [0u8; 1];
    uart.read(REG_LSR, &mut lsr);
    assert_ne!(lsr[0] & LSR_DATA_READY, 0);
    let mut d = [0u8; 1];
    uart.read(REG_DATA, &mut d);
    assert_eq!(d[0], b'a');
    uart.read(REG_DATA, &mut d);
    assert_eq!(d[0], b'b');
}

#[test]
fn dlab_switches_data_register_to_divisor_latch() {
    let mut uart = Uart::new(NullSink);
    uart.write(REG_LCR, &[LCR_DLAB]);
    uart.write(REG_DATA, &[0x01]);
    let mut d = [0u8; 1];
    uart.read(REG_DATA, &mut d);
    assert_eq!(d[0], 0x01);
}

#[test]
fn enabling_thr_interrupt_raises_irq() {
    let irq = CountIrq::new();
    let mut uart = Uart::with_irq(NullSink, irq.clone());
    // Guest enables the TX-empty interrupt.
    uart.write(REG_IER, &[IER_THR_EMPTY]);
    // IRQ should now be asserted (TX is always "empty" in our model).
    assert!(irq.0.borrow().0, "IRQ line should be active");
    assert!(irq.0.borrow().1 >= 1, "at least one rising edge");
}

#[test]
fn rx_interrupt_raises_irq_when_enabled() {
    let irq = CountIrq::new();
    let mut uart = Uart::with_irq(NullSink, irq.clone());
    uart.write(REG_IER, &[IER_RX_AVAIL]);
    // No data yet -> no RX interrupt.
    assert!(!irq.0.borrow().0);
    uart.enqueue_input(b"x");
    assert!(irq.0.borrow().0, "RX data should assert IRQ");
}

#[test]
fn reading_the_last_byte_lowers_the_line() {
    let irq = CountIrq::new();
    let mut uart = Uart::with_irq(NullSink, irq.clone());
    uart.write(REG_IER, &[IER_RX_AVAIL]);
    uart.enqueue_input(b"xy");
    let mut d = [0u8; 2];
    uart.read(REG_IIR_FCR, &mut d);
    assert_eq!(d, [0xc4, 0]);
    uart.read(REG_DATA, &mut d);
    assert_eq!(d, [b'x', 0]);
    assert!(irq.0.borrow().0);
    uart.read(REG_DATA, &mut d);
    assert_eq!(d, [b'y', 0]);
    assert_eq!(*irq.0.borrow(), (false, 1));
    uart.read(REG_DATA, &mut d);
    assert_eq!(d, [0, 0]);
    uart.read(REG_IIR_FCR, &mut d);
    assert_eq!(d[0], 0xc1);
    uart.write(REG_IER, &[0xff]);
    uart.read(REG_IER, &mut d);
    assert_eq!(d[0], 0x0f);
    uart.read(REG_IIR_FCR, &mut d);
    assert_eq!(d[0], 0xc2);
}

/// A line that keeps every level it is driven to.
#[derive(Clone)]
struct TraceIrq(Rc<RefCell<Vec<bool>>>);
impl IrqLine for TraceIrq {
    fn set(&mut self, active: bool) {
        self.0.borrow_mut().push(active);
    }
}

#[test]
fn line_follows_over_many_accesses() {
    let irq = TraceIrq(Rc::new(RefCell::new(Vec::new())));
    let mut uart = Uart::with_irq(NullSink, irq.clone());
    let (mut ier, mut lcr, mut queued) = (0u8, 0u8, 0usize);
    let mut seed = 12345u32;
    for _ in 0..2000 {
        seed = seed.wrapping_mul(1_103_515_245).wrapping_add(12345);
        let byte = (seed >> 16) as u8;
        let dlab = lcr & LCR_DLAB != 0;
        match (seed >> 8) % 6 {
            0 => {
                uart.enqueue_input(&[byte]);
                queued += 1;
            }
            1 => {
                uart.write(REG_IER, &[byte]);
                if !dlab {
                    ier = byte & 0x0f;
                }
            }
            2 => {
                uart.write(REG_LCR, &[byte]);
                lcr = byte;
            }
            3 => uart.write(REG_DATA, &[byte]),
            _ => {
                uart.read(REG_DATA, &mut [0u8; 1]);
                if !dlab && queued > 0 {
                    queued -= 1;
                }
            }
        }
        let rx = ier & IER_RX_AVAIL != 0 && queued > 0;
        let tx = ier & IER_THR_EMPTY != 0;
        let level = irq.0.borrow().last().copied().unwrap_or(false);
        assert_eq!(level, rx || tx);
        let mut iir = [0u8; 1];
        uart.read(REG_IIR_FCR, &mut iir);
        assert_eq!(iir[0], if rx { 0xc4 } else if tx { 0xc2 } else { 0xc1 });
        assert_eq!(iir[0] & 1 == 0, level);
    }
    let levels = irq.0.borrow();
    assert!(levels.len() > 10);
    for (i, l) in levels.iter().enumerate() {
        assert_eq!(*l, i % 2 == 0);
    }
}

#[test]
fn plain_registers_of_the_serial_port() {
    let mut uart: Uart<NullSink, NullIrq> = Uart::new(NullSink);
    let mut d = [0u8; 1];
    uart.write(REG_SCR, &[0x5a]);
    uart.read(REG_SCR, &mut d);
    assert_eq!(d[0], 0x5a);
    uart.write(REG_MCR, &[0x0b]);
    uart.read(REG_MCR, &mut d);
    assert_eq!(d[0], 0x0b);
    uart.read(REG_MSR, &mut d);
    assert_eq!(d[0], 0xb0);
    uart.read(8, &mut d);
    assert_eq!(d[0], 0xff);
    uart.read(REG_LSR, &mut d);
    assert_eq!(d[0], 0x60);
    uart.write(REG_LCR, &[LCR_DLAB]);
    uart.read(REG_DATA, &mut d);
    assert_eq!(d[0], 0x0c);
    uart.write(REG_IER, &[3]);
    uart.read(REG_IER, &mut d);
    assert_eq!(d[0], 3);
    uart.write(REG_LCR, &[]);
    uart.read(REG_LCR, &mut d);
    assert_eq!(d[0], LCR_DLAB);
}
