//! A 16550 serial port, as far as the Linux driver needs one.
//!
//! What the guest transmits goes to a sink at once, so the transmitter is always empty. What
//! the host sends waits in a queue until the guest reads it. The driver works by interrupts:
//! the line follows what is enabled and pending after every access.

use std::collections::VecDeque;

use vstd::prelude::*;

use super::device::{Device, IrqLine, NullIrq};
use crate::bytes;

verus! {

/// Received data when read, data to transmit when written; the low divisor byte under DLAB.
pub const REG_DATA: u64 = 0;

/// Interrupt enable; the high divisor byte under DLAB.
pub const REG_IER: u64 = 1;

/// Interrupt identification when read, FIFO control when written.
pub const REG_IIR_FCR: u64 = 2;

/// Line control.
pub const REG_LCR: u64 = 3;

/// Modem control.
pub const REG_MCR: u64 = 4;

/// Line status.
pub const REG_LSR: u64 = 5;

/// Modem status.
pub const REG_MSR: u64 = 6;

/// Scratch.
pub const REG_SCR: u64 = 7;

pub const LSR_DATA_READY: u8 = 0x01;

/// The holding register can take a byte.
pub const LSR_THR_EMPTY: u8 = 0x20;

/// The transmitter is idle.
pub const LSR_TEMT: u8 = 0x40;

/// Gives the divisor access to the first two registers.
pub const LCR_DLAB: u8 = 0x80;

/// Interrupt on received data.
pub const IER_RX_AVAIL: u8 = 0x01;

/// Interrupt on an empty holding register.
pub const IER_THR_EMPTY: u8 = 0x02;

pub const IIR_NO_INT: u8 = 0x01;

pub const IIR_THR_EMPTY: u8 = 0x02;

pub const IIR_RX_AVAIL: u8 = 0x04;

/// The FIFOs are on.
pub const IIR_FIFO_BITS: u8 = 0xC0;

/// Where the bytes go that the guest transmits.
pub trait SerialSink: Sized {
    /// Whether taking `b` may leave the sink as `post`. Unless an implementer says more, it may
    /// be so.
    open spec fn takes(&self, b: Seq<u8>, post: &Self) -> bool {
        true
    }

    fn tx(&mut self, b: &[u8])
        ensures
            old(self).takes(b@, final(self)),
    ;
}

/// A sink that forgets.
pub struct NullSink;

impl SerialSink for NullSink {
    open spec fn takes(&self, b: Seq<u8>, post: &Self) -> bool {
        *post == *self
    }

    fn tx(&mut self, b: &[u8]) {
    }
}

/// The state of the port.
pub ghost struct UartView<S, I> {
    pub ier: u8,
    pub lcr: u8,
    pub mcr: u8,
    pub scr: u8,
    pub fcr: u8,
    pub dll: u8,
    pub dlm: u8,
    /// What the line was last driven to.
    pub irq_active: bool,
    /// What the host has sent and the guest has not read.
    pub rx: Seq<u8>,
    pub sink: S,
    pub irq: I,
}

impl<S, I> UartView<S, I> {
    /// Whether the divisor has the first two registers.
    pub open spec fn dlab(self) -> bool {
        self.lcr & LCR_DLAB != 0
    }

    /// Received data is waiting, and the guest wants to hear of it.
    pub open spec fn rx_pending(self) -> bool {
        self.ier & IER_RX_AVAIL != 0 && self.rx.len() > 0
    }

    /// The guest wants to hear of an empty holding register, which it always is.
    pub open spec fn tx_pending(self) -> bool {
        self.ier & IER_THR_EMPTY != 0
    }

    /// Whether an interrupt is pending.
    pub open spec fn wants_irq(self) -> bool {
        self.rx_pending() || self.tx_pending()
    }

    /// The interrupt identification: received data before an empty holding register.
    pub open spec fn iir(self) -> u8 {
        (if self.rx_pending() {
            IIR_RX_AVAIL
        } else if self.tx_pending() {
            IIR_THR_EMPTY
        } else {
            IIR_NO_INT
        }) | IIR_FIFO_BITS
    }

    /// What a read at `offset` gives.
    pub open spec fn value(self, offset: u64) -> u8 {
        if offset == REG_DATA {
            if self.dlab() {
                self.dll
            } else if self.rx.len() > 0 {
                self.rx[0]
            } else {
                0
            }
        } else if offset == REG_IER {
            if self.dlab() {
                self.dlm
            } else {
                self.ier
            }
        } else if offset == REG_IIR_FCR {
            self.iir()
        } else if offset == REG_LCR {
            self.lcr
        } else if offset == REG_MCR {
            self.mcr
        } else if offset == REG_LSR {
            if self.rx.len() > 0 {
                0x61
            } else {
                0x60
            }
        } else if offset == REG_MSR {
            0xB0
        } else if offset == REG_SCR {
            self.scr
        } else {
            0xFF
        }
    }

    /// The port after a read at `offset`, its line aside: reading received data takes it.
    pub open spec fn after_read(self, offset: u64) -> Self {
        if offset == REG_DATA && !self.dlab() && self.rx.len() > 0 {
            UartView { rx: self.rx.skip(1), ..self }
        } else {
            self
        }
    }

    /// Whether a write of `b` at `offset` transmits it.
    pub open spec fn transmits(self, offset: u64) -> bool {
        offset == REG_DATA && !self.dlab()
    }

    /// The port after a write of `b` at `offset`, its sink and its line aside.
    pub open spec fn after_write(self, offset: u64, b: u8) -> Self {
        if offset == REG_DATA && self.dlab() {
            UartView { dll: b, ..self }
        } else if offset == REG_IER && self.dlab() {
            UartView { dlm: b, ..self }
        } else if offset == REG_IER {
            UartView { ier: b & 0x0f, ..self }
        } else if offset == REG_IIR_FCR {
            UartView { fcr: b, ..self }
        } else if offset == REG_LCR {
            UartView { lcr: b, ..self }
        } else if offset == REG_MCR {
            UartView { mcr: b, ..self }
        } else if offset == REG_SCR {
            UartView { scr: b, ..self }
        } else {
            self
        }
    }
}

/// Whether bringing the line in accord with what is pending may take the port from `v` to
/// `w`. The line is driven only where that changes it.
pub open spec fn line_follows<S, I: IrqLine>(v: UartView<S, I>, w: UartView<S, I>) -> bool {
    if v.wants_irq() != v.irq_active {
        &&& v.irq.drives(v.wants_irq(), &w.irq)
        &&& w == (UartView { irq_active: v.wants_irq(), irq: w.irq, ..v })
    } else {
        w == v
    }
}

/// Whether a write of `data` at `offset` may take the port from `v` to `w`: the first byte
/// counts.
pub open spec fn uart_written<S: SerialSink, I: IrqLine>(
    v: UartView<S, I>,
    offset: u64,
    data: Seq<u8>,
    w: UartView<S, I>,
) -> bool {
    if data.len() == 0 {
        w == v
    } else if v.transmits(offset) {
        &&& v.sink.takes(seq![data[0]], &w.sink)
        &&& line_follows(UartView { sink: w.sink, ..v }, w)
    } else {
        line_follows(v.after_write(offset, data[0]), w)
    }
}

/// After every access the line is driven to what is pending.
pub proof fn line_in_accord<S, I: IrqLine>(v: UartView<S, I>, w: UartView<S, I>)
    requires
        line_follows(v, w),
    ensures
        w.irq_active == w.wants_irq(),
        w.wants_irq() == v.wants_irq(),
{
}

/// What can happen to the port: the guest reads or writes a register, or the host sends.
pub ghost enum Access {
    Read { offset: u64 },
    Write { offset: u64, data: Seq<u8> },
    Input { data: Seq<u8> },
}

/// Whether an access may take the port from `v` to `w`, as `read`, `write` and `enqueue_input`
/// say it.
pub open spec fn accessed<S: SerialSink, I: IrqLine>(
    v: UartView<S, I>,
    a: Access,
    w: UartView<S, I>,
) -> bool {
    match a {
        Access::Read { offset } => line_follows(v.after_read(offset), w),
        Access::Write { offset, data } => uart_written(v, offset, data, w),
        Access::Input { data } => line_follows(UartView { rx: v.rx + data, ..v }, w),
    }
}

/// What the line is driven to between `v` and `w`, if it is driven at all.
pub open spec fn drives_between<S, I>(v: UartView<S, I>, w: UartView<S, I>) -> Seq<bool> {
    if w.irq_active != v.irq_active {
        seq![w.irq_active]
    } else {
        seq![]
    }
}

/// Whether accesses, one after the other, may take the port from `v` to `w`, the line being
/// driven to `levels` in order.
pub open spec fn accessed_all<S: SerialSink, I: IrqLine>(
    v: UartView<S, I>,
    accesses: Seq<Access>,
    levels: Seq<bool>,
    w: UartView<S, I>,
) -> bool
    decreases accesses.len(),
{
    if accesses.len() == 0 {
        w == v && levels.len() == 0
    } else {
        exists|mid: UartView<S, I>|
            {
                &&& #[trigger] accessed(mid, accesses.last(), w)
                &&& levels.len() >= drives_between(mid, w).len()
                &&& levels.skip(levels.len() - drives_between(mid, w).len()) == drives_between(
                    mid,
                    w,
                )
                &&& accessed_all(
                    v,
                    accesses.drop_last(),
                    levels.take(levels.len() - drives_between(mid, w).len()),
                    mid,
                )
            }
    }
}

/// The line control register after accesses to a new port: what was last written to it.
pub open spec fn lcr_after(accesses: Seq<Access>) -> u8
    decreases accesses.len(),
{
    if accesses.len() == 0 {
        0
    } else {
        match accesses.last() {
            Access::Write { offset, data } if offset == REG_LCR && data.len() > 0 => data[0],
            _ => lcr_after(accesses.drop_last()),
        }
    }
}

/// The interrupts that are enabled after accesses to a new port: the low four bits of what was
/// last written to the register while the divisor was out of the way.
pub open spec fn ier_after(accesses: Seq<Access>) -> u8
    decreases accesses.len(),
{
    if accesses.len() == 0 {
        0
    } else {
        let before = accesses.drop_last();
        match accesses.last() {
            Access::Write { offset, data } if offset == REG_IER && data.len() > 0 && lcr_after(
                before,
            ) & LCR_DLAB == 0 => data[0] & 0x0f,
            _ => ier_after(before),
        }
    }
}

/// What is queued for the guest after accesses to a new port: what the host sent, less a byte
/// for each read of the data register while the divisor was out of the way.
pub open spec fn queued_after(accesses: Seq<Access>) -> Seq<u8>
    decreases accesses.len(),
{
    if accesses.len() == 0 {
        seq![]
    } else {
        let before = accesses.drop_last();
        let queued = queued_after(before);
        match accesses.last() {
            Access::Input { data } => queued + data,
            Access::Read { offset } if offset == REG_DATA && lcr_after(before) & LCR_DLAB == 0
                && queued.len() > 0 => queued.skip(1),
            _ => queued,
        }
    }
}

/// Whether the guest is to be interrupted: it wants to hear of received data and some is queued,
/// or it wants to hear of an empty holding register.
pub open spec fn interrupt_due(accesses: Seq<Access>) -> bool {
    ||| ier_after(accesses) & IER_RX_AVAIL != 0 && queued_after(accesses).len() > 0
    ||| ier_after(accesses) & IER_THR_EMPTY != 0
}

/// Over any accesses to a new port the line is up exactly when an interrupt is due. It is driven
/// only to change it, so up and down by turns, from up. The interrupt identification names
/// received data before an empty holding register, and its lowest bit is clear exactly when the
/// line is up.
pub proof fn line_follows_always<S: SerialSink, I: IrqLine>(
    sink: S,
    irq: I,
    accesses: Seq<Access>,
    levels: Seq<bool>,
    w: UartView<S, I>,
)
    requires
        accessed_all(fresh(sink, irq), accesses, levels, w),
    ensures
        w.lcr == lcr_after(accesses),
        w.ier == ier_after(accesses),
        w.rx == queued_after(accesses),
        w.irq_active == interrupt_due(accesses),
        forall|i: int| 0 <= i < levels.len() ==> #[trigger] levels[i] == (i % 2 == 0),
        w.irq_active == (levels.len() > 0 && levels.last()),
        w.value(REG_IIR_FCR) == if ier_after(accesses) & IER_RX_AVAIL != 0 && queued_after(
            accesses,
        ).len() > 0 {
            0xC4u8
        } else if ier_after(accesses) & IER_THR_EMPTY != 0 {
            0xC2
        } else {
            0xC1
        },
        w.value(REG_IIR_FCR) & 1 == 0 <==> w.irq_active,
    decreases accesses.len(),
{
    assert(0u8 & 1u8 == 0 && 0u8 & 2u8 == 0) by (bit_vector);
    assert(4u8 | 0xC0u8 == 0xC4u8 && 2u8 | 0xC0u8 == 0xC2u8 && 1u8 | 0xC0u8 == 0xC1u8)
        by (bit_vector);
    assert(0xC4u8 & 1u8 == 0 && 0xC2u8 & 1u8 == 0 && 0xC1u8 & 1u8 == 1u8) by (bit_vector);
    if accesses.len() > 0 {
        let v = fresh(sink, irq);
        let mid = choose|mid: UartView<S, I>|
            {
                &&& #[trigger] accessed(mid, accesses.last(), w)
                &&& levels.len() >= drives_between(mid, w).len()
                &&& levels.skip(levels.len() - drives_between(mid, w).len()) == drives_between(
                    mid,
                    w,
                )
                &&& accessed_all(
                    v,
                    accesses.drop_last(),
                    levels.take(levels.len() - drives_between(mid, w).len()),
                    mid,
                )
            };
        let last = drives_between(mid, w);
        let cut = levels.len() - last.len();
        let first = levels.take(cut);
        line_follows_always(sink, irq, accesses.drop_last(), first, mid);
        assert(levels =~= first + last);
        access_in_accord(mid, accesses.last(), w);
        assert(first.len() > 0 ==> first.last() == first[first.len() - 1]);
        assert forall|i: int| 0 <= i < levels.len() implies #[trigger] levels[i] == (i % 2 == 0) by {
            if i < first.len() {
                assert(levels[i] == first[i]);
            }
        }
    }
}

/// An access drives the line to what it then is, if that changes it, and leaves it alone
/// otherwise; afterwards it is in accord with what is pending.
pub proof fn access_in_accord<S: SerialSink, I: IrqLine>(
    v: UartView<S, I>,
    a: Access,
    w: UartView<S, I>,
)
    requires
        accessed(v, a, w),
        v.irq_active == v.wants_irq(),
    ensures
        w.irq_active == w.wants_irq(),
        if w.irq_active != v.irq_active {
            v.irq.drives(w.irq_active, &w.irq)
        } else {
            w.irq == v.irq
        },
{
}

/// What the host sends is read in order: with `sent` waiting, and the divisor out of the way,
/// a read of the data register gives its first byte and leaves the others.
pub proof fn input_in_order<S, I>(v: UartView<S, I>, first: u8, more: Seq<u8>)
    requires
        !v.dlab(),
        v.rx == seq![first] + more,
    ensures
        v.value(REG_DATA) == first,
        v.after_read(REG_DATA).rx == more,
        v.value(REG_LSR) & LSR_DATA_READY != 0,
{
    assert(v.rx.skip(1) =~= more);
    assert(0x61u8 & 0x01u8 != 0) by (bit_vector);
}

/// The line status always says that a byte can be transmitted.
pub proof fn transmitter_always_empty<S, I>(v: UartView<S, I>)
    ensures
        v.value(REG_LSR) & LSR_THR_EMPTY != 0,
        v.value(REG_LSR) & LSR_TEMT != 0,
{
    assert(0x61u8 & 0x20u8 != 0 && 0x60u8 & 0x20u8 != 0) by (bit_vector);
    assert(0x61u8 & 0x40u8 != 0 && 0x60u8 & 0x40u8 != 0) by (bit_vector);
}

/// The serial port.
pub struct Uart<S, I> {
    ier: u8,
    lcr: u8,
    mcr: u8,
    scr: u8,
    fcr: u8,
    dll: u8,
    dlm: u8,
    irq_active: bool,
    rx: VecDeque<u8>,
    sink: S,
    irq: I,
}

impl<S, I> View for Uart<S, I> {
    type V = UartView<S, I>;

    closed spec fn view(&self) -> UartView<S, I> {
        UartView {
            ier: self.ier,
            lcr: self.lcr,
            mcr: self.mcr,
            scr: self.scr,
            fcr: self.fcr,
            dll: self.dll,
            dlm: self.dlm,
            irq_active: self.irq_active,
            rx: self.rx@,
            sink: self.sink,
            irq: self.irq,
        }
    }
}

/// A port as it is made.
pub open spec fn fresh<S, I>(sink: S, irq: I) -> UartView<S, I> {
    UartView {
        ier: 0,
        lcr: 0,
        mcr: 0,
        scr: 0,
        fcr: 0,
        dll: 0x0c,
        dlm: 0,
        irq_active: false,
        rx: seq![],
        sink,
        irq,
    }
}

impl<S: SerialSink> Uart<S, NullIrq> {
    /// A port without an interrupt line.
    pub fn new(sink: S) -> (r: Self)
        ensures
            r@ == fresh(sink, NullIrq),
    {
        Uart::with_irq(sink, NullIrq)
    }
}

impl<S: SerialSink, I: IrqLine> Uart<S, I> {
    /// A port with an interrupt line.
    pub fn with_irq(sink: S, irq: I) -> (r: Self)
        ensures
            r@ == fresh(sink, irq),
    {
        let r = Uart {
            ier: 0,
            lcr: 0,
            mcr: 0,
            scr: 0,
            fcr: 0,
            dll: 0x0c,
            dlm: 0,
            irq_active: false,
            rx: VecDeque::new(),
            sink,
            irq,
        };
        assert(r.rx@ =~= seq![]);
        r
    }

    /// Queues what the host sends for the guest to read.
    pub fn enqueue_input(&mut self, b: &[u8])
        ensures
            line_follows(
                UartView { rx: old(self)@.rx + b@, ..old(self)@ },
                final(self)@,
            ),
    {
        let ghost v = self@;
        let mut i: usize = 0;
        assert(self.rx@ =~= v.rx + b@.take(0));
        while i < b.len()
            invariant
                i <= b@.len(),
                self@ == (UartView { rx: v.rx + b@.take(i as int), ..v }),
            decreases b@.len() - i,
        {
            self.rx.push_back(b[i]);
            i += 1;
            assert(self.rx@ =~= v.rx + b@.take(i as int));
        }
        assert(b@.take(b@.len() as int) =~= b@);
        self.update_irq();
    }

    /// Drives the line to what is pending.
    fn update_irq(&mut self)
        ensures
            line_follows(old(self)@, final(self)@),
    {
        let want: bool = (self.ier & IER_RX_AVAIL != 0 && self.rx.len() > 0) || self.ier
            & IER_THR_EMPTY != 0;
        if want != self.irq_active {
            self.irq_active = want;
            self.irq.set(want);
        }
    }

    /// The interrupt identification.
    fn iir(&self) -> (r: u8)
        ensures
            r == self@.iir(),
    {
        let id: u8 = if self.ier & IER_RX_AVAIL != 0 && self.rx.len() > 0 {
            IIR_RX_AVAIL
        } else if self.ier & IER_THR_EMPTY != 0 {
            IIR_THR_EMPTY
        } else {
            IIR_NO_INT
        };
        id | IIR_FIFO_BITS
    }
}

impl<S: SerialSink, I: IrqLine> Device for Uart<S, I> {
    open spec fn reads(&self, offset: u64, before: Seq<u8>, post: &Self, after: Seq<u8>) -> bool {
        &&& after == bytes::lead(self@.value(offset), before.len())
        &&& line_follows(self@.after_read(offset), post@)
    }

    open spec fn writes(&self, offset: u64, data: Seq<u8>, post: &Self) -> bool {
        uart_written(self@, offset, data, post@)
    }

    fn read(&mut self, offset: u64, data: &mut [u8]) {
        let ghost v = self@;
        let dlab: bool = self.lcr & LCR_DLAB != 0;
        let val: u8 = match offset {
            REG_DATA => {
                if dlab {
                    self.dll
                } else {
                    match self.rx.pop_front() {
                        Some(b) => b,
                        None => 0,
                    }
                }
            },
            REG_IER => {
                if dlab {
                    self.dlm
                } else {
                    self.ier
                }
            },
            REG_IIR_FCR => self.iir(),
            REG_LCR => self.lcr,
            REG_MCR => self.mcr,
            REG_LSR => {
                if self.rx.len() > 0 {
                    0x61
                } else {
                    0x60
                }
            },
            REG_MSR => 0xB0,
            REG_SCR => self.scr,
            _ => 0xFF,
        };
        assert(v.rx.len() > 0 ==> v.rx.subrange(1, v.rx.len() as int) =~= v.rx.skip(1));
        assert(self@ == v.after_read(offset));
        bytes::fill_lead(data, val);
        self.update_irq();
    }

    fn write(&mut self, offset: u64, data: &[u8]) {
        if data.len() == 0 {
            return;
        }
        let byte: u8 = data[0];
        let dlab: bool = self.lcr & LCR_DLAB != 0;
        match offset {
            REG_DATA => {
                if dlab {
                    self.dll = byte;
                } else {
                    let one: [u8; 1] = [byte];
                    assert(one@ =~= seq![byte]);
                    self.sink.tx(&one);
                }
            },
            REG_IER => {
                if dlab {
                    self.dlm = byte;
                } else {
                    self.ier = byte & 0x0f;
                }
            },
            REG_IIR_FCR => self.fcr = byte,
            REG_LCR => self.lcr = byte,
            REG_MCR => self.mcr = byte,
            REG_SCR => self.scr = byte,
            _ => {},
        }
        self.update_irq();
    }
}

} // verus!
