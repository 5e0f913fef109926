//! What the serial port does over any course of accesses, told from the accesses alone.

use vstd::prelude::*;

use super::device::{Device, IrqLine, NullIrq};
use super::uart;
use super::uart::{SerialSink, Uart, UartView};

verus! {

/// Something that happened to the port: the guest read `after` in place of `before`, the guest
/// wrote, or the host sent.
pub ghost enum Touch {
    Read { offset: u64, before: Seq<u8>, after: Seq<u8> },
    Write { offset: u64, data: Seq<u8> },
    Input { data: Seq<u8> },
}

/// Whether that may take the port from `u` to `p`.
pub open spec fn touched<S: SerialSink, I: IrqLine>(
    u: Uart<S, I>,
    t: Touch,
    p: Uart<S, I>,
) -> bool {
    match t {
        Touch::Read { offset, before, after } => u.reads(offset, before, &p, after),
        Touch::Write { offset, data } => u.writes(offset, data, &p),
        Touch::Input { data } => uart::line_follows(
            UartView { rx: u@.rx + data, ..u@ },
            p@,
        ),
    }
}

/// Whether all that, one after the other, may take the port from `u` to `p`.
pub open spec fn touched_all<S: SerialSink, I: IrqLine>(
    u: Uart<S, I>,
    ts: Seq<Touch>,
    p: Uart<S, I>,
) -> bool
    decreases ts.len(),
{
    if ts.len() == 0 {
        p == u
    } else {
        exists|mid: Uart<S, I>|
            #[trigger] touched(mid, ts.last(), p) && touched_all(u, ts.drop_last(), mid)
    }
}

/// Sending input to the port is what these laws speak of as input.
pub proof fn input_is_input<S: SerialSink, I: IrqLine>(b: &[u8])
    ensures
        forall|s: &mut Uart<S, I>| #[trigger]
            call_ensures(Uart::<S, I>::enqueue_input, (s, b), ()) ==> touched(
                *s,
                Touch::Input { data: b@ },
                *final(s),
            ),
{
}

/// A port without an interrupt line starts as one with a line does: nothing enabled, nothing
/// queued, the divisor at twelve.
pub proof fn ports_start_alike<S: SerialSink>(sink: S, u: Uart<S, NullIrq>, w: Uart<S, NullIrq>)
    requires
        call_ensures(Uart::<S, NullIrq>::new, (sink,), u),
        call_ensures(Uart::<S, NullIrq>::with_irq, (sink, NullIrq), w),
    ensures
        u@ == w@,
        u@.ier == 0 && u@.lcr == 0 && u@.mcr == 0 && u@.scr == 0 && u@.dll == 12 && u@.dlm == 0,
        u@.rx.len() == 0 && !u@.irq_active,
        u@.sink == sink,
{
}

/// What was last written to the register at `offset`, `start` if nothing was.
pub open spec fn last_written(ts: Seq<Touch>, offset: u64, start: u8) -> u8
    decreases ts.len(),
{
    if ts.len() == 0 {
        start
    } else {
        match ts.last() {
            Touch::Write { offset: o, data } if o == offset && data.len() > 0 => data[0],
            _ => last_written(ts.drop_last(), offset, start),
        }
    }
}

/// Whether the divisor has the first two registers: the top bit of what line control was last
/// set to.
pub open spec fn divisor_open(ts: Seq<Touch>) -> bool {
    last_written(ts, 3, 0) >= 128
}

/// What was last written to the register at `offset` while the divisor was open, or while it was
/// not.
pub open spec fn last_behind(ts: Seq<Touch>, offset: u64, open: bool, start: u8) -> u8
    decreases ts.len(),
{
    if ts.len() == 0 {
        start
    } else {
        match ts.last() {
            Touch::Write { offset: o, data } if o == offset && data.len() > 0 && divisor_open(
                ts.drop_last(),
            ) == open => data[0],
            _ => last_behind(ts.drop_last(), offset, open, start),
        }
    }
}

/// What the guest transmitted: the first byte of every write to the data register that was not
/// empty and met the divisor closed.
pub open spec fn transmitted(ts: Seq<Touch>) -> Seq<u8>
    decreases ts.len(),
{
    if ts.len() == 0 {
        seq![]
    } else {
        let sent = transmitted(ts.drop_last());
        match ts.last() {
            Touch::Write { offset, data } if offset == 0 && data.len() > 0 && !divisor_open(
                ts.drop_last(),
            ) => sent.push(data[0]),
            _ => sent,
        }
    }
}

/// What the host sent, all together.
pub open spec fn typed(ts: Seq<Touch>) -> Seq<u8>
    decreases ts.len(),
{
    if ts.len() == 0 {
        seq![]
    } else {
        match ts.last() {
            Touch::Input { data } => typed(ts.drop_last()) + data,
            _ => typed(ts.drop_last()),
        }
    }
}

/// How much of what the host sent the guest has taken: a byte for every read of the data
/// register that met the divisor closed and something to read.
pub open spec fn taken(ts: Seq<Touch>) -> int
    decreases ts.len(),
{
    if ts.len() == 0 {
        0
    } else {
        let n = taken(ts.drop_last());
        match ts.last() {
            Touch::Read { offset, before: _, after: _ } if offset == 0 && !divisor_open(
                ts.drop_last(),
            ) && n < typed(ts.drop_last()).len() => n + 1,
            _ => n,
        }
    }
}

/// Whether a sink may go from `a` to `b` by taking these bytes, one at a time and in order.
pub open spec fn sunk<S: SerialSink>(a: S, bytes: Seq<u8>, b: S) -> bool
    decreases bytes.len(),
{
    if bytes.len() == 0 {
        b == a
    } else {
        exists|mid: S|
            #[trigger] mid.takes(seq![bytes.last()], &b) && sunk(a, bytes.drop_last(), mid)
    }
}

/// Whether received data waits that the guest wants to hear of.
pub open spec fn wants_input(ts: Seq<Touch>) -> bool {
    last_behind(ts, 1, false, 0) % 2 == 1 && taken(ts) < typed(ts).len()
}

/// Whether the guest wants to hear that it can transmit.
pub open spec fn wants_room(ts: Seq<Touch>) -> bool {
    (last_behind(ts, 1, false, 0) / 2) % 2 == 1
}

/// What a read of the register at `offset` is to give.
pub open spec fn shown(ts: Seq<Touch>, offset: u64) -> u8 {
    if offset == 0 {
        if divisor_open(ts) {
            last_behind(ts, 0, true, 12)
        } else if taken(ts) < typed(ts).len() {
            typed(ts)[taken(ts)]
        } else {
            0
        }
    } else if offset == 1 {
        if divisor_open(ts) {
            last_behind(ts, 1, true, 0)
        } else {
            last_behind(ts, 1, false, 0) % 16
        }
    } else if offset == 2 {
        if wants_input(ts) {
            0xc4
        } else if wants_room(ts) {
            0xc2
        } else {
            0xc1
        }
    } else if offset == 5 {
        if taken(ts) < typed(ts).len() {
            0x61
        } else {
            0x60
        }
    } else if offset == 6 {
        0xb0
    } else if offset == 3 || offset == 4 || offset == 7 {
        last_written(ts, offset, 0)
    } else {
        0xff
    }
}

/// Bits and arithmetic agree on the bits that the port looks at.
proof fn bits(b: u8)
    ensures
        b & 0x80 != 0 <==> b >= 128,
        b & 0x0f == b % 16,
        b & 1 != 0 <==> b % 2 == 1,
        b & 2 != 0 <==> (b / 2) % 2 == 1,
        (b % 16) % 2 == b % 2,
        ((b % 16) / 2) % 2 == (b / 2) % 2,
        4u8 | 0xC0u8 == 0xC4u8,
        2u8 | 0xC0u8 == 0xC2u8,
        1u8 | 0xC0u8 == 0xC1u8,
{
    assert(b & 0x80 != 0 <==> b >= 128) by (bit_vector);
    assert(b & 0x0f == b % 16 && (b & 1 != 0 <==> b % 2 == 1) && (b & 2 != 0 <==> (b / 2) % 2
        == 1)) by (bit_vector);
    assert(4u8 | 0xC0u8 == 0xC4u8 && 2u8 | 0xC0u8 == 0xC2u8 && 1u8 | 0xC0u8 == 0xC1u8)
        by (bit_vector);
}

/// Over any accesses to a new port, the bytes handed to the sink are, in order, exactly the
/// first bytes of the writes to the data register made while the divisor was closed. The line
/// is up exactly when the guest wants to hear of what is the case.
pub proof fn sink_gets_what_was_transmitted<S: SerialSink, I: IrqLine>(
    sink: S,
    irq: I,
    u: Uart<S, I>,
    ts: Seq<Touch>,
    p: Uart<S, I>,
)
    requires
        call_ensures(Uart::<S, I>::with_irq, (sink, irq), u),
        touched_all(u, ts, p),
    ensures
        sunk(sink, transmitted(ts), p@.sink),
        p@.irq_active == (wants_input(ts) || wants_room(ts)),
{
    port_follows(sink, irq, u, ts, p);
}

/// Over any accesses to a new port, a read gives in its first byte what the register shows, and
/// zero in the others: the data register what the host sent, in order and each byte once, and
/// every other register what was last written to it or what it always says.
#[verifier::rlimit(60)]
#[verifier::spinoff_prover]
pub proof fn reads_show_what_was_written<S: SerialSink, I: IrqLine>(
    sink: S,
    irq: I,
    u: Uart<S, I>,
    ts: Seq<Touch>,
    mid: Uart<S, I>,
    offset: u64,
    before: Seq<u8>,
    p: Uart<S, I>,
    after: Seq<u8>,
)
    requires
        call_ensures(Uart::<S, I>::with_irq, (sink, irq), u),
        touched_all(u, ts, mid),
        mid.reads(offset, before, &p, after),
    ensures
        after.len() == before.len(),
        after.len() > 0 ==> after[0] == shown(ts, offset),
        forall|i: int| 1 <= i < after.len() ==> after[i] == 0,
{
    port_follows(sink, irq, u, ts, mid);
    bits(last_behind(ts, 1, false, 0));
    bits(last_written(ts, 3, 0));
    bits(mid@.ier);
}

/// The line is driven exactly when it changes, and to what it changes to.
pub proof fn line_is_driven_on_change<S: SerialSink, I: IrqLine>(
    u: Uart<S, I>,
    t: Touch,
    p: Uart<S, I>,
)
    requires
        touched(u, t, p),
    ensures
        p@.irq_active != u@.irq_active ==> u@.irq.drives(p@.irq_active, &p@.irq),
        p@.irq_active == u@.irq_active ==> p@.irq == u@.irq,
{
}

/// The state of the port, told from the accesses.
#[verifier::rlimit(60)]
#[verifier::spinoff_prover]
proof fn port_follows<S: SerialSink, I: IrqLine>(
    sink: S,
    irq: I,
    u: Uart<S, I>,
    ts: Seq<Touch>,
    p: Uart<S, I>,
)
    requires
        call_ensures(Uart::<S, I>::with_irq, (sink, irq), u),
        touched_all(u, ts, p),
    ensures
        sunk(sink, transmitted(ts), p@.sink),
        p@.irq_active == (wants_input(ts) || wants_room(ts)),
        p@.lcr == last_written(ts, 3, 0),
        p@.mcr == last_written(ts, 4, 0),
        p@.scr == last_written(ts, 7, 0),
        p@.dll == last_behind(ts, 0, true, 12),
        p@.dlm == last_behind(ts, 1, true, 0),
        p@.ier == last_behind(ts, 1, false, 0) % 16,
        0 <= taken(ts) <= typed(ts).len(),
        p@.rx == typed(ts).skip(taken(ts)),
    decreases ts.len(),
{
    if ts.len() == 0 {
        assert(p@.rx =~= typed(ts).skip(0));
        assert(transmitted(ts) =~= seq![]);
        bits(0);
    } else {
        let mid = choose|mid: Uart<S, I>|
            #[trigger] touched(mid, ts.last(), p) && touched_all(u, ts.drop_last(), mid);
        let rest = ts.drop_last();
        port_follows(sink, irq, u, rest, mid);
        bits(last_behind(rest, 1, false, 0));
        bits(last_behind(ts, 1, false, 0));
        bits(last_written(rest, 3, 0));
        bits(p@.ier);
        assert(p@.rx =~= typed(ts).skip(taken(ts)));
        if let Touch::Write { offset, data } = ts.last() {
            if data.len() > 0 {
                bits(data[0]);
            }
            if offset == 0 && data.len() > 0 && !divisor_open(rest) {
                let sent = transmitted(ts);
                assert(sent.drop_last() =~= transmitted(rest));
                assert(mid@.sink.takes(seq![sent.last()], &p@.sink));
            }
        }
    }
}

} // verus!
