//! What to do when a virtual processor stops: the access that the guest made goes to the
//! device bus, and a read is answered from there. Nothing here knows a device.

use vstd::prelude::*;

use crate::devices::bus;
use crate::devices::bus::{Bus, Slots};
use crate::devices::device::Device;
use crate::bytes;
use crate::hypervisor::traits::{HypervisorError, Vcpu, VcpuExit};
use crate::text;

verus! {

/// What the processor's loop does after a stop.
#[derive(Debug)]
pub enum ExitAction {
    /// Run the guest again.
    Continue,
    /// Answer the read that the guest waits for with these bytes, then run it again.
    ReadCompleted(Vec<u8>),
    /// The guest shut down.
    Shutdown,
}

/// Why a stop could not be handled.
#[derive(Debug)]
pub enum DispatchError {
    UnhandledExit(String),
}

impl DispatchError {
    /// The error in words.
    pub open spec fn words(self) -> Seq<char> {
        match self {
            DispatchError::UnhandledExit(e) => "unhandled vcpu exit: "@ + e@,
        }
    }

    /// The error in words.
    pub fn message(&self) -> (r: String)
        ensures
            r@ == self.words(),
    {
        match self {
            DispatchError::UnhandledExit(e) => text::join2("unhandled vcpu exit: ", e.as_str()),
        }
    }
}

/// Text in quotes, with what is special in it escaped, as `std::fmt::Debug` writes it.
pub uninterp spec fn quoted(s: Seq<char>) -> Seq<char>;

/// `format!` with `std::fmt::Debug` on text: a function of that text.
#[verifier::external_body]
fn quoted_text(s: &str) -> (r: String)
    ensures
        r@ == quoted(s@),
{
    format!("{:?}", s)
}

/// How an exit that is not handled is named, given its text in quotes.
pub open spec fn unhandled(quote: Seq<char>) -> Seq<char> {
    "Unhandled("@ + quote + ")"@
}

/// How an exit that is not handled is named, given its text in quotes.
pub fn unhandled_text(quote: &str) -> (r: String)
    ensures
        r@ == unhandled(quote@),
{
    text::join3("Unhandled(", quote, ")")
}

/// Whether handling `exit` may take the bus's two spaces from `m0` and `p0` to `m1` and `p1`
/// and give `r`.
pub open spec fn handled<D: Device>(
    exit: VcpuExit,
    m0: Slots<D>,
    p0: Slots<D>,
    m1: Slots<D>,
    p1: Slots<D>,
    r: Result<ExitAction, DispatchError>,
) -> bool {
    match exit {
        VcpuExit::MmioRead { addr, len } => {
            &&& p1 == p0
            &&& r matches Ok(ExitAction::ReadCompleted(b)) && b@.len() == len && bus::space_read(
                m0,
                addr,
                bytes::zeros(len as nat),
                m1,
                b@,
            )
        },
        VcpuExit::MmioWrite { addr, data } => {
            &&& p1 == p0
            &&& bus::space_written(m0, addr, data@, m1)
            &&& r == Ok::<ExitAction, DispatchError>(ExitAction::Continue)
        },
        VcpuExit::IoIn { port, len } => {
            &&& m1 == m0
            &&& r matches Ok(ExitAction::ReadCompleted(b)) && b@.len() == len && bus::space_read(
                p0,
                port as u64,
                bytes::zeros(len as nat),
                p1,
                b@,
            )
        },
        VcpuExit::IoOut { port, data } => {
            &&& m1 == m0
            &&& bus::space_written(p0, port as u64, data@, p1)
            &&& r == Ok::<ExitAction, DispatchError>(ExitAction::Continue)
        },
        VcpuExit::Hlt => {
            &&& m1 == m0
            &&& p1 == p0
            &&& r == Ok::<ExitAction, DispatchError>(ExitAction::Continue)
        },
        VcpuExit::Shutdown => {
            &&& m1 == m0
            &&& p1 == p0
            &&& r == Ok::<ExitAction, DispatchError>(ExitAction::Shutdown)
        },
        VcpuExit::Unhandled(s) => {
            &&& m1 == m0
            &&& p1 == p0
            &&& r matches Err(DispatchError::UnhandledExit(e)) && e@ == unhandled(quoted(s@))
        },
    }
}

/// Hands the guest's access to the bus.
pub fn handle_exit<D: Device>(exit: VcpuExit, bus: &mut Bus<D>) -> (r: Result<
    ExitAction,
    DispatchError,
>)
    ensures
        handled(
            exit,
            old(bus).mmio(),
            old(bus).pio(),
            final(bus).mmio(),
            final(bus).pio(),
            r,
        ),
{
    match exit {
        VcpuExit::MmioRead { addr, len } => {
            let mut buf: Vec<u8> = bytes::zero_vec(len);
            bus.read_mmio(addr, &mut buf);
            Ok(ExitAction::ReadCompleted(buf))
        },
        VcpuExit::MmioWrite { addr, data } => {
            bus.write_mmio(addr, &data);
            Ok(ExitAction::Continue)
        },
        VcpuExit::IoIn { port, len } => {
            let mut buf: Vec<u8> = bytes::zero_vec(len);
            bus.read_pio(port as u64, &mut buf);
            Ok(ExitAction::ReadCompleted(buf))
        },
        VcpuExit::IoOut { port, data } => {
            bus.write_pio(port as u64, &data);
            Ok(ExitAction::Continue)
        },
        VcpuExit::Hlt => Ok(ExitAction::Continue),
        VcpuExit::Shutdown => Ok(ExitAction::Shutdown),
        VcpuExit::Unhandled(s) => {
            let q = quoted_text(s.as_str());
            Err(DispatchError::UnhandledExit(unhandled_text(q.as_str())))
        },
    }
}

/// What a processor's loop does next.
#[derive(Debug)]
pub enum Turn {
    /// Run the guest again.
    Continue,
    /// The guest halted: let others run, then run it again.
    Halted,
    /// Answer the read that the guest waits for, then run it again.
    Answer(Vec<u8>),
    /// End, for this reason.
    Exited(String),
}

/// Whether a run that gave `r` may take the bus's two spaces from `m0` and `p0` to `m1` and
/// `p1` and come to `turn`: a run that failed ends the loop, and so does an exit that is not
/// handled, which would only come again.
pub open spec fn turned<D: Device>(
    r: Result<VcpuExit, HypervisorError>,
    m0: Slots<D>,
    p0: Slots<D>,
    m1: Slots<D>,
    p1: Slots<D>,
    turn: Turn,
) -> bool {
    match r {
        Err(e) => {
            &&& m1 == m0
            &&& p1 == p0
            &&& turn matches Turn::Exited(t) && exists|source: Seq<char>|
                t@ == "vcpu error: "@ + #[trigger] e.words(source)
        },
        Ok(exit) => exists|act: Result<ExitAction, DispatchError>|
            {
                &&& #[trigger] handled(exit, m0, p0, m1, p1, act)
                &&& match act {
                    Ok(ExitAction::Continue) => turn == if exit is Hlt {
                        Turn::Halted
                    } else {
                        Turn::Continue
                    },
                    Ok(ExitAction::ReadCompleted(b)) => turn == Turn::Answer(b),
                    Ok(ExitAction::Shutdown) => turn matches Turn::Exited(t) && t@
                        == "guest shutdown"@,
                    Err(e) => turn matches Turn::Exited(t) && t@ == "unhandled exit: "@ + e.words(),
                }
            },
    }
}

/// Whether an answer that gave `r` may come to `turn`: one that failed ends the loop.
pub open spec fn answered(r: Result<(), HypervisorError>, turn: Turn) -> bool {
    match r {
        Ok(_) => turn == Turn::Continue,
        Err(e) => turn matches Turn::Exited(t) && exists|source: Seq<char>|
            t@ == "completion: "@ + #[trigger] e.words(source),
    }
}

/// What follows a run.
pub fn after_run<D: Device>(r: Result<VcpuExit, HypervisorError>, bus: &mut Bus<D>) -> (turn: Turn)
    ensures
        turned(
            r,
            old(bus).mmio(),
            old(bus).pio(),
            final(bus).mmio(),
            final(bus).pio(),
            turn,
        ),
{
    let ghost m0 = bus.mmio();
    let ghost p0 = bus.pio();
    let exit = match r {
        Ok(e) => e,
        Err(e) => {
            let why = e.message();
            return Turn::Exited(text::join2("vcpu error: ", why.as_str()));
        },
    };
    let ghost seen = exit;
    let halted: bool = match &exit {
        VcpuExit::Hlt => true,
        _ => false,
    };
    let act = handle_exit(exit, bus);
    let ghost acted = act;
    assert(handled(seen, m0, p0, bus.mmio(), bus.pio(), acted));
    match act {
        Ok(ExitAction::Continue) => {
            if halted {
                Turn::Halted
            } else {
                Turn::Continue
            }
        },
        Ok(ExitAction::ReadCompleted(b)) => Turn::Answer(b),
        Ok(ExitAction::Shutdown) => Turn::Exited(text::plain("guest shutdown")),
        Err(e) => {
            let why = e.message();
            Turn::Exited(text::join2("unhandled exit: ", why.as_str()))
        },
    }
}

/// What follows an answer.
pub fn after_answer(r: Result<(), HypervisorError>) -> (turn: Turn)
    ensures
        answered(r, turn),
{
    match r {
        Ok(()) => Turn::Continue,
        Err(e) => {
            let why = e.message();
            Turn::Exited(text::join2("completion: ", why.as_str()))
        },
    }
}

/// Whether one whole turn may go from the processor `v0` and the two spaces to `v1` and
/// theirs, and come to `turn`: the guest runs once, what it stopped for is handled, and a read
/// is answered.
pub open spec fn stepped<V: Vcpu, D: Device>(
    v0: V,
    m0: Slots<D>,
    p0: Slots<D>,
    v1: V,
    m1: Slots<D>,
    p1: Slots<D>,
    turn: Turn,
) -> bool {
    exists|mid: V, r: Result<VcpuExit, HypervisorError>, first: Turn|
        {
            &&& #[trigger] v0.runs(r, &mid)
            &&& #[trigger] turned(r, m0, p0, m1, p1, first)
            &&& match first {
                Turn::Answer(b) => exists|done: Result<(), HypervisorError>|
                    #[trigger] mid.completes(b@, done, &v1) && answered(done, turn),
                _ => v1 == mid && turn == first,
            }
        }
}

/// One turn of a processor's loop.
pub fn step<V: Vcpu, D: Device>(vcpu: &mut V, bus: &mut Bus<D>) -> (turn: Turn)
    ensures
        stepped(
            *old(vcpu),
            old(bus).mmio(),
            old(bus).pio(),
            *final(vcpu),
            final(bus).mmio(),
            final(bus).pio(),
            turn,
        ),
        !(turn is Answer),
{
    let ghost v0 = *vcpu;
    let ghost m0 = bus.mmio();
    let ghost p0 = bus.pio();
    let r = vcpu.run();
    let ghost ran = r;
    let ghost mid = *vcpu;
    assert(v0.runs(ran, &mid));
    let first = after_run(r, bus);
    let ghost saw = first;
    assert(turned(ran, m0, p0, bus.mmio(), bus.pio(), saw));
    match first {
        Turn::Answer(b) => {
            let done = vcpu.set_exit_result(b.as_slice());
            let ghost gave = done;
            let ghost end = *vcpu;
            assert(mid.completes(b@, gave, &end));
            after_answer(done)
        },
        other => other,
    }
}

/// A read of device memory or of a port is always answered with as many bytes as the guest
/// waits for, so the answer is never refused for its length.
pub proof fn answers_fit<D: Device>(
    exit: VcpuExit,
    m0: Slots<D>,
    p0: Slots<D>,
    m1: Slots<D>,
    p1: Slots<D>,
    turn: Turn,
)
    requires
        turned(Ok::<VcpuExit, HypervisorError>(exit), m0, p0, m1, p1, turn),
    ensures
        match exit {
            VcpuExit::MmioRead { addr: _, len } => turn matches Turn::Answer(b) && b@.len() == len,
            VcpuExit::IoIn { port: _, len } => turn matches Turn::Answer(b) && b@.len() == len,
            _ => !(turn is Answer),
        },
{
}

} // verus!
