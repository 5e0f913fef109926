//! What a running machine does for its guest: where an access goes, what the guest is answered,
//! and when a processor's loop ends.

use vstd::prelude::*;

use super::exit;
use super::exit::Turn;
use super::framebuffer;
use super::framebuffer::FbError;
use super::machine;
use super::machine::{PcDevice, RunningVm};
use super::state::{IllegalTransition, VmState};
use super::tap;
use super::tap::{Received, Sent};
use super::vm::{EventRx, FbShare, RunHandle, Vm, VmConfig};
use crate::control::protocol::VmEvent;
use crate::devices::access_laws;
use crate::devices::bus;
use crate::devices::bus::{Bus, BusError, Slots};
use crate::devices::device::{Device, IrqLine};
use crate::devices::fb::FbGeometry;
use crate::devices::uart::{SerialSink, Uart};
use crate::devices::uart_laws;
use crate::devices::uart_laws::Touch;
use crate::devices::virtio::blk_device_laws;
use crate::devices::virtio::guest::GuestAccess;
use crate::devices::virtio::mmio::{DiskOp, DiskReply, VirtioBlkMmio};
use crate::devices::virtio::net::NetBackend;
use crate::devices::virtio::net_mmio;
use crate::devices::virtio::net_mmio::VirtioNetMmio;
use crate::hypervisor::traits::{HypervisorError, Vcpu, VcpuExit};

verus! {

/// What follows a run, and what a whole turn of the loop does, is what these laws speak of.
pub proof fn loop_calls<V: Vcpu, D: Device>(
    r: Result<VcpuExit, HypervisorError>,
    turn: Turn,
    done: Result<(), HypervisorError>,
)
    ensures
        forall|b: &mut Bus<D>| #[trigger]
            call_ensures(exit::after_run::<D>, (r, b), turn) ==> exit::turned(
                r,
                (*b).mmio(),
                (*b).pio(),
                (*final(b)).mmio(),
                (*final(b)).pio(),
                turn,
            ),
        call_ensures(exit::after_answer, (done,), turn) ==> {
            &&& done is Ok ==> turn is Continue
            &&& done is Err ==> turn is Exited
        },
        forall|v: &mut V, b: &mut Bus<D>| #[trigger]
            call_ensures(exit::step::<V, D>, (v, b), turn) ==> exists|
                mid: V,
                ran: Result<VcpuExit, HypervisorError>,
                first: Turn,
            |
                {
                    &&& #[trigger] (*v).runs(ran, &mid)
                    &&& #[trigger] exit::turned(
                        ran,
                        (*b).mmio(),
                        (*b).pio(),
                        (*final(b)).mmio(),
                        (*final(b)).pio(),
                        first,
                    )
                    &&& !(first is Answer) ==> *final(v) == mid && turn == first
                    &&& first matches Turn::Answer(bytes) ==> exists|gave: Result<(), HypervisorError>|
                        {
                            &&& #[trigger] mid.completes(bytes@, gave, final(v))
                            &&& gave is Ok ==> turn is Continue
                            &&& gave is Err ==> turn is Exited
                        }
                },
{
    assert forall|v: &mut V, b: &mut Bus<D>| #[trigger]
        call_ensures(exit::step::<V, D>, (v, b), turn) implies exists|
        mid: V,
        ran: Result<VcpuExit, HypervisorError>,
        first: Turn,
    |
        {
            &&& #[trigger] (*v).runs(ran, &mid)
            &&& #[trigger] exit::turned(
                ran,
                (*b).mmio(),
                (*b).pio(),
                (*final(b)).mmio(),
                (*final(b)).pio(),
                first,
            )
            &&& !(first is Answer) ==> *final(v) == mid && turn == first
            &&& first matches Turn::Answer(bytes) ==> exists|gave: Result<(), HypervisorError>|
                {
                    &&& #[trigger] mid.completes(bytes@, gave, final(v))
                    &&& gave is Ok ==> turn is Continue
                    &&& gave is Err ==> turn is Exited
                }
        } by {
        let (mid, ran, first) = choose|
            mid: V,
            ran: Result<VcpuExit, HypervisorError>,
            first: Turn,
        |
            {
                &&& #[trigger] (*v).runs(ran, &mid)
                &&& #[trigger] exit::turned(
                    ran,
                    (*b).mmio(),
                    (*b).pio(),
                    (*final(b)).mmio(),
                    (*final(b)).pio(),
                    first,
                )
                &&& match first {
                    Turn::Answer(bytes) => exists|gave: Result<(), HypervisorError>|
                        #[trigger] mid.completes(bytes@, gave, final(v)) && exit::answered(
                            gave,
                            turn,
                        ),
                    _ => *final(v) == mid && turn == first,
                }
            };
        if let Turn::Answer(bytes) = first {
            let gave = choose|gave: Result<(), HypervisorError>|
                #[trigger] mid.completes(bytes@, gave, final(v)) && exit::answered(gave, turn);
            assert(mid.completes(bytes@, gave, final(v)));
        }
    }
}

/// A guest's write to a port goes to the device that has the port, at the device's own offset;
/// the guest then goes on. Memory-mapped devices do not hear of it.
pub proof fn output_reaches_device<D: Device>(
    port: u16,
    data: Vec<u8>,
    m0: Slots<D>,
    p0: Slots<D>,
    m1: Slots<D>,
    p1: Slots<D>,
    turn: Turn,
    i: int,
)
    requires
        exit::turned(
            Ok::<VcpuExit, HypervisorError>(VcpuExit::IoOut { port, data }),
            m0,
            p0,
            m1,
            p1,
            turn,
        ),
        bus::slots_apart(p0),
        0 <= i < p0.len(),
        p0[i].0.start <= port < p0[i].0.end,
    ensures
        turn is Continue,
        m1 == m0,
        p1.len() == p0.len(),
        p0[i].1.writes((port - p0[i].0.start) as u64, data@, &p1[i].1),
        forall|j: int| 0 <= j < p0.len() && j != i ==> (#[trigger] p1[j]) == p0[j],
{
    access_laws::write_reaches_device(p0, i, port as u64, data@, p1);
}

/// A guest's read of a port is answered by the device that has the port, with as many bytes as
/// were asked for.
pub proof fn input_comes_from_device<D: Device>(
    port: u16,
    len: usize,
    m0: Slots<D>,
    p0: Slots<D>,
    m1: Slots<D>,
    p1: Slots<D>,
    turn: Turn,
    i: int,
)
    requires
        exit::turned(
            Ok::<VcpuExit, HypervisorError>(VcpuExit::IoIn { port, len }),
            m0,
            p0,
            m1,
            p1,
            turn,
        ),
        bus::slots_apart(p0),
        0 <= i < p0.len(),
        p0[i].0.start <= port < p0[i].0.end,
    ensures
        m1 == m0,
        p1.len() == p0.len(),
        turn matches Turn::Answer(b) && b@.len() == len && p0[i].1.reads(
            (port - p0[i].0.start) as u64,
            Seq::new(len as nat, |k: int| 0u8),
            &p1[i].1,
            b@,
        ),
        forall|j: int| 0 <= j < p0.len() && j != i ==> (#[trigger] p1[j]) == p0[j],
{
    let b = turn->Answer_0;
    let none = Seq::new(len as nat, |k: int| 0u8);
    assert(crate::bytes::zeros(len as nat) =~= none);
    access_laws::read_reaches_device(p0, i, port as u64, none, p1, b@);
}

/// A guest's write to device memory goes to the device that has the address, at the device's own
/// offset; the guest then goes on. Devices at ports do not hear of it.
pub proof fn store_reaches_device<D: Device>(
    addr: u64,
    data: Vec<u8>,
    m0: Slots<D>,
    p0: Slots<D>,
    m1: Slots<D>,
    p1: Slots<D>,
    turn: Turn,
    i: int,
)
    requires
        exit::turned(
            Ok::<VcpuExit, HypervisorError>(VcpuExit::MmioWrite { addr, data }),
            m0,
            p0,
            m1,
            p1,
            turn,
        ),
        bus::slots_apart(m0),
        0 <= i < m0.len(),
        m0[i].0.start <= addr < m0[i].0.end,
    ensures
        turn is Continue,
        p1 == p0,
        m1.len() == m0.len(),
        m0[i].1.writes((addr - m0[i].0.start) as u64, data@, &m1[i].1),
        forall|j: int| 0 <= j < m0.len() && j != i ==> (#[trigger] m1[j]) == m0[j],
{
    access_laws::write_reaches_device(m0, i, addr, data@, m1);
}

/// A guest's read of device memory is answered by the device that has the address, with as many
/// bytes as were asked for.
pub proof fn load_comes_from_device<D: Device>(
    addr: u64,
    len: usize,
    m0: Slots<D>,
    p0: Slots<D>,
    m1: Slots<D>,
    p1: Slots<D>,
    turn: Turn,
    i: int,
)
    requires
        exit::turned(
            Ok::<VcpuExit, HypervisorError>(VcpuExit::MmioRead { addr, len }),
            m0,
            p0,
            m1,
            p1,
            turn,
        ),
        bus::slots_apart(m0),
        0 <= i < m0.len(),
        m0[i].0.start <= addr < m0[i].0.end,
    ensures
        p1 == p0,
        m1.len() == m0.len(),
        turn matches Turn::Answer(b) && b@.len() == len && m0[i].1.reads(
            (addr - m0[i].0.start) as u64,
            Seq::new(len as nat, |k: int| 0u8),
            &m1[i].1,
            b@,
        ),
        forall|j: int| 0 <= j < m0.len() && j != i ==> (#[trigger] m1[j]) == m0[j],
{
    let b = turn->Answer_0;
    let none = Seq::new(len as nat, |k: int| 0u8);
    assert(crate::bytes::zeros(len as nat) =~= none);
    access_laws::read_reaches_device(m0, i, addr, none, m1, b@);
}

/// Where no device answers, a guest reads all ones, and what it writes is dropped; the machine
/// goes on.
pub proof fn nobody_is_no_error<D: Device>(
    exit: VcpuExit,
    m0: Slots<D>,
    p0: Slots<D>,
    m1: Slots<D>,
    p1: Slots<D>,
    turn: Turn,
)
    requires
        exit::turned(Ok::<VcpuExit, HypervisorError>(exit), m0, p0, m1, p1, turn),
        match exit {
            VcpuExit::IoIn { port, len: _ } => forall|i: int|
                0 <= i < p0.len() ==> !access_laws::within((#[trigger] p0[i]).0, port as int),
            VcpuExit::IoOut { port, data: _ } => forall|i: int|
                0 <= i < p0.len() ==> !access_laws::within((#[trigger] p0[i]).0, port as int),
            VcpuExit::MmioRead { addr, len: _ } => forall|i: int|
                0 <= i < m0.len() ==> !access_laws::within((#[trigger] m0[i]).0, addr as int),
            VcpuExit::MmioWrite { addr, data: _ } => forall|i: int|
                0 <= i < m0.len() ==> !access_laws::within((#[trigger] m0[i]).0, addr as int),
            _ => false,
        },
    ensures
        m1 == m0,
        p1 == p0,
        exit is IoOut || exit is MmioWrite ==> turn is Continue,
        exit is IoIn || exit is MmioRead ==> (turn matches Turn::Answer(b) && forall|k: int|
            0 <= k < b@.len() ==> b@[k] == 0xff),
{
    match exit {
        VcpuExit::IoIn { port, len: _ } => bus::claim_law(p0, port as u64),
        VcpuExit::IoOut { port, data: _ } => bus::claim_law(p0, port as u64),
        VcpuExit::MmioRead { addr, len: _ } => bus::claim_law(m0, addr),
        VcpuExit::MmioWrite { addr, data: _ } => bus::claim_law(m0, addr),
        _ => {},
    }
}

/// A guest that halts is run again; one that shuts down, fails to run or stops for what nobody
/// handles ends the loop, which says why. No device hears of any of these.
pub proof fn loop_ends_for_a_reason<D: Device>(
    r: Result<VcpuExit, HypervisorError>,
    m0: Slots<D>,
    p0: Slots<D>,
    m1: Slots<D>,
    p1: Slots<D>,
    turn: Turn,
)
    requires
        exit::turned(r, m0, p0, m1, p1, turn),
        r matches Ok(e) ==> e is Hlt || e is Shutdown || e is Unhandled,
    ensures
        m1 == m0,
        p1 == p0,
        r matches Ok(VcpuExit::Hlt) ==> turn is Halted,
        r matches Ok(VcpuExit::Shutdown) ==> (turn matches Turn::Exited(t) && t@
            == "guest shutdown"@),
        r matches Ok(VcpuExit::Unhandled(s)) ==> (turn matches Turn::Exited(t) && t@
            == "unhandled exit: "@ + ("unhandled vcpu exit: "@ + ("Unhandled("@ + exit::quoted(s@)
            + ")"@))),
        r is Err ==> (turn matches Turn::Exited(t) && exists|why: Seq<char>|
            t@ == #[trigger] ("vcpu error: "@ + why)),
{
    if let Err(e) = r {
        let source = choose|source: Seq<char>|
            (turn->Exited_0)@ == "vcpu error: "@ + #[trigger] e.words(source);
        assert((turn->Exited_0)@ == "vcpu error: "@ + e.words(source));
    }
}

/// A machine's devices are where a guest looks for them: the serial port, the bridge and the
/// clock at their ports, the disk and the network card in their windows, none in the way of
/// another.
pub proof fn machine_is_wired<S: SerialSink, I: IrqLine, A: GuestAccess, N: NetBackend>(
    uart: Uart<S, I>,
    blk: Option<VirtioBlkMmio<A, I>>,
    net: Option<VirtioNetMmio<N, A, I>>,
    r: Result<Bus<PcDevice<S, I, A, N>>, BusError>,
)
    requires
        call_ensures(machine::assemble::<S, I, A, N>, (uart, blk, net), r),
    ensures
        r matches Ok(b) && {
            let n = (if blk is Some {
                1int
            } else {
                0
            });
            &&& b.pio().len() == 3
            &&& b.pio()[0].0.start == 0x3f8 && b.pio()[0].0.end == 0x400
            &&& b.pio()[0].1 == PcDevice::<S, I, A, N>::Uart(uart)
            &&& b.pio()[1].0.start == 0xcf8 && b.pio()[1].0.end == 0xd00 && b.pio()[1].1 is Pci
            &&& b.pio()[2].0.start == 0x70 && b.pio()[2].0.end == 0x72 && b.pio()[2].1 is Rtc
            &&& b.mmio().len() == n + (if net is Some {
                1int
            } else {
                0
            })
            &&& blk matches Some(d) ==> b.mmio()[0].0.start == 0xfe00_0000 && b.mmio()[0].0.end
                == 0xfe00_1000 && b.mmio()[0].1 == PcDevice::<S, I, A, N>::Blk(d)
            &&& net matches Some(d) ==> b.mmio()[n].0.start == 0xfe00_1000 && b.mmio()[n].0.end
                == 0xfe00_2000 && b.mmio()[n].1 == PcDevice::<S, I, A, N>::Net(d)
            &&& bus::slots_apart(b.pio())
            &&& bus::slots_apart(b.mmio())
        },
{
}

/// What the host types goes to the serial port of the running machine, and to no other device.
pub proof fn typing_reaches_serial_port<S: SerialSink, I: IrqLine, A: GuestAccess, N: NetBackend>(
    data: &[u8],
)
    ensures
        forall|s: &mut RunningVm<S, I, A, N>| #[trigger]
            call_ensures(RunningVm::<S, I, A, N>::feed_serial, (s, data), ()) ==> {
                &&& (*final(s)).mmio() == (*s).mmio()
                &&& (*final(s)).stopping() == (*s).stopping()
                &&& (*s).pio().len() > 0 && (*s).pio()[0].1 is Uart ==> {
                    let u = (*s).pio()[0].1->Uart_0;
                    &&& (*final(s)).pio().len() == (*s).pio().len()
                    &&& (*final(s)).pio()[0].1 matches PcDevice::Uart(w) && uart_laws::touched(
                        u,
                        Touch::Input { data: data@ },
                        w,
                    )
                    &&& forall|j: int|
                        1 <= j < (*s).pio().len() ==> (#[trigger] (*final(s)).pio()[j])
                            == (*s).pio()[j]
                }
            },
{
}

/// A disk's reply goes to the running machine's disk, and a poll to its network card, wherever
/// it stands; stopping asks for that and nothing else.
pub proof fn running_machine_calls<S: SerialSink, I: IrqLine, A: GuestAccess, N: NetBackend>(
    reply: DiskReply,
    polled: Option<std::io::Result<bool>>,
)
    ensures
        forall|s: &mut RunningVm<S, I, A, N>| #[trigger]
            call_ensures(RunningVm::<S, I, A, N>::disk_done, (s, reply), ()) && (*s).mmio().len()
                > 0 && (*s).mmio()[0].1 is Blk ==> {
                &&& (*final(s)).pio() == (*s).pio()
                &&& (*final(s)).mmio().len() == (*s).mmio().len()
                &&& (*final(s)).mmio()[0].1 matches PcDevice::Blk(w) && blk_device_laws::replied(
                    (*s).mmio()[0].1->Blk_0@,
                    reply,
                    w@,
                )
                &&& forall|j: int|
                    1 <= j < (*s).mmio().len() ==> (#[trigger] (*final(s)).mmio()[j])
                        == (*s).mmio()[j]
            },
        forall|s: &mut RunningVm<S, I, A, N>, i: int|
            #![trigger call_ensures(RunningVm::<S, I, A, N>::poll_rx_once, (s,), polled), (*s).mmio()[i]]
            call_ensures(RunningVm::<S, I, A, N>::poll_rx_once, (s,), polled) && (i == 0 || (i == 1
                && !((*s).mmio()[0].1 is Net))) && i < (*s).mmio().len() && (*s).mmio()[i].1 is Net
                ==> {
                &&& (*final(s)).pio() == (*s).pio()
                &&& polled is Some
                &&& (*final(s)).mmio()[i].1 matches PcDevice::Net(w) && net_mmio::polled(
                    (*s).mmio()[i].1->Net_0@,
                    w@,
                    polled->0,
                )
                &&& forall|j: int|
                    0 <= j < (*s).mmio().len() && j != i ==> (#[trigger] (*final(s)).mmio()[j])
                        == (*s).mmio()[j]
            },
        forall|s: &mut RunningVm<S, I, A, N>| #[trigger]
            call_ensures(RunningVm::<S, I, A, N>::stop, (s,), ()) ==> (*final(s)).stopping()
                && (*final(s)).mmio() == (*s).mmio() && (*final(s)).pio() == (*s).pio(),
{
}

/// What the running machine needs of the disk is what its disk's job waits for.
pub proof fn running_machine_asks<S: SerialSink, I: IrqLine, A: GuestAccess, N: NetBackend>(
    vm: RunningVm<S, I, A, N>,
    op: Option<&DiskOp>,
    d: VirtioBlkMmio<A, I>,
    own: Option<&DiskOp>,
)
    requires
        call_ensures(RunningVm::<S, I, A, N>::disk_op, (&vm,), op),
        vm.mmio().len() > 0,
        vm.mmio()[0].1 == PcDevice::<S, I, A, N>::Blk(d),
        call_ensures(VirtioBlkMmio::<A, I>::disk_op, (&d,), own),
    ensures
        op is Some <==> own is Some,
        op matches Some(o) ==> o@ == own->0@,
{
}

/// How long to wait before the next poll.
pub proof fn polls_are_paced(r: &std::io::Result<bool>, ms: u64)
    requires
        call_ensures(machine::poll_pause_ms, (r,), ms),
    ensures
        *r matches Ok(true) ==> ms == 0,
        *r matches Ok(false) ==> ms == 1,
        *r is Err ==> ms == 5,
{
}

/// An interface name of up to fifteen bytes is taken, zero behind it; a longer one is not.
pub proof fn interface_names_fit(name: &str, r: Option<[u8; 16]>, i: int)
    requires
        call_ensures(tap::interface_name, (name,), r),
        0 <= i < 16,
    ensures
        ({
            let b = vstd::utf8::encode_utf8(name@);
            &&& r is Some <==> b.len() <= 15
            &&& r matches Some(a) ==> a@[i] == (if i < b.len() {
                b[i]
            } else {
                0u8
            })
        }),
{
}

/// A frame that the host could not take for now is dropped without an error, and no frame for
/// now is none; anything else that fails has failed.
pub proof fn host_network_replies(n: i64, busy: bool, sent: Sent, got: Received)
    requires
        call_ensures(tap::after_write, (n, busy), sent),
        call_ensures(tap::after_read, (n, busy), got),
    ensures
        sent is Failed <==> n < 0 && !busy,
        got is Failed <==> n < 0 && !busy,
        n > 0 ==> got == Received::Frame(n as usize),
        n <= 0 && !(n < 0 && !busy) ==> got is Nothing,
{
}

/// A display takes four bytes for each pixel; one without pixels is refused.
pub proof fn display_is_sized(g: FbGeometry, r: Result<usize, FbError>, d: bool)
    requires
        call_ensures(framebuffer::mapping_size, (g,), r),
        call_ensures(framebuffer::describable, (g,), d),
    ensures
        g.width * g.height == 0 ==> r is Err && !d,
        g.width * g.height > 0 ==> r == Ok::<usize, FbError>((4 * (g.width * g.height)) as usize),
        g.width * g.height > 0 ==> d == (4 * (g.width * g.height) < 0x1_0000_0000),
{
    assert(g.width * g.height * 4 == 4 * (g.width * g.height)) by (nonlinear_arith);
}

/// A machine as it is made has not started; a step that is legal is taken and told, and any other
/// is refused and changes nothing; what the processors were asked, what a boot handed over and
/// what was sent are kept.
pub proof fn machine_record_calls<D: Device>(
    config: VmConfig,
    b: Bus<D>,
    v: Vm<D>,
    to: VmState,
    r: Result<VmState, IllegalTransition>,
    e: VmEvent,
    handle: RunHandle,
)
    requires
        call_ensures(Vm::<D>::new, (config, b), v),
    ensures
        v@.config == config,
        v@.bus == b,
        v@.state == VmState::Created,
        v@.outbox.len() == 0 && !v@.taken && !v@.stop && v@.running is None,
        forall|s: &mut Vm<D>| #[trigger]
            call_ensures(Vm::<D>::transition, (s, to), r) ==> {
                let legal = (*s)@.state.leads_to(to);
                let n = (*s)@.outbox.len() as int;
                &&& r is Ok <==> legal
                &&& r matches Ok(now) ==> now == to
                &&& r matches Err(x) ==> x.from == (*s)@.state && x.to == to && (*final(s))@ == (*s)@
                &&& legal ==> {
                    &&& (*final(s))@.state == to
                    &&& (*final(s))@.outbox.len() == n + 1
                    &&& (*final(s))@.outbox[n] matches VmEvent::StateChanged(t) && t@ == to.name()
                    &&& (*final(s))@.config == (*s)@.config && (*final(s))@.running
                        == (*s)@.running && (*final(s))@.stop == (*s)@.stop
                }
            },
        forall|s: &mut Vm<D>| #[trigger]
            call_ensures(Vm::<D>::send_event, (s, e), ()) ==> (*final(s))@.outbox
                == (*s)@.outbox.push(e) && (*final(s))@.state == (*s)@.state,
        forall|s: &mut Vm<D>| #[trigger]
            call_ensures(Vm::<D>::request_stop, (s,), ()) ==> (*final(s))@.stop && (*final(s))@.state
                == (*s)@.state && (*final(s))@.outbox == (*s)@.outbox,
        forall|s: &mut Vm<D>| #[trigger]
            call_ensures(Vm::<D>::set_running, (s, handle), ()) ==> (*final(s))@.running == Some(
                handle,
            ) && (*final(s))@.state == (*s)@.state && (*final(s))@.outbox == (*s)@.outbox,
{
}

/// What is asked of a machine's record is what it holds: a machine runs from when a boot handed
/// something over, and shares the display that was handed over with that.
pub proof fn machine_record_answers<D: Device>(
    v: Vm<D>,
    config: &VmConfig,
    b: &Bus<D>,
    running: bool,
    share: Option<FbShare>,
    stop: bool,
    state: VmState,
)
    requires
        call_ensures(Vm::<D>::config, (&v,), config),
        call_ensures(Vm::<D>::bus, (&v,), b),
        call_ensures(Vm::<D>::is_running, (&v,), running),
        call_ensures(Vm::<D>::framebuffer_info, (&v,), share),
        call_ensures(Vm::<D>::stop_flag, (&v,), stop),
        call_ensures(Vm::<D>::current_state, (&v,), state),
    ensures
        *config == v@.config,
        *b == v@.bus,
        running <==> v@.running is Some,
        v@.running is None ==> share is None,
        v@.running matches Some(h) ==> share == h.framebuffer,
        stop == v@.stop,
        state == v@.state,
{
}

/// The holder of the right to a machine's events receives them oldest first, and none of another
/// machine's.
pub proof fn receiving_is_by_right<D: Device>(rx: EventRx, r: Option<VmEvent>)
    ensures
        forall|s: &mut Vm<D>| #[trigger]
            call_ensures(EventRx::recv::<D>, (&rx, s), r) ==> {
                let own = (*s)@.config.id@ == rx.machine();
                &&& !own || (*s)@.outbox.len() == 0 ==> r is None && (*final(s))@ == (*s)@
                &&& own && (*s)@.outbox.len() > 0 ==> (r matches Some(e) && seq![e]
                    + (*final(s))@.outbox == (*s)@.outbox)
            },
{
    assert forall|s: &mut Vm<D>| #[trigger]
        call_ensures(EventRx::recv::<D>, (&rx, s), r) && (*s)@.config.id@ == rx.machine()
            && (*s)@.outbox.len() > 0 implies (r matches Some(e) && seq![e] + (*final(s))@.outbox
        == (*s)@.outbox) by {
        let q = (*s)@.outbox;
        assert(seq![q[0]] + q.skip(1) =~= q);
    }
}

} // verus!
