//! What a client can count on, over one command and over several.

use vstd::prelude::*;

use super::manager;
use super::manager::{Action, BootOutcome, Handled, Manager, ManagerError};
use super::protocol::{Command, ResponseBody, VmEvent};
use crate::devices::device::Device;
use crate::vm::state::VmState;
use crate::vm::vm::{EventRx, RunHandle, Vm, VmView};

verus! {

/// Whether handling a command may take the manager from `m` to `w` and come to `h`.
pub open spec fn handles<D: Device>(
    m: Manager<D>,
    cmd: Command,
    w: Manager<D>,
    h: Handled,
) -> bool {
    manager::handled(m.machines(), m.next(), cmd, w.machines(), w.next(), h)
}

/// Whether hearing what came of booting `id` may take the manager from `m` to `w` and be
/// answered `reply`.
pub open spec fn hears<D: Device>(
    m: Manager<D>,
    id: String,
    outcome: BootOutcome,
    w: Manager<D>,
    reply: Result<ResponseBody, ManagerError>,
) -> bool {
    &&& manager::boot_heard(m.machines(), id, outcome, w.machines(), reply)
    &&& w.next() == m.next()
}

/// What the manager's two calls do is what these laws speak of.
pub proof fn calls_keep_to_laws<D: Device>(
    cmd: Command,
    h: Handled,
    id: String,
    outcome: BootOutcome,
    reply: Result<ResponseBody, ManagerError>,
)
    ensures
        forall|s: &mut Manager<D>| #[trigger]
            call_ensures(Manager::<D>::handle, (s, cmd), h) ==> handles(*s, cmd, *final(s), h),
        forall|s: &mut Manager<D>| #[trigger]
            call_ensures(Manager::<D>::boot_finished, (s, id, outcome), reply) ==> hears(
                *s,
                id,
                outcome,
                *final(s),
                reply,
            ),
{
}

/// Whether the machine numbered `i` is the one called `id`, and no other is.
pub open spec fn named<D>(vms: Seq<Vm<D>>, i: int, id: Seq<char>) -> bool {
    &&& 0 <= i < vms.len()
    &&& vms[i]@.config.id@ == id
    &&& forall|j: int| 0 <= j < vms.len() && (#[trigger] vms[j])@.config.id@ == id ==> j == i
}

/// Whether no machine but the one numbered `i` changed.
pub open spec fn others_same<D>(pre: Seq<Vm<D>>, i: int, post: Seq<Vm<D>>) -> bool {
    &&& post.len() == pre.len()
    &&& forall|j: int| 0 <= j < pre.len() && j != i ==> (#[trigger] post[j]) == pre[j]
}

/// Whether between `v` and `w` a machine went into a state called `name`, sent one event that
/// says so, and is otherwise what it was.
pub open spec fn went<D>(v: VmView<D>, to: VmState, name: Seq<char>, w: VmView<D>) -> bool {
    &&& w.state == to
    &&& w.outbox.len() == v.outbox.len() + 1
    &&& forall|j: int| 0 <= j < v.outbox.len() ==> w.outbox[j] == v.outbox[j]
    &&& w.outbox[v.outbox.len() as int] matches VmEvent::StateChanged(s) && s@ == name
    &&& w.config == v.config
    &&& w.bus == v.bus
    &&& w.taken == v.taken
    &&& w.stop == v.stop
    &&& w.running == v.running
}

/// Whether a command succeeded with nothing to tell.
pub open spec fn done(h: Handled) -> bool {
    h.reply matches Some(Ok(ResponseBody::Done))
}

/// Whether a command was refused as an illegal step between the states called `from` and `to`.
pub open spec fn refused(h: Handled, from: Seq<char>, to: Seq<char>) -> bool {
    h.reply matches Some(Err(ManagerError::Transition(t))) && t@
        == "illegal VM state transition: "@ + from + " -> "@ + to
}

/// A machine that alone has its name is the one that is found.
proof fn named_is_found<D>(vms: Seq<Vm<D>>, i: int, id: Seq<char>)
    requires
        named(vms, i, id),
    ensures
        manager::find(vms, id) == Some(i),
{
    manager::find_law(vms, id);
    assert(vms[i]@.config.id@ == id);
}

/// A manager starts with no machine, and its names with number one.
pub proof fn manager_starts_empty<D: Device>(m: Manager<D>)
    requires
        call_ensures(Manager::<D>::new, (), m),
    ensures
        m.machines().len() == 0,
        m.next() == 1,
        manager::ids_sound(m.machines(), m.next()),
        forall|w: Manager<D>, r: bool| #[trigger]
            call_ensures(Manager::<D>::has_number, (&w,), r) ==> (r <==> w.next() < u64::MAX),
{
}

/// Creating a machine adds one, made of what the client gave, and tells the client its name,
/// which no other machine has. It has not started, and every other machine is as it was.
pub proof fn creation_keeps_what_was_given<D: Device>(
    m: Manager<D>,
    cmd: Command,
    w: Manager<D>,
    h: Handled,
)
    requires
        manager::ids_sound(m.machines(), m.next()),
        cmd is CreateVm,
        handles(m, cmd, w, h),
    ensures
        w.machines().len() == m.machines().len() + 1,
        forall|j: int|
            0 <= j < m.machines().len() ==> (#[trigger] w.machines()[j]) == m.machines()[j],
        w.next() == m.next() + 1,
        h.action is Nothing,
        h.reply matches Some(Ok(ResponseBody::Created { id })) && id@ == "vm-"@
            + crate::text::numeral(m.next() as nat, 10) && named(
            w.machines(),
            m.machines().len() as int,
            id@,
        ),
        cmd matches Command::CreateVm {
            name,
            memory_mb,
            vcpus,
            kernel,
            cmdline,
            disk,
            initrd,
            framebuffer,
        } ==> {
            let v = w.machines()[m.machines().len() as int]@;
            &&& v.state == VmState::Created
            &&& v.config.name == name
            &&& v.config.memory_mb == memory_mb
            &&& v.config.vcpus == vcpus
            &&& v.config.kernel == kernel
            &&& cmdline matches Some(c) ==> v.config.cmdline@ == c@
            &&& cmdline is None ==> v.config.cmdline@ == "console=ttyS0"@
            &&& v.config.disk == disk
            &&& v.config.initrd == initrd
            &&& v.config.framebuffer == framebuffer
            &&& v.outbox.len() == 0
            &&& v.running is None
            &&& !v.taken
            &&& !v.stop
        },
{
    let (pre, post) = (m.machines(), w.machines());
    manager::handling_keeps_names(pre, m.next(), cmd, post, w.next(), h);
    assert forall|j: int| 0 <= j < pre.len() implies (#[trigger] post[j]) == pre[j] by {
        assert(post.drop_last()[j] == post[j]);
    }
    let last = pre.len() as int;
    assert(post.last() == post[last]);
    assert forall|j: int|
        0 <= j < post.len() && (#[trigger] post[j])@.config.id@ == post[last]@.config.id@ implies j
        == last by {}
}

/// Creating a machine and then starting it asks for a boot with what the client gave: that
/// kernel, disk, initrd, memory and display, and that command line or the usual one.
pub proof fn created_machine_boots_as_given<D: Device>(
    m: Manager<D>,
    cmd: Command,
    mid: Manager<D>,
    h: Handled,
    id: String,
    w: Manager<D>,
    g: Handled,
)
    requires
        manager::ids_sound(m.machines(), m.next()),
        cmd matches Command::CreateVm { kernel, .. } && kernel is Some,
        handles(m, cmd, mid, h),
        h.reply matches Some(Ok(ResponseBody::Created { id: told })) && told@ == id@,
        handles(mid, Command::StartVm { id }, w, g),
    ensures
        g.reply is None,
        g.action matches Action::Boot(req) && cmd matches Command::CreateVm {
            name: _,
            memory_mb,
            vcpus: _,
            kernel,
            cmdline,
            disk,
            initrd,
            framebuffer,
        } && {
            &&& req.id@ == id@
            &&& kernel == Some(req.kernel)
            &&& req.disk == disk
            &&& req.initrd == initrd
            &&& req.memory_mb == memory_mb
            &&& cmdline matches Some(c) ==> req.cmdline@ == c@
            &&& cmdline is None ==> req.cmdline@ == "console=ttyS0"@
            &&& framebuffer matches Some((a, b)) ==> (req.framebuffer matches Some(f) && f.width
                == a && f.height == b)
            &&& framebuffer is None ==> req.framebuffer is None
        },
        others_same(mid.machines(), m.machines().len() as int, w.machines()),
        went(
            mid.machines()[m.machines().len() as int]@,
            VmState::Booting,
            "Booting"@,
            w.machines()[m.machines().len() as int]@,
        ),
{
    creation_keeps_what_was_given(m, cmd, mid, h);
    starting(mid, m.machines().len() as int, id, w, g);
}

/// Starting a machine that was created and has a kernel asks for a boot of that machine as it
/// is made; one without a kernel runs at once and says so; and any other machine is refused,
/// and stays as it is.
pub proof fn starting<D: Device>(m: Manager<D>, i: int, id: String, w: Manager<D>, h: Handled)
    requires
        named(m.machines(), i, id@),
        handles(m, Command::StartVm { id }, w, h),
    ensures
        others_same(m.machines(), i, w.machines()),
        w.next() == m.next(),
        ({
            let v = m.machines()[i]@;
            let x = w.machines()[i]@;
            if v.state != VmState::Created {
                &&& x == v
                &&& h.action is Nothing
                &&& refused(h, v.state.name(), "Booting"@)
            } else if v.config.kernel is Some {
                &&& went(v, VmState::Booting, "Booting"@, x)
                &&& h.reply is None
                &&& h.action matches Action::Boot(req) && {
                    &&& req.id@ == id@
                    &&& v.config.kernel == Some(req.kernel)
                    &&& req.disk == v.config.disk
                    &&& req.initrd == v.config.initrd
                    &&& req.memory_mb == v.config.memory_mb
                    &&& req.cmdline@ == v.config.cmdline@
                    &&& v.config.framebuffer matches Some((a, b)) ==> (
                    req.framebuffer matches Some(f) && f.width == a && f.height == b)
                    &&& v.config.framebuffer is None ==> req.framebuffer is None
                }
            } else {
                let n = v.outbox.len() as int;
                &&& x.state == VmState::Running
                &&& x.config == v.config
                &&& x.running == v.running
                &&& x.stop == v.stop
                &&& x.outbox.len() == n + 3
                &&& forall|j: int| 0 <= j < n ==> x.outbox[j] == v.outbox[j]
                &&& x.outbox[n] matches VmEvent::StateChanged(s) && s@ == "Booting"@
                &&& x.outbox[n + 1] matches VmEvent::StateChanged(s) && s@ == "Running"@
                &&& x.outbox[n + 2] matches VmEvent::SerialOutput(b) && b@
                    == vstd::utf8::encode_utf8(
                    "[vmm-daemon] VM started with no kernel configured (idle)\r\n"@,
                )
                &&& h.action is Nothing
                &&& done(h)
            }
        }),
{
    named_is_found(m.machines(), i, id@);
    let v = m.machines()[i]@;
    let x = w.machines()[i]@;
    if v.state == VmState::Created {
        if v.config.kernel is Some {
            assert forall|j: int| 0 <= j < v.outbox.len() implies x.outbox[j] == v.outbox[j] by {
                assert(x.outbox.drop_last()[j] == x.outbox[j]);
            }
        } else {
            assert forall|j: int| 0 <= j < v.outbox.len() implies x.outbox[j] == v.outbox[j] by {
                assert(x.outbox.take(v.outbox.len() as int)[j] == x.outbox[j]);
            }
        }
    }
}

/// A machine that runs can be paused, and one that is paused can be resumed: each says so and
/// stays what it is otherwise. Any other machine is refused, and stays as it is.
pub proof fn pausing_and_resuming<D: Device>(
    m: Manager<D>,
    i: int,
    id: String,
    pause: bool,
    w: Manager<D>,
    h: Handled,
)
    requires
        named(m.machines(), i, id@),
        pause ==> handles(m, Command::PauseVm { id }, w, h),
        !pause ==> handles(m, Command::ResumeVm { id }, w, h),
    ensures
        others_same(m.machines(), i, w.machines()),
        w.next() == m.next(),
        h.action is Nothing,
        ({
            let v = m.machines()[i]@;
            let x = w.machines()[i]@;
            if pause && v.state == VmState::Running {
                went(v, VmState::Paused, "Paused"@, x) && done(h)
            } else if pause {
                x == v && refused(h, v.state.name(), "Paused"@)
            } else if v.state == VmState::Paused || v.state == VmState::Booting {
                went(v, VmState::Running, "Running"@, x) && done(h)
            } else {
                x == v && refused(h, v.state.name(), "Running"@)
            }
        }),
{
    named_is_found(m.machines(), i, id@);
    let v = m.machines()[i]@;
    let x = w.machines()[i]@;
    if pause {
        } else {
        }
    if x.outbox.len() == v.outbox.len() + 1 {
        assert forall|j: int| 0 <= j < v.outbox.len() implies x.outbox[j] == v.outbox[j] by {
            assert(x.outbox.drop_last()[j] == x.outbox[j]);
        }
    }
}

/// Stopping a machine asks for its processors to stop, whatever its state; one that was
/// started is then stopped and says so, and any other is refused.
pub proof fn stopping<D: Device>(m: Manager<D>, i: int, id: String, w: Manager<D>, h: Handled)
    requires
        named(m.machines(), i, id@),
        handles(m, Command::StopVm { id }, w, h),
    ensures
        others_same(m.machines(), i, w.machines()),
        w.next() == m.next(),
        h.action matches Action::Stop(s) && s@ == id@,
        w.machines()[i]@.stop,
        ({
            let v = m.machines()[i]@;
            let x = w.machines()[i]@;
            if v.state == VmState::Booting || v.state == VmState::Running || v.state
                == VmState::Paused {
                went(VmView { stop: true, ..v }, VmState::Stopped, "Stopped"@, x) && done(h)
            } else {
                x == (VmView { stop: true, ..v }) && refused(h, v.state.name(), "Stopped"@)
            }
        }),
{
    named_is_found(m.machines(), i, id@);
    let v = m.machines()[i]@;
    let x = w.machines()[i]@;
    if x.outbox.len() == v.outbox.len() + 1 {
        assert forall|j: int| 0 <= j < v.outbox.len() implies x.outbox[j] == v.outbox[j] by {
            assert(x.outbox.drop_last()[j] == x.outbox[j]);
        }
    }
}

/// A list tells of every machine, in the order of their creation, its name, what it is called,
/// its state, its memory and its processors; listing changes nothing.
pub proof fn listing<D: Device>(m: Manager<D>, w: Manager<D>, h: Handled, i: int)
    requires
        handles(m, Command::ListVms, w, h),
        0 <= i < m.machines().len(),
    ensures
        w.machines() == m.machines(),
        w.next() == m.next(),
        h.action is Nothing,
        h.reply matches Some(Ok(ResponseBody::VmList { vms })) && {
            let v = m.machines()[i]@;
            &&& vms@.len() == m.machines().len()
            &&& vms@[i].id@ == v.config.id@
            &&& vms@[i].name@ == v.config.name@
            &&& vms@[i].memory_mb == v.config.memory_mb
            &&& vms@[i].vcpus == v.config.vcpus
            &&& v.state == VmState::Created ==> vms@[i].state@ == "Created"@
            &&& v.state == VmState::Booting ==> vms@[i].state@ == "Booting"@
            &&& v.state == VmState::Running ==> vms@[i].state@ == "Running"@
            &&& v.state == VmState::Paused ==> vms@[i].state@ == "Paused"@
            &&& v.state == VmState::Stopped ==> vms@[i].state@ == "Stopped"@
        },
{
    if let Some(Ok(ResponseBody::VmList { vms })) = h.reply {
        assert(manager::describes(m.machines()[i]@, vms@[i]));
    }
}

/// Keystrokes go to the machine that they were sent to, all of them and as they are, once it
/// booted; to one that did not boot nothing goes. Either way the client hears that it is done.
pub proof fn keystrokes_reach_machine<D: Device>(
    m: Manager<D>,
    i: int,
    id: String,
    data: Vec<u8>,
    w: Manager<D>,
    h: Handled,
)
    requires
        named(m.machines(), i, id@),
        handles(m, Command::SendSerialInput { id, data }, w, h),
    ensures
        w.machines() == m.machines(),
        w.next() == m.next(),
        done(h),
        m.machines()[i]@.running is Some ==> (h.action matches Action::Feed(a, b) && a@ == id@
            && b@ == data@),
        m.machines()[i]@.running is None ==> h.action is Nothing,
{
    named_is_found(m.machines(), i, id@);
}

/// A command for a machine that is not there is answered so, with the name that was asked for,
/// and changes nothing.
pub proof fn unknown_names_change_nothing<D: Device>(
    m: Manager<D>,
    cmd: Command,
    id: String,
    w: Manager<D>,
    h: Handled,
)
    requires
        forall|j: int|
            0 <= j < m.machines().len() ==> (#[trigger] m.machines()[j])@.config.id@ != id@,
        handles(m, cmd, w, h),
        match cmd {
            Command::StartVm { id: a } => a == id,
            Command::StopVm { id: a } => a == id,
            Command::PauseVm { id: a } => a == id,
            Command::ResumeVm { id: a } => a == id,
            Command::SendSerialInput { id: a, data: _ } => a == id,
            Command::RequestFramebuffer { id: a } => a == id,
            _ => false,
        },
    ensures
        w.machines() == m.machines(),
        w.next() == m.next(),
        h.action is Nothing,
        h.reply matches Some(Err(ManagerError::NotFound(t))) && t@ == id@,
{
    manager::find_law(m.machines(), id@);
}

/// Asking for events changes no machine and is done.
pub proof fn subscribing<D: Device>(m: Manager<D>, w: Manager<D>, h: Handled)
    requires
        handles(m, Command::Subscribe, w, h),
    ensures
        w.machines() == m.machines(),
        w.next() == m.next(),
        h.action is Nothing,
        done(h),
{
}

/// A machine that booted runs, says so, and keeps what the boot handed over; its display is
/// then told to whoever asks, as the boot gave it. One that did not boot stays where it is, and
/// the client hears why.
pub proof fn boot_is_heard<D: Device>(
    m: Manager<D>,
    i: int,
    id: String,
    outcome: BootOutcome,
    w: Manager<D>,
    reply: Result<ResponseBody, ManagerError>,
)
    requires
        named(m.machines(), i, id@),
        hears(m, id, outcome, w, reply),
    ensures
        w.next() == m.next(),
        others_same(m.machines(), i, w.machines()),
        match outcome {
            BootOutcome::Started(handle) => {
                let v = VmView { running: Some(handle), ..m.machines()[i]@ };
                let x = w.machines()[i]@;
                if v.state == VmState::Booting || v.state == VmState::Paused {
                    &&& went(v, VmState::Running, "Running"@, x)
                    &&& reply matches Ok(ResponseBody::Done)
                } else {
                    &&& x == v
                    &&& reply matches Err(ManagerError::Transition(t)) && t@
                        == "illegal VM state transition: "@ + v.state.name() + " -> "@
                        + "Running"@
                }
            },
            BootOutcome::Failed(e) => {
                &&& w.machines() == m.machines()
                &&& reply matches Err(ManagerError::Op(t)) && t@ == "boot failed: "@ + e@
            },
            BootOutcome::Lost(e) => {
                &&& w.machines() == m.machines()
                &&& reply matches Err(ManagerError::Op(t)) && t@ == "boot task join: "@ + e@
            },
        },
{
    named_is_found(m.machines(), i, id@);
    assert(manager::boot_heard(m.machines(), id, outcome, w.machines(), reply));
    if let BootOutcome::Started(handle) = outcome {
        let v = m.machines()[i]@;
        let x = w.machines()[i]@;
        if x.outbox.len() == v.outbox.len() + 1 {
            assert forall|j: int| 0 <= j < v.outbox.len() implies x.outbox[j] == v.outbox[j] by {
                assert(x.outbox.drop_last()[j] == x.outbox[j]);
            }
        }
    }
}

/// The display that a boot handed over is the one that a viewer hears of and whose file
/// descriptor it gets; where there is none it gets nothing, and hears that.
pub proof fn display_is_shared<D: Device>(
    m: Manager<D>,
    i: int,
    id: String,
    w: Manager<D>,
    h: Handled,
    fd: Option<i32>,
)
    requires
        named(m.machines(), i, id@),
        handles(m, Command::RequestFramebuffer { id }, w, h),
        call_ensures(Manager::<D>::framebuffer_fd, (&m, &id), fd),
    ensures
        w.machines() == m.machines(),
        w.next() == m.next(),
        h.action is Nothing,
        match m.machines()[i]@.running {
            Some(RunHandle { framebuffer: Some(fb) }) => {
                &&& fd == Some(fb.fd)
                &&& h.reply matches Some(
                    Ok(ResponseBody::FramebufferIncoming { width, height, size }),
                ) && width == fb.width && height == fb.height && size == fb.size
            },
            _ => {
                &&& fd is None
                &&& h.reply matches Some(Err(ManagerError::Op(t))) && t@
                    == "no framebuffer for this VM"@
            },
        },
{
    named_is_found(m.machines(), i, id@);
}

/// The right to a machine's events is given to the first who asks, and to no one after.
pub proof fn events_have_one_receiver<D: Device>(m: Manager<D>, i: int, id: String)
    requires
        named(m.machines(), i, id@),
    ensures
        forall|s: &mut Manager<D>, r: Option<EventRx>|
            *s == m && #[trigger] call_ensures(Manager::<D>::take_event_rx, (s, &id), r) ==> {
                let w = *final(s);
                &&& r is Some <==> !m.machines()[i]@.taken
                &&& r matches Some(rx) ==> rx.machine() == id@
                &&& w.machines()[i]@.taken
                &&& others_same(m.machines(), i, w.machines())
            },
{
    named_is_found(m.machines(), i, id@);
}

/// Events come out one by one, oldest first, to the holder of the right to them.
pub proof fn events_come_in_order<D: Device>(
    m: Manager<D>,
    i: int,
    rx: EventRx,
)
    requires
        named(m.machines(), i, rx.machine()),
    ensures
        forall|s: &mut Manager<D>, r: Option<VmEvent>|
            *s == m && #[trigger] call_ensures(Manager::<D>::next_event, (s, &rx), r) ==> {
                let v = m.machines()[i]@;
                let x = (*final(s)).machines()[i]@;
                &&& others_same(m.machines(), i, (*final(s)).machines())
                &&& x.state == v.state && x.config == v.config && x.running == v.running
                &&& v.outbox.len() == 0 ==> r is None && x.outbox.len() == 0
                &&& v.outbox.len() > 0 ==> (r matches Some(e) && seq![e] + x.outbox == v.outbox)
            },
{
    named_is_found(m.machines(), i, rx.machine());
    let v = m.machines()[i]@;
    assert(v.outbox.len() > 0 ==> seq![v.outbox[0]] + v.outbox.skip(1) =~= v.outbox);
}

} // verus!
