//! The owner of all machines: what each command does to them and what it is answered.
//!
//! What reaches outside the daemon's memory (booting a machine, feeding its serial port,
//! stopping its processors) is named as an action for the caller to perform.

use vstd::prelude::*;

use super::protocol::{Command, ResponseBody, VmEvent, VmInfo};
use crate::devices::bus::Bus;
use crate::devices::device::Device;
use crate::devices::fb::FbGeometry;
use crate::text;
use crate::vm::state::{IllegalTransition, VmState};
use crate::vm::vm;
use crate::vm::vm::{EventRx, FbShare, RunHandle, Vm, VmConfig, VmView};

verus! {

/// The command line of a machine that was given none.
pub const DEFAULT_CMDLINE: &'static str = "console=ttyS0";

/// An event and the machine that it came from.
#[derive(Debug, Clone)]
pub struct TaggedEvent {
    pub vm_id: String,
    pub event: VmEvent,
}

/// Why a command failed.
#[derive(Debug)]
pub enum ManagerError {
    NotFound(String),
    Transition(String),
    Op(String),
}

impl ManagerError {
    /// The error in words.
    pub open spec fn words(self) -> Seq<char> {
        match self {
            ManagerError::NotFound(e) => "no such VM: "@ + e@,
            ManagerError::Transition(e) => "illegal transition: "@ + e@,
            ManagerError::Op(e) => "VM operation failed: "@ + e@,
        }
    }

    /// The error in words.
    pub fn message(&self) -> (r: String)
        ensures
            r@ == self.words(),
    {
        match self {
            ManagerError::NotFound(e) => text::join2("no such VM: ", e.as_str()),
            ManagerError::Transition(e) => text::join2("illegal transition: ", e.as_str()),
            ManagerError::Op(e) => text::join2("VM operation failed: ", e.as_str()),
        }
    }
}

/// What a machine is booted with.
#[derive(Debug)]
pub struct BootRequest {
    pub id: String,
    pub kernel: String,
    pub cmdline: String,
    pub memory_mb: u64,
    pub initrd: Option<String>,
    pub disk: Option<String>,
    pub framebuffer: Option<FbGeometry>,
}

/// What a command asks of the caller.
#[derive(Debug)]
pub enum Action {
    Nothing,
    /// Boot this machine, and say what came of it.
    Boot(BootRequest),
    /// Stop the processors of this machine.
    Stop(String),
    /// Feed this to the serial port of this machine.
    Feed(String, Vec<u8>),
}

/// What a command comes to. There is no answer yet where a machine is to be booted.
#[derive(Debug)]
pub struct Handled {
    pub reply: Option<Result<ResponseBody, ManagerError>>,
    pub action: Action,
}

/// What came of booting a machine.
#[derive(Debug)]
pub enum BootOutcome {
    Started(RunHandle),
    /// It did not boot, for this reason.
    Failed(String),
    /// The attempt itself was lost, for this reason.
    Lost(String),
}

/// The name of the machine numbered `n`.
pub open spec fn vm_id(n: nat) -> Seq<char> {
    "vm-"@ + text::dec(n)
}

/// What a machine says that was started without a kernel.
pub open spec fn idle_line() -> Seq<u8> {
    vstd::utf8::encode_utf8("[vmm-daemon] VM started with no kernel configured (idle)\r\n"@)
}

/// The machine of that name.
pub open spec fn find<D>(vms: Seq<Vm<D>>, id: Seq<char>) -> Option<int>
    decreases vms.len(),
{
    if vms.len() == 0 {
        None
    } else {
        match find(vms.drop_last(), id) {
            Some(i) => Some(i),
            None => if vms.last()@.config.id@ == id {
                Some(vms.len() - 1)
            } else {
                None
            },
        }
    }
}

/// Whether names are unlike each other, and of numbers that were given out.
pub open spec fn ids_sound<D>(vms: Seq<Vm<D>>, next: u64) -> bool {
    &&& forall|i: int, j: int|
        0 <= i < j < vms.len() ==> (#[trigger] vms[i])@.config.id@ != (#[trigger]
        vms[j])@.config.id@
    &&& forall|i: int|
        0 <= i < vms.len() ==> exists|k: nat|
            k < next && (#[trigger] vms[i])@.config.id@ == #[trigger] vm_id(k)
}

/// Whether `info` describes the machine `v`.
pub open spec fn describes<D>(v: VmView<D>, info: VmInfo) -> bool {
    &&& info.id@ == v.config.id@
    &&& info.name@ == v.config.name@
    &&& info.state@ == v.state.name()
    &&& info.memory_mb == v.config.memory_mb
    &&& info.vcpus == v.config.vcpus
}

/// Whether `req` asks to boot the machine of `c`.
pub open spec fn boots(c: VmConfig, req: BootRequest) -> bool {
    &&& req.id@ == c.id@
    &&& c.kernel == Some(req.kernel)
    &&& req.cmdline == c.cmdline
    &&& req.memory_mb == c.memory_mb
    &&& req.initrd == c.initrd
    &&& req.disk == c.disk
    &&& req.framebuffer == match c.framebuffer {
        Some((width, height)) => Some(FbGeometry { width, height }),
        None => None,
    }
}

/// Whether only the machine numbered `i` may differ between the two lists.
pub open spec fn only<D>(pre: Seq<Vm<D>>, i: int, post: Seq<Vm<D>>) -> bool {
    post == pre.update(i, post[i])
}

/// Whether `reply` is that of a machine in state `from` being asked for the state `to`.
pub open spec fn transition_reply(
    from: VmState,
    to: VmState,
    reply: Result<ResponseBody, ManagerError>,
) -> bool {
    if from.leads_to(to) {
        reply == Ok::<ResponseBody, ManagerError>(ResponseBody::Done)
    } else {
        reply matches Err(ManagerError::Transition(t)) && t@ == (IllegalTransition {
            from,
            to,
        }).words()
    }
}

/// Whether starting a machine without a kernel may take it from `v` to `w`: it boots and runs
/// at once, and says that it is idle.
pub open spec fn started_idle<D>(v: VmView<D>, w: VmView<D>) -> bool {
    &&& w.outbox.len() == v.outbox.len() + 3
    &&& w.outbox.take(v.outbox.len() as int) == v.outbox
    &&& vm::is_change(w.outbox[v.outbox.len() as int], VmState::Booting)
    &&& vm::is_change(w.outbox[v.outbox.len() as int + 1], VmState::Running)
    &&& w.outbox[v.outbox.len() as int + 2] matches VmEvent::SerialOutput(b) && b@ == idle_line()
    &&& w == (VmView { state: VmState::Running, outbox: w.outbox, ..v })
}

/// Whether starting the machine numbered `i` may take the machines from `pre` to `post`.
pub open spec fn started<D>(pre: Seq<Vm<D>>, i: int, post: Seq<Vm<D>>, h: Handled) -> bool {
    let v = pre[i]@;
    &&& only(pre, i, post)
    &&& if !v.state.leads_to(VmState::Booting) {
        &&& post[i]@ == v
        &&& h.action is Nothing
        &&& h.reply is Some
        &&& transition_reply(v.state, VmState::Booting, h.reply->0)
    } else if v.config.kernel is Some {
        &&& vm::transitioned(v, VmState::Booting, post[i]@)
        &&& h.reply is None
        &&& h.action matches Action::Boot(req) && boots(v.config, req)
    } else {
        &&& started_idle(v, post[i]@)
        &&& h.action is Nothing
        &&& h.reply == Some(Ok::<ResponseBody, ManagerError>(ResponseBody::Done))
    }
}

/// Whether asking the machine numbered `i` for the state `to` may take the machines from `pre`
/// to `post`.
pub open spec fn moved<D>(
    pre: Seq<Vm<D>>,
    i: int,
    to: VmState,
    post: Seq<Vm<D>>,
    h: Handled,
) -> bool {
    &&& only(pre, i, post)
    &&& vm::transitioned(pre[i]@, to, post[i]@)
    &&& h.action is Nothing
    &&& h.reply is Some
    &&& transition_reply(pre[i]@.state, to, h.reply->0)
}

/// Whether stopping the machine numbered `i` may take the machines from `pre` to `post`: its
/// processors are asked to stop in any state, and it is then asked to be stopped.
pub open spec fn stopped<D>(
    pre: Seq<Vm<D>>,
    i: int,
    id: String,
    post: Seq<Vm<D>>,
    h: Handled,
) -> bool {
    let asked = VmView { stop: true, ..pre[i]@ };
    &&& only(pre, i, post)
    &&& vm::transitioned(asked, VmState::Stopped, post[i]@)
    &&& h.action == Action::Stop(id)
    &&& h.reply is Some
    &&& transition_reply(pre[i]@.state, VmState::Stopped, h.reply->0)
}

/// Whether a command for the machine `id` found none, and nothing changed.
pub open spec fn missing<D>(pre: Seq<Vm<D>>, id: String, post: Seq<Vm<D>>, h: Handled) -> bool {
    &&& post == pre
    &&& h.action is Nothing
    &&& h.reply == Some(Err::<ResponseBody, ManagerError>(ManagerError::NotFound(id)))
}

/// Whether a machine made of these parts was added under the next name.
pub open spec fn created<D>(
    pre: Seq<Vm<D>>,
    n: u64,
    cmd: Command,
    post: Seq<Vm<D>>,
    h: Handled,
) -> bool {
    &&& cmd matches Command::CreateVm {
        name,
        memory_mb,
        vcpus,
        kernel,
        cmdline,
        disk,
        initrd,
        framebuffer,
    } && {
        let v = post.last()@;
        &&& post.len() == pre.len() + 1
        &&& post.drop_last() == pre
        &&& v.config.id@ == vm_id(n as nat)
        &&& v.config.name == name
        &&& v.config.memory_mb == memory_mb
        &&& v.config.vcpus == vcpus
        &&& v.config.kernel == kernel
        &&& match cmdline {
            Some(c) => v.config.cmdline == c,
            None => v.config.cmdline@ == DEFAULT_CMDLINE@,
        }
        &&& v.config.disk == disk
        &&& v.config.initrd == initrd
        &&& v.config.framebuffer == framebuffer
        &&& v.state == VmState::Created
        &&& v.outbox.len() == 0
        &&& !v.taken
        &&& !v.stop
        &&& v.running is None
        &&& v.bus.mmio().len() == 0
        &&& v.bus.pio().len() == 0
        &&& h.action is Nothing
        &&& h.reply matches Some(Ok(ResponseBody::Created { id })) && id@ == vm_id(n as nat)
    }
}

/// Whether a command may take the machines from `pre`, with `n` the next number, to `post` and
/// `k`, and come to `h`.
pub open spec fn handled<D>(
    pre: Seq<Vm<D>>,
    n: u64,
    cmd: Command,
    post: Seq<Vm<D>>,
    k: u64,
    h: Handled,
) -> bool {
    &&& k == if cmd is CreateVm {
        n + 1
    } else {
        n as int
    }
    &&& match cmd {
        Command::CreateVm { .. } => created(pre, n, cmd, post, h),
        Command::StartVm { id } => match find(pre, id@) {
            None => missing(pre, id, post, h),
            Some(i) => started(pre, i, post, h),
        },
        Command::StopVm { id } => match find(pre, id@) {
            None => missing(pre, id, post, h),
            Some(i) => stopped(pre, i, id, post, h),
        },
        Command::PauseVm { id } => match find(pre, id@) {
            None => missing(pre, id, post, h),
            Some(i) => moved(pre, i, VmState::Paused, post, h),
        },
        Command::ResumeVm { id } => match find(pre, id@) {
            None => missing(pre, id, post, h),
            Some(i) => moved(pre, i, VmState::Running, post, h),
        },
        Command::ListVms => {
            &&& post == pre
            &&& h.action is Nothing
            &&& h.reply matches Some(Ok(ResponseBody::VmList { vms })) && vms@.len() == pre.len()
                && forall|i: int| 0 <= i < pre.len() ==> describes(pre[i]@, #[trigger] vms@[i])
        },
        Command::SendSerialInput { id, data } => match find(pre, id@) {
            None => missing(pre, id, post, h),
            Some(i) => {
                &&& post == pre
                &&& h.reply == Some(Ok::<ResponseBody, ManagerError>(ResponseBody::Done))
                &&& h.action == if pre[i]@.running is Some {
                    Action::Feed(id, data)
                } else {
                    Action::Nothing
                }
            },
        },
        Command::RequestFramebuffer { id } => match find(pre, id@) {
            None => missing(pre, id, post, h),
            Some(i) => {
                &&& post == pre
                &&& h.action is Nothing
                &&& match share_of(pre[i]@) {
                    Some(fb) => h.reply == Some(
                        Ok::<ResponseBody, ManagerError>(
                            ResponseBody::FramebufferIncoming {
                                width: fb.width,
                                height: fb.height,
                                size: fb.size as u64,
                            },
                        ),
                    ),
                    None => h.reply matches Some(Err(ManagerError::Op(t))) && t@
                        == "no framebuffer for this VM"@,
                }
            },
        },
        Command::Subscribe => {
            &&& post == pre
            &&& h.action is Nothing
            &&& h.reply == Some(Ok::<ResponseBody, ManagerError>(ResponseBody::Done))
        },
    }
}

/// The framebuffer of a machine that booted with one.
pub open spec fn share_of<D>(v: VmView<D>) -> Option<FbShare> {
    match v.running {
        Some(h) => h.framebuffer,
        None => None,
    }
}

/// Whether hearing what came of booting the machine `id` may take the machines from `pre` to
/// `post` and be answered `reply`. One that started runs, unless it was stopped meanwhile; one
/// that did not start stays where it is.
pub open spec fn boot_heard<D>(
    pre: Seq<Vm<D>>,
    id: String,
    outcome: BootOutcome,
    post: Seq<Vm<D>>,
    reply: Result<ResponseBody, ManagerError>,
) -> bool {
    match find(pre, id@) {
        None => post == pre && reply == Err::<ResponseBody, ManagerError>(
            ManagerError::NotFound(id),
        ),
        Some(i) => match outcome {
            BootOutcome::Started(handle) => {
                &&& only(pre, i, post)
                &&& vm::transitioned(
                    VmView { running: Some(handle), ..pre[i]@ },
                    VmState::Running,
                    post[i]@,
                )
                &&& transition_reply(pre[i]@.state, VmState::Running, reply)
            },
            BootOutcome::Failed(e) => {
                &&& post == pre
                &&& reply matches Err(ManagerError::Op(t)) && t@ == "boot failed: "@ + e@
            },
            BootOutcome::Lost(e) => {
                &&& post == pre
                &&& reply matches Err(ManagerError::Op(t)) && t@ == "boot task join: "@ + e@
            },
        },
    }
}

/// A text that may be there, once more.
fn copy_text(s: &Option<String>) -> (r: Option<String>)
    ensures
        r == *s,
{
    match s {
        Some(t) => Some(t.clone()),
        None => None,
    }
}

/// The answer to a machine that was asked for a state.
fn reply_to(r: Result<VmState, IllegalTransition>) -> (reply: Result<ResponseBody, ManagerError>)
    ensures
        match r {
            Ok(_) => reply == Ok::<ResponseBody, ManagerError>(ResponseBody::Done),
            Err(e) => reply matches Err(ManagerError::Transition(t)) && t@ == e.words(),
        },
{
    match r {
        Ok(_) => Ok(ResponseBody::Done),
        Err(e) => Err(ManagerError::Transition(e.message())),
    }
}

/// All machines.
pub struct Manager<D> {
    vms: Vec<Vm<D>>,
    next_id: u64,
}

impl<D: Device> Manager<D> {
    /// The machines, in the order of their creation.
    pub closed spec fn machines(&self) -> Seq<Vm<D>> {
        self.vms@
    }

    /// The number of the next machine.
    pub closed spec fn next(&self) -> u64 {
        self.next_id
    }

    /// No machines; the first is number one.
    pub fn new() -> (r: Self)
        ensures
            r.machines() == Seq::<Vm<D>>::empty(),
            r.next() == 1,
    {
        Manager { vms: Vec::new(), next_id: 1 }
    }

    /// Whether there is a number left for another machine.
    pub fn has_number(&self) -> (r: bool)
        ensures
            r == (self.next() < u64::MAX),
    {
        self.next_id < u64::MAX
    }

    /// Gives out the next name.
    fn alloc_id(&mut self) -> (r: String)
        requires
            old(self).next() < u64::MAX,
        ensures
            r@ == vm_id(old(self).next() as nat),
            final(self).next() == old(self).next() + 1,
            final(self).machines() == old(self).machines(),
    {
        let n = text::dec_text(self.next_id);
        let id = text::join2("vm-", n.as_str());
        self.next_id = self.next_id + 1;
        id
    }

    /// The machine of that name.
    fn get(&self, id: &String) -> (r: Option<usize>)
        ensures
            match r {
                Some(i) => find(self.machines(), id@) == Some(i as int) && i
                    < self.machines().len(),
                None => find(self.machines(), id@) is None,
            },
    {
        let mut i: usize = 0;
        while i < self.vms.len()
            invariant
                i <= self.vms@.len(),
                find(self.vms@.take(i as int), id@) is None,
            decreases self.vms@.len() - i,
        {
            assert(self.vms@.take(i + 1).drop_last() =~= self.vms@.take(i as int));
            if self.vms[i].config().id == *id {
                proof {
                    find_prefix(self.vms@, id@, i + 1);
                }
                return Some(i);
            }
            i += 1;
        }
        assert(self.vms@.take(self.vms@.len() as int) =~= self.vms@);
        None
    }

    /// Adds a machine.
    fn create(&mut self, cmd: Command) -> (h: Handled)
        requires
            cmd is CreateVm,
            old(self).next() < u64::MAX,
        ensures
            handled(
                old(self).machines(),
                old(self).next(),
                cmd,
                final(self).machines(),
                final(self).next(),
                h,
            ),
    {
        if let Command::CreateVm {
            name,
            memory_mb,
            vcpus,
            kernel,
            cmdline,
            disk,
            initrd,
            framebuffer,
        } = cmd {
            let ghost pre = self.vms@;
            let id = self.alloc_id();
            let told = id.clone();
            let line = match cmdline {
                Some(c) => c,
                None => text::plain(DEFAULT_CMDLINE),
            };
            let config = VmConfig {
                id,
                name,
                memory_mb,
                vcpus,
                kernel,
                cmdline: line,
                disk,
                initrd,
                framebuffer,
            };
            self.vms.push(Vm::new(config, Bus::new()));
            assert(self.vms@.drop_last() =~= pre);
            Handled {
                reply: Some(Ok(ResponseBody::Created { id: told })),
                action: Action::Nothing,
            }
        } else {
            Handled { reply: None, action: Action::Nothing }
        }
    }

    /// Starts the machine numbered `i`.
    fn start(&mut self, i: usize) -> (h: Handled)
        requires
            i < old(self).machines().len(),
        ensures
            started(old(self).machines(), i as int, final(self).machines(), h),
            final(self).next() == old(self).next(),
    {
        let ghost v = self.vms@[i as int]@;
        let machine = &mut self.vms[i];
        match machine.transition(VmState::Booting) {
            Ok(_) => {},
            Err(e) => {
                return Handled {
                    reply: Some(Err(ManagerError::Transition(e.message()))),
                    action: Action::Nothing,
                };
            },
        }
        let ghost booting = machine@;
        let c = machine.config();
        let kernel = copy_text(&c.kernel);
        match kernel {
            Some(path) => {
                let req = BootRequest {
                    id: c.id.clone(),
                    kernel: path,
                    cmdline: c.cmdline.clone(),
                    memory_mb: c.memory_mb,
                    initrd: copy_text(&c.initrd),
                    disk: copy_text(&c.disk),
                    framebuffer: match c.framebuffer {
                        Some((w, h)) => Some(FbGeometry::new(w, h)),
                        None => None,
                    },
                };
                Handled { reply: None, action: Action::Boot(req) }
            },
            None => {
                let r = machine.transition(VmState::Running);
                let ghost running = machine@;
                let mut line: Vec<u8> = Vec::new();
                crate::bytes::push_bytes(
                    &mut line,
                    "[vmm-daemon] VM started with no kernel configured (idle)\r\n".as_bytes(),
                );
                assert(line@ =~= idle_line());
                machine.send_event(VmEvent::SerialOutput(line));
                proof {
                    let n = v.outbox.len() as int;
                    let w = machine@.outbox;
                    assert(w.take(n) =~= v.outbox) by {
                        assert(booting.outbox.drop_last() == v.outbox);
                        assert(running.outbox.drop_last() == booting.outbox);
                        assert forall|k: int| 0 <= k < n implies w.take(n)[k] == v.outbox[k] by {
                            assert(v.outbox[k] == booting.outbox.drop_last()[k]);
                            assert(booting.outbox[k] == running.outbox.drop_last()[k]);
                        }
                    }
                    assert(w[n] == running.outbox.drop_last()[n]);
                    assert(w[n + 1] == running.outbox.last());
                }
                Handled { reply: Some(reply_to(r)), action: Action::Nothing }
            },
        }
    }

    /// Asks the machine numbered `i` for the state `to`.
    fn move_to(&mut self, i: usize, to: VmState) -> (h: Handled)
        requires
            i < old(self).machines().len(),
        ensures
            moved(old(self).machines(), i as int, to, final(self).machines(), h),
            final(self).next() == old(self).next(),
    {
        let machine = &mut self.vms[i];
        let r = machine.transition(to);
        Handled { reply: Some(reply_to(r)), action: Action::Nothing }
    }

    /// All machines, described.
    fn list(&self) -> (r: Vec<VmInfo>)
        ensures
            r@.len() == self.machines().len(),
            forall|i: int|
                0 <= i < r@.len() ==> describes(self.machines()[i]@, #[trigger] r@[i]),
    {
        let mut out: Vec<VmInfo> = Vec::new();
        let mut i: usize = 0;
        while i < self.vms.len()
            invariant
                i <= self.vms@.len(),
                out@.len() == i,
                forall|k: int| 0 <= k < i ==> describes(self.vms@[k]@, #[trigger] out@[k]),
            decreases self.vms@.len() - i,
        {
            let machine = &self.vms[i];
            let c = machine.config();
            out.push(
                VmInfo {
                    id: c.id.clone(),
                    name: c.name.clone(),
                    state: text::plain(machine.current_state().as_str()),
                    memory_mb: c.memory_mb,
                    vcpus: c.vcpus,
                },
            );
            i += 1;
        }
        out
    }

    /// Handles a command.
    pub fn handle(&mut self, cmd: Command) -> (h: Handled)
        requires
            cmd is CreateVm ==> old(self).next() < u64::MAX,
        ensures
            handled(
                old(self).machines(),
                old(self).next(),
                cmd,
                final(self).machines(),
                final(self).next(),
                h,
            ),
    {
        match cmd {
            Command::CreateVm { .. } => self.create(cmd),
            Command::StartVm { id } => match self.get(&id) {
                Some(i) => self.start(i),
                None => not_found(id),
            },
            Command::StopVm { id } => match self.get(&id) {
                Some(i) => {
                    let machine = &mut self.vms[i];
                    machine.request_stop();
                    let r = machine.transition(VmState::Stopped);
                    Handled { reply: Some(reply_to(r)), action: Action::Stop(id) }
                },
                None => not_found(id),
            },
            Command::PauseVm { id } => match self.get(&id) {
                Some(i) => self.move_to(i, VmState::Paused),
                None => not_found(id),
            },
            Command::ResumeVm { id } => match self.get(&id) {
                Some(i) => self.move_to(i, VmState::Running),
                None => not_found(id),
            },
            Command::ListVms => Handled {
                reply: Some(Ok(ResponseBody::VmList { vms: self.list() })),
                action: Action::Nothing,
            },
            Command::SendSerialInput { id, data } => match self.get(&id) {
                Some(i) => {
                    let action = if self.vms[i].is_running() {
                        Action::Feed(id, data)
                    } else {
                        Action::Nothing
                    };
                    Handled { reply: Some(Ok(ResponseBody::Done)), action }
                },
                None => not_found(id),
            },
            Command::RequestFramebuffer { id } => match self.get(&id) {
                Some(i) => {
                    let reply = match self.vms[i].framebuffer_info() {
                        Some(fb) => Ok(
                            ResponseBody::FramebufferIncoming {
                                width: fb.width,
                                height: fb.height,
                                size: fb.size as u64,
                            },
                        ),
                        None => Err(ManagerError::Op(text::plain("no framebuffer for this VM"))),
                    };
                    Handled { reply: Some(reply), action: Action::Nothing }
                },
                None => not_found(id),
            },
            Command::Subscribe => Handled {
                reply: Some(Ok(ResponseBody::Done)),
                action: Action::Nothing,
            },
        }
    }

    /// Hears what came of booting a machine, and answers the command that asked for it.
    pub fn boot_finished(&mut self, id: String, outcome: BootOutcome) -> (reply: Result<
        ResponseBody,
        ManagerError,
    >)
        ensures
            boot_heard(old(self).machines(), id, outcome, final(self).machines(), reply),
            final(self).next() == old(self).next(),
    {
        let i: usize = match self.get(&id) {
            Some(i) => i,
            None => {
                return Err(ManagerError::NotFound(id));
            },
        };
        match outcome {
            BootOutcome::Started(handle) => {
                let machine = &mut self.vms[i];
                machine.set_running(handle);
                let r = machine.transition(VmState::Running);
                reply_to(r)
            },
            BootOutcome::Failed(e) => Err(
                ManagerError::Op(text::join2("boot failed: ", e.as_str())),
            ),
            BootOutcome::Lost(e) => Err(
                ManagerError::Op(text::join2("boot task join: ", e.as_str())),
            ),
        }
    }

    /// The file descriptor of a machine's framebuffer, if it booted with one.
    pub fn framebuffer_fd(&self, id: &String) -> (r: Option<i32>)
        ensures
            r == match find(self.machines(), id@) {
                Some(i) => match share_of(self.machines()[i]@) {
                    Some(fb) => Some(fb.fd),
                    None => None,
                },
                None => None,
            },
    {
        match self.get(id) {
            Some(i) => match self.vms[i].framebuffer_info() {
                Some(fb) => Some(fb.fd),
                None => None,
            },
            None => None,
        }
    }

    /// Takes the right to receive the events of a machine, which can be taken once.
    pub fn take_event_rx(&mut self, id: &String) -> (r: Option<EventRx>)
        ensures
            match find(old(self).machines(), id@) {
                Some(i) => {
                    &&& r is Some <==> !old(self).machines()[i]@.taken
                    &&& r matches Some(rx) ==> rx.machine() == id@
                    &&& only(old(self).machines(), i, final(self).machines())
                    &&& final(self).machines()[i]@ == (VmView {
                        taken: true,
                        ..old(self).machines()[i]@
                    })
                },
                None => r is None && final(self).machines() == old(self).machines(),
            },
            final(self).next() == old(self).next(),
    {
        match self.get(id) {
            Some(i) => {
                proof {
                    find_law(self.machines(), id@);
                }
                let machine = &mut self.vms[i];
                machine.take_event_rx()
            },
            None => None,
        }
    }

    /// The oldest event that was not received, of the machine that the holder of the right may
    /// receive from.
    pub fn next_event(&mut self, rx: &EventRx) -> (r: Option<VmEvent>)
        ensures
            match find(old(self).machines(), rx.machine()) {
                Some(i) => {
                    &&& only(old(self).machines(), i, final(self).machines())
                    &&& vm::received(
                        rx.machine(),
                        old(self).machines()[i]@,
                        r,
                        final(self).machines()[i]@,
                    )
                },
                None => r is None && final(self).machines() == old(self).machines(),
            },
            final(self).next() == old(self).next(),
    {
        match self.get(rx.vm_id()) {
            Some(i) => {
                let machine = &mut self.vms[i];
                rx.recv(machine)
            },
            None => None,
        }
    }
}

/// The answer to a command for a machine that is not there.
fn not_found(id: String) -> (h: Handled)
    ensures
        h.action is Nothing,
        h.reply == Some(Err::<ResponseBody, ManagerError>(ManagerError::NotFound(id))),
{
    Handled { reply: Some(Err(ManagerError::NotFound(id))), action: Action::Nothing }
}

/// A machine found among the first is the one found among all.
proof fn find_prefix<D>(vms: Seq<Vm<D>>, id: Seq<char>, k: int)
    requires
        0 <= k <= vms.len(),
        find(vms.take(k), id) is Some,
    ensures
        find(vms, id) == find(vms.take(k), id),
    decreases vms.len() - k,
{
    if k < vms.len() {
        assert(vms.take(k + 1).drop_last() =~= vms.take(k));
        find_prefix(vms, id, k + 1);
    } else {
        assert(vms.take(k) =~= vms);
    }
}

/// What is found is a machine of that name, and there is one where any machine has it.
pub proof fn find_law<D>(vms: Seq<Vm<D>>, id: Seq<char>)
    ensures
        match find(vms, id) {
            Some(i) => 0 <= i < vms.len() && vms[i]@.config.id@ == id,
            None => forall|i: int| 0 <= i < vms.len() ==> (#[trigger] vms[i])@.config.id@ != id,
        },
    decreases vms.len(),
{
    if vms.len() > 0 {
        find_law(vms.drop_last(), id);
        assert forall|i: int| 0 <= i < vms.len() && find(vms, id) is None implies (
        #[trigger] vms[i])@.config.id@ != id by {
            if i < vms.len() - 1 {
                assert(vms.drop_last()[i] == vms[i]);
            }
        }
    }
}

/// Different numbers give different names.
pub proof fn names_differ(a: nat, b: nat)
    requires
        vm_id(a) == vm_id(b),
    ensures
        a == b,
{
    let head = "vm-"@;
    assert((head + text::dec(a)).skip(head.len() as int) =~= text::dec(a));
    assert((head + text::dec(b)).skip(head.len() as int) =~= text::dec(b));
    text::numeral_injective(a, b, 10);
}

/// A command keeps names unlike each other: the name that a new machine gets was never given
/// out before.
pub proof fn handling_keeps_names<D>(
    pre: Seq<Vm<D>>,
    n: u64,
    cmd: Command,
    post: Seq<Vm<D>>,
    k: u64,
    h: Handled,
)
    requires
        ids_sound(pre, n),
        handled(pre, n, cmd, post, k, h),
    ensures
        ids_sound(post, k),
{
    if cmd is CreateVm {
        assert(post.drop_last() == pre);
        assert(forall|i: int| 0 <= i < pre.len() ==> #[trigger] post[i] == post.drop_last()[i]);
        assert forall|i: int, j: int| 0 <= i < j < post.len() implies (#[trigger]
        post[i])@.config.id@ != (#[trigger] post[j])@.config.id@ by {
            assert(pre[i] == post[i]);
            if j < pre.len() {
                assert(pre[j] == post[j]);
            } else {
                let a = choose|a: nat| a < n && pre[i]@.config.id@ == #[trigger] vm_id(a);
                if post[i]@.config.id@ == post[j]@.config.id@ {
                    names_differ(a, n as nat);
                }
            }
        }
        assert forall|i: int| 0 <= i < post.len() implies exists|a: nat|
            a < k && (#[trigger] post[i])@.config.id@ == #[trigger] vm_id(a) by {
            if i < pre.len() {
                assert(pre[i] == post[i]);
                let a = choose|a: nat| a < n && pre[i]@.config.id@ == #[trigger] vm_id(a);
                assert(a < k && post[i]@.config.id@ == vm_id(a));
            } else {
                assert((n as nat) < k && post[i]@.config.id@ == vm_id(n as nat));
            }
        }
    } else {
        same_names(pre, n, cmd, post, k, h);
        assert forall|i: int, j: int| 0 <= i < j < post.len() implies (#[trigger]
        post[i])@.config.id@ != (#[trigger] post[j])@.config.id@ by {
            assert(pre[i]@.config == post[i]@.config && pre[j]@.config == post[j]@.config);
        }
        assert forall|i: int| 0 <= i < post.len() implies exists|a: nat|
            a < k && (#[trigger] post[i])@.config.id@ == #[trigger] vm_id(a) by {
            assert(pre[i]@.config == post[i]@.config);
            let a = choose|a: nat| a < n && pre[i]@.config.id@ == #[trigger] vm_id(a);
            assert(a < k && post[i]@.config.id@ == vm_id(a));
        }
    }
}

/// A command other than one that creates a machine changes what none is made of.
proof fn same_names<D>(
    pre: Seq<Vm<D>>,
    n: u64,
    cmd: Command,
    post: Seq<Vm<D>>,
    k: u64,
    h: Handled,
)
    requires
        handled(pre, n, cmd, post, k, h),
        !(cmd is CreateVm),
    ensures
        post.len() == pre.len(),
        forall|i: int| 0 <= i < pre.len() ==> (#[trigger] post[i])@.config == pre[i]@.config,
{
    match cmd {
        Command::StartVm { id } => find_law(pre, id@),
        Command::StopVm { id } => find_law(pre, id@),
        Command::PauseVm { id } => find_law(pre, id@),
        Command::ResumeVm { id } => find_law(pre, id@),
        Command::SendSerialInput { id, data: _ } => find_law(pre, id@),
        Command::RequestFramebuffer { id } => find_law(pre, id@),
        _ => {},
    }
}

/// Whether a machine may be in the state `b` after one command when it was in `a`: the same
/// state, one legal step on, or booted and running at once.
pub open spec fn within_one_command(a: VmState, b: VmState) -> bool {
    a == b || a.leads_to(b) || (a.leads_to(VmState::Booting) && b == VmState::Running)
}

/// Whatever a client asks, machines move only by legal steps, and a machine that no command
/// names does not move.
pub proof fn machines_move_legally<D>(
    pre: Seq<Vm<D>>,
    n: u64,
    cmd: Command,
    post: Seq<Vm<D>>,
    k: u64,
    h: Handled,
    i: int,
)
    requires
        handled(pre, n, cmd, post, k, h),
        0 <= i < pre.len(),
    ensures
        i < post.len(),
        within_one_command(pre[i]@.state, post[i]@.state),
        pre[i]@.state == VmState::Stopped ==> post[i]@.state == VmState::Stopped,
{
    match cmd {
        Command::StartVm { id } => find_law(pre, id@),
        Command::StopVm { id } => find_law(pre, id@),
        Command::PauseVm { id } => find_law(pre, id@),
        Command::ResumeVm { id } => find_law(pre, id@),
        Command::SendSerialInput { id, data: _ } => find_law(pre, id@),
        Command::RequestFramebuffer { id } => find_law(pre, id@),
        Command::CreateVm { .. } => {
            assert(post[i] == post.drop_last()[i]);
        },
        _ => {},
    }
}

/// A machine that was just created is found under the name that the client was told.
pub proof fn created_is_found<D>(
    pre: Seq<Vm<D>>,
    n: u64,
    cmd: Command,
    post: Seq<Vm<D>>,
    k: u64,
    h: Handled,
)
    requires
        ids_sound(pre, n),
        cmd is CreateVm,
        handled(pre, n, cmd, post, k, h),
    ensures
        find(post, vm_id(n as nat)) == Some(pre.len() as int),
{
    handling_keeps_names(pre, n, cmd, post, k, h);
    find_law(post, vm_id(n as nat));
    let last = pre.len() as int;
    assert(post[last]@.config.id@ == vm_id(n as nat));
    if let Some(i) = find(post, vm_id(n as nat)) {
        if i != last {
            assert(post[i]@.config.id@ != post[last]@.config.id@);
        }
    }
}

} // verus!
