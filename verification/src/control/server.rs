//! What a client's connection does: which events it gets, how requests are answered, and when
//! a file descriptor follows an answer.

use vstd::prelude::*;

use super::manager;
use super::manager::{Action, BootOutcome, Handled, Manager, ManagerError, TaggedEvent};
use super::protocol::{Command, Request, Response, ResponseBody};
use crate::devices::device::Device;
use crate::text;
use crate::vm::vm::Vm;

verus! {

/// Where the daemon listens unless told otherwise.
pub const DEFAULT_SOCKET: &'static str = "/tmp/vmm.sock";

/// A connection.
pub struct Session {
    subscribed: bool,
}

/// The machine whose framebuffer a command asks for.
pub open spec fn framebuffer_of(cmd: Command) -> Option<Seq<char>> {
    match cmd {
        Command::RequestFramebuffer { id } => Some(id@),
        _ => None,
    }
}

impl Session {
    /// Whether the client asked for events.
    pub closed spec fn wants_events(&self) -> bool {
        self.subscribed
    }

    /// A new connection gets no events.
    pub fn new() -> (r: Self)
        ensures
            !r.wants_events(),
    {
        Session { subscribed: false }
    }

    /// Takes note of a request before it is handled: from a subscription on, events are
    /// passed on. Gives the machine whose framebuffer the request asks for.
    pub fn accept(&mut self, req: &Request) -> (r: Option<String>)
        ensures
            final(self).wants_events() == (old(self).wants_events() || req.command is Subscribe),
            match r {
                Some(id) => framebuffer_of(req.command) == Some(id@),
                None => framebuffer_of(req.command) is None,
            },
    {
        match &req.command {
            Command::Subscribe => {
                self.subscribed = true;
                None
            },
            Command::RequestFramebuffer { id } => Some(id.clone()),
            _ => None,
        }
    }

    /// The message by which an event is passed on, numbered zero, if the client asked for
    /// events.
    pub fn event_message(&self, tagged: TaggedEvent) -> (r: Option<Response>)
        ensures
            r == if self.wants_events() {
                Some(
                    Response {
                        id: 0,
                        result: Ok(
                            ResponseBody::VmEvent { id: tagged.vm_id, event: tagged.event },
                        ),
                    },
                )
            } else {
                None
            },
    {
        if self.subscribed {
            Some(
                Response::ok(
                    0,
                    ResponseBody::VmEvent { id: tagged.vm_id, event: tagged.event },
                ),
            )
        } else {
            None
        }
    }
}

/// The answer to a message that is no request, numbered zero.
pub fn bad_request(why: &str) -> (r: Response)
    ensures
        r.id == 0,
        r.result matches Err(e) && e@ == "bad request: "@ + why@,
{
    Response::err(0, text::join2("bad request: ", why))
}

/// Whether `r` answers the request `id` with what came of it: its outcome, or its error in
/// words.
pub open spec fn answers(
    id: u64,
    outcome: Result<ResponseBody, ManagerError>,
    r: Response,
) -> bool {
    &&& r.id == id
    &&& match outcome {
        Ok(body) => r.result == Ok::<ResponseBody, String>(body),
        Err(e) => r.result matches Err(t) && t@ == e.words(),
    }
}

/// The answer to the request `id`, given what came of it.
pub fn answer(id: u64, outcome: Result<ResponseBody, ManagerError>) -> (r: Response)
    ensures
        answers(id, outcome, r),
{
    match outcome {
        Ok(body) => Response::ok(id, body),
        Err(e) => Response::err(id, e.message()),
    }
}

/// What serving a request comes to.
#[derive(Debug)]
pub struct Served {
    /// The answer; there is none yet where a machine is to be booted.
    pub response: Option<Response>,
    /// The machine whose framebuffer was asked for.
    pub asked: Option<String>,
    /// What is asked of the caller.
    pub action: Action,
}

/// Serves a request.
pub fn serve<D: Device>(session: &mut Session, manager: &mut Manager<D>, req: Request) -> (s: Served)
    requires
        req.command is CreateVm ==> old(manager).next() < u64::MAX,
    ensures
        final(session).wants_events() == (old(session).wants_events() || req.command is Subscribe),
        match s.asked {
            Some(id) => framebuffer_of(req.command) == Some(id@),
            None => framebuffer_of(req.command) is None,
        },
        exists|h: Handled|
            {
                &&& #[trigger] manager::handled(
                    old(manager).machines(),
                    old(manager).next(),
                    req.command,
                    final(manager).machines(),
                    final(manager).next(),
                    h,
                )
                &&& s.action == h.action
                &&& match h.reply {
                    Some(outcome) => s.response matches Some(r) && answers(req.id, outcome, r),
                    None => s.response is None,
                }
            },
{
    let asked = session.accept(&req);
    let id: u64 = req.id;
    let h = manager.handle(req.command);
    let ghost came = h;
    let response = match h.reply {
        Some(outcome) => Some(answer(id, outcome)),
        None => None,
    };
    let s = Served { response, asked, action: h.action };
    assert(manager::handled(
        old(manager).machines(),
        old(manager).next(),
        req.command,
        manager.machines(),
        manager.next(),
        came,
    ));
    s
}

/// Answers the request `id` that asked to boot a machine, once it is known what came of it.
pub fn serve_boot<D: Device>(
    manager: &mut Manager<D>,
    id: u64,
    vm_id: String,
    outcome: BootOutcome,
) -> (r: Response)
    ensures
        final(manager).next() == old(manager).next(),
        exists|reply: Result<ResponseBody, ManagerError>|
            {
                &&& #[trigger] manager::boot_heard(
                    old(manager).machines(),
                    vm_id,
                    outcome,
                    final(manager).machines(),
                    reply,
                )
                &&& answers(id, reply, r)
            },
{
    let reply = manager.boot_finished(vm_id, outcome);
    let ghost came = reply;
    let r = answer(id, reply);
    assert(manager::boot_heard(
        old(manager).machines(),
        vm_id,
        outcome,
        manager.machines(),
        came,
    ));
    r
}

/// A command for a machine that is not there is answered with an error that names it, asks
/// nothing of the caller and changes nothing.
pub proof fn unknown_machine_is_refused<D>(
    pre: Seq<Vm<D>>,
    n: u64,
    cmd: Command,
    id: String,
    post: Seq<Vm<D>>,
    k: u64,
    h: Handled,
    req_id: u64,
    r: Response,
)
    requires
        manager::handled(pre, n, cmd, post, k, h),
        match cmd {
            Command::StartVm { id: i } => i == id,
            Command::StopVm { id: i } => i == id,
            Command::PauseVm { id: i } => i == id,
            Command::ResumeVm { id: i } => i == id,
            Command::SendSerialInput { id: i, data: _ } => i == id,
            Command::RequestFramebuffer { id: i } => i == id,
            _ => false,
        },
        manager::find(pre, id@) is None,
        h.reply matches Some(outcome) ==> answers(req_id, outcome, r),
    ensures
        post == pre,
        k == n,
        h.action is Nothing,
        r.id == req_id,
        r.result matches Err(t) && t@ == "no such VM: "@ + id@,
{
}

/// Whether a file descriptor follows an answer: where the request asked for one and succeeded.
pub fn descriptor_follows(asked: &Option<String>, resp: &Response) -> (r: bool)
    ensures
        r == (*asked is Some && resp.result is Ok),
{
    asked.is_some() && resp.result.is_ok()
}

/// What the daemon's arguments ask for.
#[derive(Debug)]
pub enum Invocation {
    /// Say how the daemon is called.
    Help,
    /// Listen here.
    Serve(String),
}

/// Whether an argument names the socket that follows it.
pub open spec fn is_socket_flag(a: Seq<char>) -> bool {
    a == "--socket"@ || a == "-s"@
}

/// Whether an argument asks for help.
pub open spec fn is_help_flag(a: Seq<char>) -> bool {
    a == "--help"@ || a == "-h"@
}

/// Where the arguments from the `i`th on say to listen, `socket` being what those before say;
/// nothing where they ask for help. The last socket counts, and help counts before what
/// follows it. Other arguments are passed over.
pub open spec fn socket_of(args: Seq<String>, i: int, socket: Seq<char>) -> Option<Seq<char>>
    decreases args.len() - i,
{
    if i < 0 || i >= args.len() {
        Some(socket)
    } else if is_socket_flag(args[i]@) {
        if i + 1 < args.len() {
            socket_of(args, i + 2, args[i + 1]@)
        } else {
            Some(socket)
        }
    } else if is_help_flag(args[i]@) {
        None
    } else {
        socket_of(args, i + 1, socket)
    }
}

/// Reads the daemon's arguments.
pub fn parse_args(args: &Vec<String>) -> (r: Invocation)
    ensures
        match r {
            Invocation::Help => socket_of(args@, 0, DEFAULT_SOCKET@) is None,
            Invocation::Serve(s) => socket_of(args@, 0, DEFAULT_SOCKET@) == Some(s@),
        },
{
    let long_socket = text::plain("--socket");
    let short_socket = text::plain("-s");
    let long_help = text::plain("--help");
    let short_help = text::plain("-h");
    let mut socket = text::plain(DEFAULT_SOCKET);
    let mut i: usize = 0;
    while i < args.len()
        invariant
            i <= args@.len(),
            long_socket@ == "--socket"@,
            short_socket@ == "-s"@,
            long_help@ == "--help"@,
            short_help@ == "-h"@,
            socket_of(args@, i as int, socket@) == socket_of(args@, 0, DEFAULT_SOCKET@),
        decreases args@.len() - i,
    {
        if args[i] == long_socket || args[i] == short_socket {
            if i + 1 < args.len() {
                socket = args[i + 1].clone();
                i += 2;
            } else {
                return Invocation::Serve(socket);
            }
        } else if args[i] == long_help || args[i] == short_help {
            return Invocation::Help;
        } else {
            i += 1;
        }
    }
    Invocation::Serve(socket)
}

} // verus!
