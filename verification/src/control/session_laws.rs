//! What holds of a connection: framing, which events it gets, how requests are answered, and of
//! how the daemon is called.

use vstd::prelude::*;

use super::events;
use super::events::{Arrival, Coalescer, Relay};
use super::laws;
use super::manager::{BootOutcome, Handled, Manager, ManagerError, TaggedEvent};
use super::protocol;
use super::protocol::{Command, Request, Response, ResponseBody, VmEvent};
use super::server;
use super::server::{Invocation, Served, Session};
use crate::bytes;
use crate::devices::device::Device;
use crate::text;

verus! {

/// A frame is the payload behind four bytes that weigh its length, the first one most.
pub proof fn frame_layout(payload: &[u8], r: serde_json::Result<Vec<u8>>)
    requires
        payload@.len() < 0x1_0000_0000,
        call_ensures(protocol::frame, (payload,), r),
    ensures
        r matches Ok(f) && {
            &&& f@.len() == 4 + payload@.len()
            &&& f@[0] * 0x100_0000 + f@[1] * 0x1_0000 + f@[2] * 0x100 + f@[3] == payload@.len()
            &&& forall|i: int| 0 <= i < payload@.len() ==> f@[4 + i] == payload@[i]
        },
{
    bytes::bytes_weigh(0, payload@.len() as u32, 0);
}

/// Four bytes in front of a payload are taken at their weight, up to eight mebibytes and no
/// more.
pub proof fn length_is_weight(prefix: &[u8; 4], r: Result<usize, String>)
    requires
        call_ensures(protocol::payload_length, (prefix,), r),
    ensures
        ({
            let n = prefix@[0] * 0x100_0000 + prefix@[1] * 0x1_0000 + prefix@[2] * 0x100
                + prefix@[3];
            &&& n <= 8 * 1024 * 1024 ==> r == Ok::<usize, String>(n as usize)
            &&& n > 8 * 1024 * 1024 ==> (r matches Err(e) && e@ == "frame too large: "@ + text::dec(
                n as nat,
            ) + " bytes"@)
        }),
{
    let p = prefix@;
    assert(p.reverse()[0] == p[3] && p.reverse()[1] == p[2] && p.reverse()[2] == p[1]
        && p.reverse()[3] == p[0]);
}

/// Output is held back only until it is a good size, until anything else happens or until
/// nothing comes for a while; and the bridge ends with the machine, not before.
pub proof fn output_is_let_go(a: Arrival, r: Relay)
    ensures
        forall|s: &mut Coalescer| #[trigger]
            call_ensures(Coalescer::arrive, (s, a), r) ==> {
                &&& events::relayed((*s)@, a, r.out@, (*final(s))@, r.closed)
                &&& r.closed <==> a is Closed
                &&& !(a matches Arrival::Event(VmEvent::SerialOutput(_))) ==> (*final(s))@ is None
                &&& (*s)@ is Some ==> ((*final(s))@ matches Some(b) ==> b.len() < 16384)
                &&& (*s)@ is None && a is Quiet ==> r.out@.len() == 0
                &&& (*s)@ matches Some(held) ==> (a matches Arrival::Event(
                    VmEvent::SerialOutput(b),
                ) ==> (held.len() + b@.len() < 16384 ==> r.out@.len() == 0 && (*final(s))@ == Some(
                    held + b@,
                )))
                &&& (*s)@ is None ==> (a matches Arrival::Event(VmEvent::SerialOutput(b))
                    ==> r.out@.len() == 0 && (*final(s))@ == Some(b@))
            },
{
}

/// The bridge waits only a short while exactly as long as it holds something back, which at first
/// it does not.
pub proof fn bridge_starts_idle(c: Coalescer, h: bool, d: Coalescer, waits: bool)
    requires
        call_ensures(Coalescer::new, (), c),
        call_ensures(Coalescer::is_holding, (&c,), h),
        call_ensures(Coalescer::is_holding, (&d,), waits),
    ensures
        c@ is None,
        !h,
        waits <==> d@ is Some,
{
}

/// An answer has the number of its request, and is what came of it.
pub proof fn answers_are_made(id: u64, body: ResponseBody, msg: String, r: Response, e: Response)
    requires
        call_ensures(Response::ok, (id, body), r),
        call_ensures(Response::err, (id, msg), e),
    ensures
        r.id == id && e.id == id,
        r.result == Ok::<ResponseBody, String>(body),
        e.result == Err::<ResponseBody, String>(msg),
{
}

/// A connection gets an event, from the machine that it came from and numbered zero, if and
/// only if its client asked for events at some time.
pub proof fn events_follow_subscription(
    s: Session,
    fresh: Session,
    tagged: TaggedEvent,
    r: Option<Response>,
    q: Option<Response>,
)
    requires
        call_ensures(Session::event_message, (&s, tagged), r),
        call_ensures(Session::new, (), fresh),
        call_ensures(Session::event_message, (&fresh, tagged), q),
    ensures
        q is None,
        s.wants_events() ==> (r matches Some(Response {
            id: 0,
            result: Ok(ResponseBody::VmEvent { id, event }),
        }) && id == tagged.vm_id && event == tagged.event),
        !s.wants_events() ==> r is None,
        forall|t: &mut Session, req: &Request, asked: Option<String>| #[trigger]
            call_ensures(Session::accept, (t, req), asked) ==> {
                &&& req.command is Subscribe ==> (*final(t)).wants_events()
                &&& !(req.command is Subscribe) ==> (*final(t)).wants_events()
                    == (*t).wants_events()
            },
{
}

/// A request is answered under its own number: with what came of it, or with the error in
/// words. It is asked of the caller what the manager asks.
pub proof fn requests_are_answered<D: Device>(req: Request, s: Served)
    ensures
        forall|t: &mut Session, m: &mut Manager<D>| #[trigger]
            call_ensures(server::serve::<D>, (t, m, req), s) ==> {
                &&& req.command is Subscribe ==> (*final(t)).wants_events()
                &&& !(req.command is Subscribe) ==> (*final(t)).wants_events()
                    == (*t).wants_events()
                &&& req.command matches Command::RequestFramebuffer { id } ==> (
                s.asked matches Some(a) && a@ == id@)
                &&& !(req.command is RequestFramebuffer) ==> s.asked is None
                &&& exists|h: Handled| #[trigger]
                    laws::handles(*m, req.command, *final(m), h) && s.action == h.action && {
                        &&& h.reply is None ==> s.response is None
                        &&& h.reply matches Some(outcome) ==> (s.response matches Some(r) && told(
                            req.id,
                            outcome,
                            r,
                        ))
                    }
            },
{
    assert forall|t: &mut Session, m: &mut Manager<D>| #[trigger]
        call_ensures(server::serve::<D>, (t, m, req), s) implies exists|h: Handled| #[trigger]
        laws::handles(*m, req.command, *final(m), h) && s.action == h.action && {
            &&& h.reply is None ==> s.response is None
            &&& h.reply matches Some(outcome) ==> (s.response matches Some(r) && told(
                req.id,
                outcome,
                r,
            ))
        } by {
        let h = choose|h: Handled|
            {
                &&& #[trigger] super::manager::handled(
                    (*m).machines(),
                    (*m).next(),
                    req.command,
                    (*final(m)).machines(),
                    (*final(m)).next(),
                    h,
                )
                &&& s.action == h.action
                &&& match h.reply {
                    Some(outcome) => s.response matches Some(r) && server::answers(
                        req.id,
                        outcome,
                        r,
                    ),
                    None => s.response is None,
                }
            };
        assert(laws::handles(*m, req.command, *final(m), h));
    }
}

/// Whether `r` tells the client of request `id` what came of it.
pub open spec fn told(
    id: u64,
    outcome: Result<ResponseBody, ManagerError>,
    r: Response,
) -> bool {
    &&& r.id == id
    &&& match outcome {
        Ok(body) => r.result matches Ok(b) && b == body,
        Err(ManagerError::NotFound(e)) => r.result matches Err(t) && t@ == "no such VM: "@ + e@,
        Err(ManagerError::Transition(e)) => r.result matches Err(t) && t@
            == "illegal transition: "@ + e@,
        Err(ManagerError::Op(e)) => r.result matches Err(t) && t@ == "VM operation failed: "@
            + e@,
    }
}

/// A message that is no request is answered so, under number zero, with what is wrong with it;
/// what came of a request is told under its own number; and a file descriptor follows an answer
/// exactly where one was asked for and the request went well.
pub proof fn answers_are_told(
    id: u64,
    outcome: Result<ResponseBody, ManagerError>,
    r: Response,
    why: &str,
    bad: Response,
    asked: &Option<String>,
    follows: bool,
)
    requires
        call_ensures(server::answer, (id, outcome), r),
        call_ensures(server::bad_request, (why,), bad),
        call_ensures(server::descriptor_follows, (asked, &r), follows),
    ensures
        told(id, outcome, r),
        bad.id == 0,
        bad.result matches Err(t) && t@ == "bad request: "@ + why@,
        follows <==> *asked is Some && outcome is Ok,
{
}

/// The request that asked for a boot is answered, under its own number, with what came of it.
pub proof fn boot_requests_are_answered<D: Device>(
    id: u64,
    vm_id: String,
    outcome: BootOutcome,
    r: Response,
)
    ensures
        forall|m: &mut Manager<D>| #[trigger]
            call_ensures(server::serve_boot::<D>, (m, id, vm_id, outcome), r) ==> exists|
                reply: Result<ResponseBody, ManagerError>,
            | #[trigger]
                laws::hears(*m, vm_id, outcome, *final(m), reply) && told(id, reply, r),
{
    assert forall|m: &mut Manager<D>| #[trigger]
        call_ensures(server::serve_boot::<D>, (m, id, vm_id, outcome), r) implies exists|
        reply: Result<ResponseBody, ManagerError>,
    | #[trigger] laws::hears(*m, vm_id, outcome, *final(m), reply) && told(id, reply, r) by {
        let reply = choose|reply: Result<ResponseBody, ManagerError>|
            {
                &&& #[trigger] super::manager::boot_heard(
                    (*m).machines(),
                    vm_id,
                    outcome,
                    (*final(m)).machines(),
                    reply,
                )
                &&& server::answers(id, reply, r)
            };
        assert(laws::hears(*m, vm_id, outcome, *final(m), reply));
    }
}

/// Whether an argument is neither of the two kinds of flag.
pub open spec fn plain_argument(a: Seq<char>) -> bool {
    a != "--socket"@ && a != "-s"@ && a != "--help"@ && a != "-h"@
}

/// Arguments without a flag leave the daemon at its usual socket. Behind them, a socket flag
/// with a path names the socket, and a help flag asks for help, whatever follows.
pub proof fn arguments_choose_socket(args: &Vec<String>, k: int, r: Invocation)
    requires
        call_ensures(server::parse_args, (args,), r),
        0 <= k <= args@.len(),
        forall|i: int| 0 <= i < k ==> plain_argument((#[trigger] args@[i])@),
    ensures
        k == args@.len() ==> (r matches Invocation::Serve(s) && s@ == "/tmp/vmm.sock"@),
        k + 2 <= args@.len() && (args@[k]@ == "--socket"@ || args@[k]@ == "-s"@) && (forall|i: int|
            k + 2 <= i < args@.len() ==> plain_argument((#[trigger] args@[i])@)) ==> (
        r matches Invocation::Serve(s) && s@ == args@[k + 1]@),
        k + 1 == args@.len() && (args@[k]@ == "--socket"@ || args@[k]@ == "-s"@) ==> (
        r matches Invocation::Serve(s) && s@ == "/tmp/vmm.sock"@),
        k < args@.len() && (args@[k]@ == "--help"@ || args@[k]@ == "-h"@) ==> r is Help,
{
    flags_differ();
    let a = args@;
    passed_over(a, 0, k, server::DEFAULT_SOCKET@);
    if k + 2 <= a.len() && (a[k]@ == "--socket"@ || a[k]@ == "-s"@) && (forall|i: int|
        k + 2 <= i < a.len() ==> plain_argument((#[trigger] a[i])@)) {
        passed_over(a, k + 2, a.len() as int, a[k + 1]@);
    }
}

/// A later socket counts before an earlier one.
pub proof fn last_socket_counts(args: &Vec<String>, r: Invocation)
    requires
        call_ensures(server::parse_args, (args,), r),
        args@.len() == 4,
        args@[0]@ == "--socket"@ || args@[0]@ == "-s"@,
        args@[2]@ == "--socket"@ || args@[2]@ == "-s"@,
    ensures
        r matches Invocation::Serve(s) && s@ == args@[3]@,
{
    reveal_with_fuel(server::socket_of, 4);
}

/// Plain arguments are passed over.
proof fn passed_over(a: Seq<String>, i: int, k: int, socket: Seq<char>)
    requires
        0 <= i <= k <= a.len(),
        forall|j: int| i <= j < k ==> plain_argument((#[trigger] a[j])@),
    ensures
        server::socket_of(a, i, socket) == server::socket_of(a, k, socket),
    decreases k - i,
{
    if i < k {
        assert(plain_argument(a[i]@));
        passed_over(a, i + 1, k, socket);
    }
}

/// No text is both kinds of flag.
proof fn flags_differ()
    ensures
        "--socket"@ != "--help"@,
        "--socket"@ != "-h"@,
        "-s"@ != "--help"@,
        "-s"@ != "-h"@,
{
    reveal_strlit("--socket");
    reveal_strlit("--help");
    reveal_strlit("-s");
    reveal_strlit("-h");
    assert("--socket"@.len() == 8 && "--help"@.len() == 6 && "-s"@.len() == 2 && "-h"@.len()
        == 2);
    assert("-s"@[1] == 's' && "-h"@[1] == 'h');
}

} // verus!
