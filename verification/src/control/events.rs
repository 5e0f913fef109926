//! The bridge from a machine's events to the daemon's clients. A booting guest prints a byte at
//! a time; the bridge puts serial output that comes in quick succession together, so that
//! clients see few large events and lose none.

use vstd::prelude::*;

use super::protocol::VmEvent;
use crate::bytes;

verus! {

/// Serial output is passed on once this much has come together.
pub const FLUSH_LEN: usize = 16_384;

/// What the bridge finds when it looks for the next event.
#[derive(Debug)]
pub enum Arrival {
    Event(VmEvent),
    /// Nothing came for a short while.
    Quiet,
    /// The machine is gone, and nothing will come.
    Closed,
}

/// What the bridge does with it.
#[derive(Debug)]
pub struct Relay {
    /// The events to pass on, in order.
    pub out: Vec<VmEvent>,
    /// Whether the bridge ends.
    pub closed: bool,
}

/// The bridge: idle, or holding serial output back.
pub struct Coalescer {
    held: Option<Vec<u8>>,
}

impl View for Coalescer {
    type V = Option<Seq<u8>>;

    closed spec fn view(&self) -> Option<Seq<u8>> {
        match self.held {
            Some(b) => Some(b@),
            None => None,
        }
    }
}

/// Whether `e` is serial output of `b`.
pub open spec fn is_serial(e: VmEvent, b: Seq<u8>) -> bool {
    e matches VmEvent::SerialOutput(v) && v@ == b
}

/// Whether the bridge, holding `held`, may meet an arrival by passing `out` on, holding `post`
/// and ending or not.
pub open spec fn relayed(
    held: Option<Seq<u8>>,
    a: Arrival,
    out: Seq<VmEvent>,
    post: Option<Seq<u8>>,
    closed: bool,
) -> bool {
    match held {
        None => match a {
            Arrival::Event(VmEvent::SerialOutput(b)) => {
                &&& out.len() == 0
                &&& post == Some(b@)
                &&& !closed
            },
            Arrival::Event(e) => out == seq![e] && post is None && !closed,
            Arrival::Quiet => out.len() == 0 && post is None && !closed,
            Arrival::Closed => out.len() == 0 && post is None && closed,
        },
        Some(buf) => match a {
            Arrival::Event(VmEvent::SerialOutput(b)) => {
                &&& !closed
                &&& if buf.len() + b@.len() >= FLUSH_LEN {
                    out.len() == 1 && is_serial(out[0], buf + b@) && post is None
                } else {
                    out.len() == 0 && post == Some(buf + b@)
                }
            },
            Arrival::Event(e) => {
                &&& out.len() == 2
                &&& is_serial(out[0], buf)
                &&& out[1] == e
                &&& post is None
                &&& !closed
            },
            Arrival::Quiet => {
                &&& flushed(buf, out)
                &&& post is None
                &&& !closed
            },
            Arrival::Closed => {
                &&& flushed(buf, out)
                &&& post is None
                &&& closed
            },
        },
    }
}

/// Whether `out` passes `buf` on, if there is anything in it.
pub open spec fn flushed(buf: Seq<u8>, out: Seq<VmEvent>) -> bool {
    if buf.len() == 0 {
        out.len() == 0
    } else {
        out.len() == 1 && is_serial(out[0], buf)
    }
}

impl Coalescer {
    pub fn new() -> (r: Self)
        ensures
            r@ is None,
    {
        Coalescer { held: None }
    }

    /// Whether serial output is held back, so that the bridge waits for the next arrival only a
    /// short while.
    pub fn is_holding(&self) -> (r: bool)
        ensures
            r == self@ is Some,
    {
        self.held.is_some()
    }

    /// Meets an arrival.
    pub fn arrive(&mut self, a: Arrival) -> (r: Relay)
        ensures
            relayed(old(self)@, a, r.out@, final(self)@, r.closed),
    {
        let held = self.held.take();
        let mut out: Vec<VmEvent> = Vec::new();
        let mut closed: bool = false;
        match held {
            None => match a {
                Arrival::Event(VmEvent::SerialOutput(b)) => {
                    self.held = Some(b);
                },
                Arrival::Event(e) => {
                    out.push(e);
                    assert(out@ =~= seq![e]);
                },
                Arrival::Quiet => {},
                Arrival::Closed => {
                    closed = true;
                },
            },
            Some(mut buf) => match a {
                Arrival::Event(VmEvent::SerialOutput(b)) => {
                    bytes::push_bytes(&mut buf, &b);
                    if buf.len() >= FLUSH_LEN {
                        out.push(VmEvent::SerialOutput(buf));
                    } else {
                        self.held = Some(buf);
                    }
                },
                Arrival::Event(e) => {
                    out.push(VmEvent::SerialOutput(buf));
                    out.push(e);
                },
                Arrival::Quiet => {
                    if buf.len() > 0 {
                        out.push(VmEvent::SerialOutput(buf));
                    }
                },
                Arrival::Closed => {
                    closed = true;
                    if buf.len() > 0 {
                        out.push(VmEvent::SerialOutput(buf));
                    }
                },
            },
        }
        Relay { out, closed }
    }
}

/// A byte of serial output, or any other event.
pub ghost enum Item {
    Byte(u8),
    Other(VmEvent),
}

/// The bytes of serial output, one by one.
pub open spec fn byte_items(b: Seq<u8>) -> Seq<Item> {
    b.map_values(|x: u8| Item::Byte(x))
}

/// An event, its serial output byte by byte.
pub open spec fn event_items(e: VmEvent) -> Seq<Item> {
    match e {
        VmEvent::SerialOutput(b) => byte_items(b@),
        _ => seq![Item::Other(e)],
    }
}

/// Events in order, their serial output byte by byte.
pub open spec fn items(s: Seq<VmEvent>) -> Seq<Item>
    decreases s.len(),
{
    if s.len() == 0 {
        seq![]
    } else {
        items(s.drop_last()) + event_items(s.last())
    }
}

/// What the bridge holds back, byte by byte.
pub open spec fn held_items(held: Option<Seq<u8>>) -> Seq<Item> {
    match held {
        None => seq![],
        Some(b) => byte_items(b),
    }
}

/// What an arrival brings.
pub open spec fn arrival_items(a: Arrival) -> Seq<Item> {
    match a {
        Arrival::Event(e) => event_items(e),
        _ => seq![],
    }
}

/// The bridge loses nothing, adds nothing and keeps the order: what it passes on and then
/// holds is what it held and what arrived. When it ends it holds nothing.
pub proof fn nothing_is_lost(
    held: Option<Seq<u8>>,
    a: Arrival,
    out: Seq<VmEvent>,
    post: Option<Seq<u8>>,
    closed: bool,
)
    requires
        relayed(held, a, out, post, closed),
    ensures
        items(out) + held_items(post) == held_items(held) + arrival_items(a),
        closed ==> post is None,
{
    reveal_with_fuel(items, 3);
    if out.len() == 1 {
        assert(out.drop_last() =~= seq![]);
    }
    if out.len() == 2 {
        assert(out.drop_last().drop_last() =~= seq![]);
        assert(out.drop_last().last() == out[0]);
    }
    if let Some(buf) = held {
        if let Arrival::Event(VmEvent::SerialOutput(b)) = a {
            assert(byte_items(buf + b@) =~= byte_items(buf) + byte_items(b@));
        }
        if buf.len() == 0 {
            assert(byte_items(buf) =~= seq![]);
        }
    }
    assert(items(out) + held_items(post) =~= held_items(held) + arrival_items(a));
}

/// Whether the bridge, holding `held`, may meet `arrivals` one after the other by passing `out`
/// on, and then hold `post`.
pub open spec fn relayed_all(
    held: Option<Seq<u8>>,
    arrivals: Seq<Arrival>,
    out: Seq<VmEvent>,
    post: Option<Seq<u8>>,
) -> bool
    decreases arrivals.len(),
{
    if arrivals.len() == 0 {
        out.len() == 0 && post == held
    } else {
        exists|mid: Option<Seq<u8>>, k: int, closed: bool|
            {
                &&& 0 <= k <= out.len()
                &&& relayed_all(held, arrivals.drop_last(), out.take(k), mid)
                &&& #[trigger] relayed(mid, arrivals.last(), out.skip(k), post, closed)
            }
    }
}

/// What arrivals bring together.
pub open spec fn arrivals_items(s: Seq<Arrival>) -> Seq<Item>
    decreases s.len(),
{
    if s.len() == 0 {
        seq![]
    } else {
        arrivals_items(s.drop_last()) + arrival_items(s.last())
    }
}

/// Events passed on in two parts.
proof fn items_concat(a: Seq<VmEvent>, b: Seq<VmEvent>)
    ensures
        items(a + b) == items(a) + items(b),
    decreases b.len(),
{
    if b.len() == 0 {
        assert(a + b =~= a);
        assert(items(a) + items(b) =~= items(a));
    } else {
        items_concat(a, b.drop_last());
        assert((a + b).drop_last() =~= a + b.drop_last());
        assert(items(a) + (items(b.drop_last()) + event_items(b.last())) =~= items(a) + items(
            b.drop_last(),
        ) + event_items(b.last()));
    }
}

/// However many events arrive, from a bridge that holds nothing: what was passed on and what is
/// held are all of them, byte by byte and in order.
pub proof fn nothing_is_ever_lost(
    arrivals: Seq<Arrival>,
    out: Seq<VmEvent>,
    post: Option<Seq<u8>>,
)
    requires
        relayed_all(None, arrivals, out, post),
    ensures
        items(out) + held_items(post) == arrivals_items(arrivals),
    decreases arrivals.len(),
{
    if arrivals.len() == 0 {
        assert(items(out) + held_items(post) =~= seq![]);
    } else {
        let (mid, k, closed) = choose|mid: Option<Seq<u8>>, k: int, closed: bool|
            {
                &&& 0 <= k <= out.len()
                &&& relayed_all(None, arrivals.drop_last(), out.take(k), mid)
                &&& #[trigger] relayed(mid, arrivals.last(), out.skip(k), post, closed)
            };
        let first = out.take(k);
        let last = out.skip(k);
        assert(out =~= first + last);
        nothing_is_ever_lost(arrivals.drop_last(), first, mid);
        nothing_is_lost(mid, arrivals.last(), last, post, closed);
        items_concat(first, last);
        assert(items(first) + items(last) + held_items(post) =~= items(first) + (items(last)
            + held_items(post)));
        assert(items(first) + (held_items(mid) + arrival_items(arrivals.last())) =~= items(first)
            + held_items(mid) + arrival_items(arrivals.last()));
    }
}

} // verus!
