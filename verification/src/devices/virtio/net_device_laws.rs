//! What the network card does for a driver, from the driver's own bytes: a notification sends
//! exactly the frames that wait, and a frame that comes in is found in the driver's buffers.

use vstd::prelude::*;

use super::guest;
use super::guest::{GuestAccess, GuestMem};
use super::net;
use super::net::NetBackend;
use super::net_laws;
use super::net_mmio;
use super::net_mmio::{NetView, VirtioNetMmio};
use super::queue;
use super::queue::Descriptor;
use super::regs;
use super::regs::QueueState;
use super::ring_laws;
use super::ring_laws::Buffer;
use crate::devices::device::{Device, IrqLine};

verus! {

/// What the buffers that the device is to read hold, one behind the other.
pub open spec fn posted(m: GuestMem, bufs: Seq<Buffer>) -> Seq<u8>
    decreases bufs.len(),
{
    if bufs.len() == 0 {
        seq![]
    } else {
        let more = posted(m, bufs.skip(1));
        if bufs[0].writable {
            more
        } else {
            Seq::new(bufs[0].len as nat, |j: int| m[bufs[0].addr + j]) + more
        }
    }
}

/// Whether the buffers of the `i`th waiting chain are there and hold no more than a frame may
/// have.
pub open spec fn can_be_sent(m: GuestMem, q: QueueState, i: int) -> bool {
    let bufs = ring_laws::chain_at(m, q, i);
    &&& forall|j: int|
        0 <= j < bufs.len() && !(#[trigger] bufs[j]).writable ==> ring_laws::in_reach(
            m,
            bufs[j].addr,
            bufs[j].len,
        )
    &&& posted(m, bufs).len() <= 2048
}

/// The frames of the waiting chains from the `j`th to before the `k`th: one for each that holds
/// more than the twelve bytes of a header.
pub open spec fn frames_from(m: GuestMem, q: QueueState, j: int, k: int) -> Seq<Seq<u8>>
    decreases k - j,
{
    if j >= k {
        seq![]
    } else if posted(m, ring_laws::chain_at(m, q, j)).len() > 12 {
        seq![frame_at(m, q, j)] + frames_from(m, q, j + 1, k)
    } else {
        frames_from(m, q, j + 1, k)
    }
}

/// Where every chain carries a frame, there is one frame for each, in order.
proof fn every_frame(m: GuestMem, q: QueueState, j: int, k: int)
    requires
        0 <= j <= k,
        forall|i: int| j <= i < k ==> #[trigger] carries_frame(m, q, i),
    ensures
        frames_from(m, q, j, k) == Seq::new((k - j) as nat, |i: int| frame_at(m, q, j + i)),
    decreases k - j,
{
    if j < k {
        assert(carries_frame(m, q, j));
        every_frame(m, q, j + 1, k);
    }
    assert(frames_from(m, q, j, k) =~= Seq::new(
        (k - j) as nat,
        |i: int| frame_at(m, q, j + i),
    ));
}

/// Whether the `i`th waiting chain carries a frame: its buffers are there, and hold more than
/// the twelve bytes of a header and no more than a frame may have.
pub open spec fn carries_frame(m: GuestMem, q: QueueState, i: int) -> bool {
    let bufs = ring_laws::chain_at(m, q, i);
    &&& forall|j: int|
        0 <= j < bufs.len() && !(#[trigger] bufs[j]).writable ==> ring_laws::in_reach(
            m,
            bufs[j].addr,
            bufs[j].len,
        )
    &&& 12 < posted(m, bufs).len() <= 2048
}

/// The frame of the `i`th waiting chain: what its buffers hold behind the header.
pub open spec fn frame_at(m: GuestMem, q: QueueState, i: int) -> Seq<u8> {
    posted(m, ring_laws::chain_at(m, q, i)).skip(12)
}

/// Whether a backend may go from `a` to `b` by sending these frames, in order.
pub open spec fn handed<N: NetBackend>(a: N, frames: Seq<Seq<u8>>, b: N) -> bool
    decreases frames.len(),
{
    if frames.len() == 0 {
        b == a
    } else {
        exists|mid: N|
            #[trigger] mid.transmits(frames.last(), &b) && handed(a, frames.drop_last(), mid)
    }
}

/// What the card hands to the backend goes there one frame at a time, in order.
proof fn sending_hands_over<N: NetBackend>(a: N, frames: Seq<Seq<u8>>, b: N)
    requires
        net_mmio::sent_all(a, frames, b),
    ensures
        handed(a, frames, b),
    decreases frames.len(),
{
    if frames.len() > 0 {
        let mid = choose|mid: N|
            net_mmio::sent_all(a, frames.drop_last(), mid) && #[trigger] mid.transmits(
                frames.last(),
                &b,
            );
        sending_hands_over(a, frames.drop_last(), mid);
    }
}

/// Whether nothing but the used ring differs between two memories.
pub open spec fn used_ring_alone(m: GuestMem, r: GuestMem, q: QueueState) -> bool {
    &&& r.dom() == m.dom()
    &&& forall|a: int|
        m.dom().contains(a) && !(q.used <= a < q.used + 4 + 8 * q.num) ==> #[trigger] r[a] == m[a]
}

/// A chain has the same buffers where the descriptor table is the same.
proof fn buffers_same(m: GuestMem, r: GuestMem, q: QueueState, idx: int, fuel: nat)
    requires
        ring_laws::laid_out(m, q),
        used_ring_alone(m, r, q),
        0 <= idx < q.num,
    ensures
        ring_laws::buffers(r, q, idx, fuel) == ring_laws::buffers(m, q, idx, fuel),
    decreases fuel,
{
    reveal(ring_laws::laid_out);
    if fuel > 0 {
        descriptor_same(m, r, q, idx);
        assert(ring_laws::descriptor_sound(m, q, idx));
        if let Some(next) = ring_laws::following(m, q, idx) {
            assert(0 <= next < q.num);
            buffers_same(m, r, q, next, (fuel - 1) as nat);
        }
    }
}

/// A descriptor is the same where the descriptor table is.
proof fn descriptor_same(m: GuestMem, r: GuestMem, q: QueueState, idx: int)
    requires
        ring_laws::laid_out(m, q),
        used_ring_alone(m, r, q),
        0 <= idx < q.num,
    ensures
        ring_laws::buffer_at(r, q, idx) == ring_laws::buffer_at(m, q, idx),
        ring_laws::following(r, q, idx) == ring_laws::following(m, q, idx),
{
    reveal(ring_laws::laid_out);
    let d = ring_laws::descriptor_at(q, idx);
    assert forall|a: int| d <= a < d + 16 implies #[trigger] r[a] == m[a] by {
        assert(m.dom().contains(a));
    }
}

/// The queue is the driver's still, and the same chains wait, where only the used ring differs.
#[verifier::rlimit(60)]
#[verifier::spinoff_prover]
proof fn layout_same(m: GuestMem, r: GuestMem, q: QueueState)
    requires
        ring_laws::laid_out(m, q),
        used_ring_alone(m, r, q),
    ensures
        ring_laws::laid_out(r, q),
        ring_laws::driver_at(r, q) == ring_laws::driver_at(m, q),
        ring_laws::waiting(r, q) == ring_laws::waiting(m, q),
        forall|i: int| #[trigger] ring_laws::head_at(r, q, i) == ring_laws::head_at(m, q, i),
        forall|i: int| #[trigger] ring_laws::chain_at(r, q, i) == ring_laws::chain_at(m, q, i),
{
    reveal(ring_laws::laid_out);
    let v = q.avail as int;
    assert forall|a: int| v <= a < v + 4 + 2 * q.num implies #[trigger] r[a] == m[a] by {
        assert(m.dom().contains(a));
    }
    assert forall|i: int| #[trigger]
        ring_laws::head_at(r, q, i) == ring_laws::head_at(m, q, i) by {
        let slot = (q.last_avail_idx + i) % 0x1_0000 % q.num as int;
        assert(0 <= slot < q.num);
        let a = v + 4 + 2 * slot;
        assert(r[a] == m[a] && r[a + 1] == m[a + 1]);
    }
    assert(r[v + 2] == m[v + 2] && r[v + 3] == m[v + 3]);
    assert forall|i: int| 0 <= #[trigger] ring_laws::head_at(r, q, i) < q.num by {
        assert(0 <= ring_laws::head_at(m, q, i) < q.num);
    }
    assert forall|idx: int| 0 <= idx < q.num implies #[trigger] ring_laws::descriptor_sound(
        r,
        q,
        idx,
    ) by {
        assert(ring_laws::descriptor_sound(m, q, idx));
        descriptor_same(m, r, q, idx);
    }
    assert forall|i: int| #[trigger]
        ring_laws::chain_at(r, q, i) == ring_laws::chain_at(m, q, i) by {
        assert(0 <= ring_laws::head_at(m, q, i) < q.num);
        buffers_same(m, r, q, ring_laws::head_at(m, q, i), q.num as nat);
    }
}

/// Every buffer of a chain is no part of the queue.
proof fn chain_off_queue(m: GuestMem, q: QueueState, idx: int, fuel: nat)
    requires
        ring_laws::laid_out(m, q),
        0 <= idx < q.num,
    ensures
        forall|j: int|
            0 <= j < ring_laws::buffers(m, q, idx, fuel).len() ==> {
                let b = #[trigger] ring_laws::buffers(m, q, idx, fuel)[j];
                &&& b.len > 0 ==> ring_laws::off_queue(q, b.addr, b.len)
                &&& 0 <= b.addr < 0x1_0000_0000_0000_0000
                &&& 0 <= b.len < 0x1_0000_0000
            },
    decreases fuel,
{
    reveal(ring_laws::laid_out);
    if fuel > 0 {
        assert(ring_laws::descriptor_sound(m, q, idx));
        let b = ring_laws::buffer_at(m, q, idx);
        if let Some(next) = ring_laws::following(m, q, idx) {
            assert(0 <= next < q.num);
            chain_off_queue(m, q, next, (fuel - 1) as nat);
            let rest = ring_laws::buffers(m, q, next, (fuel - 1) as nat);
            assert forall|j: int| 0 <= j < (seq![b] + rest).len() implies ({
                let c = #[trigger] (seq![b] + rest)[j];
                &&& c.len > 0 ==> ring_laws::off_queue(q, c.addr, c.len)
                &&& 0 <= c.addr < 0x1_0000_0000_0000_0000
                &&& 0 <= c.len < 0x1_0000_0000
            }) by {
                if j > 0 {
                    assert((seq![b] + rest)[j] == rest[j - 1]);
                }
            }
        }
    }
}

/// What a chain's buffers hold is what the card gathers from it, also after the used ring has
/// moved on.
#[verifier::rlimit(60)]
#[verifier::spinoff_prover]
proof fn gathered_is_posted(
    m: GuestMem,
    r: GuestMem,
    q: QueueState,
    chain: Seq<Descriptor>,
    bufs: Seq<Buffer>,
)
    requires
        used_ring_alone(m, r, q),
        ring_laws::same_buffers(chain, bufs),
        forall|j: int|
            0 <= j < bufs.len() ==> ((#[trigger] bufs[j]).len > 0 ==> ring_laws::off_queue(
                q,
                bufs[j].addr,
                bufs[j].len,
            )),
        forall|j: int|
            0 <= j < bufs.len() && !(#[trigger] bufs[j]).writable ==> ring_laws::in_reach(
                m,
                bufs[j].addr,
                bufs[j].len,
            ),
    ensures
        net_laws::readable(r, chain) == posted(m, bufs),
        net_laws::readable_reachable(r, chain),
    decreases bufs.len(),
{
    assert forall|i: int| 0 <= i < chain.len() && !(#[trigger] chain[i]).write_only() implies guest::reachable(
        r,
        chain[i].addr as int,
        chain[i].len as int,
    ) by {
        assert(ring_laws::in_reach(m, bufs[i].addr, bufs[i].len));
        assert(ring_laws::in_reach(r, bufs[i].addr, bufs[i].len));
    }
    if bufs.len() > 0 {
        let rest = chain.skip(1);
        let more = bufs.skip(1);
        assert forall|i: int| 0 <= i < more.len() implies {
            &&& (#[trigger] rest[i]).addr == more[i].addr
            &&& rest[i].len == more[i].len
            &&& rest[i].write_only() == more[i].writable
        } by {
            assert(rest[i] == chain[i + 1] && more[i] == bufs[i + 1]);
        }
        assert forall|j: int| 0 <= j < more.len() && (#[trigger] more[j]).len > 0 implies ring_laws::off_queue(
            q,
            more[j].addr,
            more[j].len,
        ) by {
            assert(more[j] == bufs[j + 1]);
        }
        assert forall|j: int| 0 <= j < more.len() && !(#[trigger] more[j]).writable implies ring_laws::in_reach(
            m,
            more[j].addr,
            more[j].len,
        ) by {
            assert(more[j] == bufs[j + 1]);
        }
        gathered_is_posted(m, r, q, rest, more);
        let b = bufs[0];
        assert(chain[0].addr == b.addr);
        if !b.writable {
            assert(ring_laws::in_reach(m, bufs[0].addr, bufs[0].len));
            assert(guest::load(r, b.addr, b.len) =~= Seq::new(
                b.len as nat,
                |j: int| m[b.addr + j],
            )) by {
                assert forall|a: int| b.addr <= a < b.addr + b.len implies #[trigger] r[a] == m[a] by {
                    assert(m.dom().contains(a));
                    assert(ring_laws::off_queue(q, bufs[0].addr, bufs[0].len));
                }
            }
        }
    }
}

/// Whether a transmit queue is laid out and every chain that waits in it can be sent.
#[verifier::opaque]
pub open spec fn ready_to_send(m: GuestMem, q: QueueState) -> bool {
    &&& ring_laws::laid_out(m, q)
    &&& forall|i: int| 0 <= i < ring_laws::waiting(m, q) ==> #[trigger] can_be_sent(m, q, i)
}

/// The chain that the card takes next carries the frame that the driver put there.
#[verifier::rlimit(60)]
#[verifier::spinoff_prover]
proof fn next_frame<A: GuestAccess>(m: GuestMem, r: GuestMem, q: QueueState, j: int)
    requires
        ready_to_send(m, q),
        used_ring_alone(m, r, q),
        0 <= j < ring_laws::waiting(m, q),
    ensures
        ({
            let cfg = q.config_spec();
            let head = ring_laws::head_at(m, q, j) as u16;
            let last = ((q.last_avail_idx + j) % 0x1_0000) as u16;
            let next = queue::used_step::<A>(r, cfg, head, 0).0;
            &&& queue::next_head(r, cfg, last) == Some(head)
            &&& net_mmio::tx_frame(r, cfg, head) == if posted(
                m,
                ring_laws::chain_at(m, q, j),
            ).len() > 12 {
                Some(frame_at(m, q, j))
            } else {
                None
            }
            &&& used_ring_alone(m, next, q)
            &&& ring_laws::used_at(next, q) == (ring_laws::used_at(r, q) + 1) % 0x1_0000
        }),
{
    reveal(ring_laws::laid_out);
    reveal(ready_to_send);
    let cfg = q.config_spec();
    layout_same(m, r, q);
    ring_laws::next_is_taken(r, q, j);
    let head = ring_laws::head_at(m, q, j) as u16;
    assert(0 <= ring_laws::head_at(m, q, j) < q.num);
    assert(ring_laws::head_at(r, q, j) == ring_laws::head_at(m, q, j));
    let bufs = ring_laws::chain_at(m, q, j);
    let chain = queue::chain_from(r, q.desc, head, q.num as nat);
    ring_laws::waiting_chain_is_walked(r, q, j);
    assert(ring_laws::chain_at(r, q, j) == bufs);
    chain_off_queue(m, q, ring_laws::head_at(m, q, j), q.num as nat);
    assert(can_be_sent(m, q, j));
    gathered_is_posted(m, r, q, chain, bufs);
    if posted(m, bufs).len() > 12 {
        net_laws::tx_frame_is_posted(r, cfg, head);
    } else {
        net_laws::gather_all(r, chain, seq![]);
        assert(Seq::<u8>::empty() + net_laws::readable(r, chain) =~= net_laws::readable(r, chain));
    }
    ring_laws::used_entry_is_left::<A>(r, q, head, 0);
    let next = queue::used_step::<A>(r, cfg, head, 0).0;
    assert forall|a: int|
        m.dom().contains(a) && !(q.used <= a < q.used + 4 + 8 * q.num) implies #[trigger] next[a]
        == m[a] by {
        assert(r.dom().contains(a));
        assert(r[a] == m[a]);
    }
}

/// No chain is taken where none waits.
proof fn none_is_taken(m: GuestMem, r: GuestMem, q: QueueState)
    requires
        ready_to_send(m, q),
        used_ring_alone(m, r, q),
    ensures
        queue::next_head(
            r,
            q.config_spec(),
            ((q.last_avail_idx + ring_laws::waiting(m, q)) % 0x1_0000) as u16,
        ) is None,
{
    reveal(ready_to_send);
    layout_same(m, r, q);
    ring_laws::laid_out_parts(r, q, 0);
    ring_laws::next_is_taken(r, q, ring_laws::waiting(m, q));
}

/// One more, counted in a ring.
proof fn one_further(a: int, j: int, u: int, k: int)
    requires
        0 <= a,
        0 <= j,
    ensures
        (a + j) % 0x1_0000 < 0xffff ==> (a + j) % 0x1_0000 + 1 == (a + (j + 1)) % 0x1_0000,
        ((a + j) % 0x1_0000 + 1) % 0x1_0000 == (a + (j + 1)) % 0x1_0000,
        ((u + 1) % 0x1_0000 + (k - (j + 1))) % 0x1_0000 == (u + (k - j)) % 0x1_0000,
{
}

/// The frames that are left once `j` chains were served are those of the chains that still wait.
#[verifier::rlimit(60)]
#[verifier::spinoff_prover]
proof fn frames_left<A: GuestAccess>(
    m: GuestMem,
    r: GuestMem,
    q: QueueState,
    j: int,
    fuel: nat,
)
    requires
        ready_to_send(m, q),
        used_ring_alone(m, r, q),
        0 <= j <= ring_laws::waiting(m, q),
        fuel >= ring_laws::waiting(m, q) - j,
    ensures
        ({
            let last = ((q.last_avail_idx + j) % 0x1_0000) as u16;
            let k = ring_laws::waiting(m, q);
            let run = net_mmio::tx_run::<A>(r, q.config_spec(), last, fuel);
            &&& run.frames == frames_from(m, q, j, k)
            &&& run.served == k - j
            &&& run.last == (q.last_avail_idx + k) % 0x1_0000
            &&& used_ring_alone(m, run.mem, q)
            &&& ring_laws::used_at(run.mem, q) == (ring_laws::used_at(r, q) + (k - j)) % 0x1_0000
        }),
    decreases fuel,
{
    let cfg = q.config_spec();
    let last = ((q.last_avail_idx + j) % 0x1_0000) as u16;
    let k = ring_laws::waiting(m, q);
    let run = net_mmio::tx_run::<A>(r, cfg, last, fuel);
    if j < k {
        let head = ring_laws::head_at(m, q, j) as u16;
        next_frame::<A>(m, r, q, j);
        let next = queue::used_step::<A>(r, cfg, head, 0).0;
        one_further(q.last_avail_idx as int, j, ring_laws::used_at(r, q), k);
        assert(queue::next_index(last) == ((q.last_avail_idx + (j + 1)) % 0x1_0000) as u16);
        frames_left::<A>(m, next, q, j + 1, (fuel - 1) as nat);
        let rest = net_mmio::tx_run::<A>(next, cfg, queue::next_index(last), (fuel - 1) as nat);
        assert(rest.frames == frames_from(m, q, j + 1, k));
        assert(run.frames == frames_from(m, q, j, k));
    } else {
        none_is_taken(m, r, q);
        assert(0 <= ring_laws::used_at(r, q) < 0x1_0000);
    }
}

/// The number one, as a driver writes it to a register.
pub open spec fn register_one() -> Seq<u8> {
    seq![1u8, 0u8, 0u8, 0u8]
}

/// A notification of the transmit queue serves every chain that waits, in the order of the
/// available ring: those that hold more than a header have their frames sent, and all are given
/// back.
pub proof fn notification_serves_every_chain<N: NetBackend, A: GuestAccess, I: IrqLine>(
    d: VirtioNetMmio<N, A, I>,
    p: VirtioNetMmio<N, A, I>,
)
    requires
        d.writes(0x50, register_one(), &p),
        d@.tx.ready,
        ring_laws::laid_out(d@.mem.mem(), d@.tx),
        forall|i: int|
            0 <= i < ring_laws::waiting(d@.mem.mem(), d@.tx) ==> #[trigger] can_be_sent(
                d@.mem.mem(),
                d@.tx,
                i,
            ),
    ensures
        ({
            let m = d@.mem.mem();
            let q = d@.tx;
            let k = ring_laws::waiting(m, q);
            &&& handed(d@.backend, frames_from(m, q, 0, k), p@.backend)
            &&& used_ring_alone(m, p@.mem.mem(), q)
            &&& ring_laws::used_at(p@.mem.mem(), q) == (ring_laws::used_at(m, q) + k) % 0x1_0000
            &&& p@.tx.last_avail_idx == ring_laws::driver_at(m, q)
        }),
{
    assert(ready_to_send(d@.mem.mem(), d@.tx)) by {
        reveal(ready_to_send);
    }
    queue_is_served(d, p);
}

/// A notification of the transmit queue sends exactly the frames that wait, in the order of the
/// available ring: with `k` chains waiting there are `k` frames, and each is what its chain's
/// readable buffers hold behind the header. Then none waits, the used ring has moved on by `k`,
/// and the guest is interrupted if there was any.
#[verifier::rlimit(60)]
#[verifier::spinoff_prover]
pub proof fn notification_sends_what_waits<N: NetBackend, A: GuestAccess, I: IrqLine>(
    d: VirtioNetMmio<N, A, I>,
    p: VirtioNetMmio<N, A, I>,
)
    requires
        d.writes(0x50, register_one(), &p),
        d@.tx.ready,
        ring_laws::laid_out(d@.mem.mem(), d@.tx),
        forall|i: int|
            0 <= i < ring_laws::waiting(d@.mem.mem(), d@.tx) ==> #[trigger] carries_frame(
                d@.mem.mem(),
                d@.tx,
                i,
            ),
    ensures
        ({
            let m = d@.mem.mem();
            let q = d@.tx;
            let k = ring_laws::waiting(m, q);
            &&& handed(
                d@.backend,
                Seq::new(k as nat, |i: int| frame_at(m, q, i)),
                p@.backend,
            )
            &&& used_ring_alone(m, p@.mem.mem(), q)
            &&& ring_laws::used_at(p@.mem.mem(), q) == (ring_laws::used_at(m, q) + k) % 0x1_0000
            &&& p@.tx == (QueueState { last_avail_idx: p@.tx.last_avail_idx, ..q })
            &&& p@.tx.last_avail_idx == ring_laws::driver_at(m, q)
            &&& p@.rx == d@.rx
            &&& p@.held == d@.held
            &&& p@.mac == d@.mac
            &&& k > 0 ==> d@.irq.drives(true, &p@.irq) && p@.regs.interrupt_status % 2 == 1
            &&& k == 0 ==> p@.irq == d@.irq && p@.regs == d@.regs
        }),
{
    let m = d@.mem.mem();
    let q = d@.tx;
    assert(ready_to_send(m, q)) by {
        reveal(ready_to_send);
        assert forall|i: int| 0 <= i < ring_laws::waiting(m, q) implies #[trigger] can_be_sent(
            m,
            q,
            i,
        ) by {
            assert(carries_frame(m, q, i));
        }
    }
    queue_is_served(d, p);
    driver_is_ahead(m, q);
    let k = ring_laws::waiting(m, q);
    every_frame(m, q, 0, k);
    assert(Seq::new((k - 0) as nat, |i: int| frame_at(m, q, 0 + i)) =~= Seq::new(
        k as nat,
        |i: int| frame_at(m, q, i),
    ));
    let s = d@.regs.interrupt_status;
    assert((s | 1u32) % 2 == 1) by (bit_vector);
}

/// The driver's place, counted from the device's.
proof fn driver_is_ahead(m: GuestMem, q: QueueState)
    requires
        ready_to_send(m, q),
    ensures
        q.num > 0,
        0 <= ring_laws::waiting(m, q) < 0x1_0000,
        (q.last_avail_idx + ring_laws::waiting(m, q)) % 0x1_0000 == ring_laws::driver_at(m, q),
{
    reveal(ring_laws::laid_out);
    reveal(ready_to_send);
}

/// Serving a transmit queue whose chains carry frames.
#[verifier::rlimit(60)]
#[verifier::spinoff_prover]
proof fn queue_is_served<N: NetBackend, A: GuestAccess, I: IrqLine>(
    d: VirtioNetMmio<N, A, I>,
    p: VirtioNetMmio<N, A, I>,
)
    requires
        d.writes(0x50, register_one(), &p),
        d@.tx.ready,
        ready_to_send(d@.mem.mem(), d@.tx),
    ensures
        ({
            let m = d@.mem.mem();
            let q = d@.tx;
            let k = ring_laws::waiting(m, q);
            &&& handed(d@.backend, frames_from(m, q, 0, k), p@.backend)
            &&& used_ring_alone(m, p@.mem.mem(), q)
            &&& ring_laws::used_at(p@.mem.mem(), q) == (ring_laws::used_at(m, q) + k) % 0x1_0000
            &&& p@.tx == (QueueState { last_avail_idx: p@.tx.last_avail_idx, ..q })
            &&& p@.tx.last_avail_idx == ring_laws::driver_at(m, q)
            &&& p@.rx == d@.rx
            &&& p@.held == d@.held
            &&& p@.mac == d@.mac
            &&& k > 0 ==> d@.irq.drives(true, &p@.irq) && p@.regs.interrupt_status
                == d@.regs.interrupt_status | 1
            &&& k == 0 ==> p@.irq == d@.irq && p@.regs == d@.regs
        }),
{
    let m = d@.mem.mem();
    let q = d@.tx;
    notification_serves(d, p);
    driver_is_ahead(m, q);
    whole_run::<A>(m, q);
    let run = net_mmio::tx_run::<A>(
        m,
        q.config_spec(),
        q.last_avail_idx,
        net_mmio::TX_BATCH as nat,
    );
    sending_hands_over(d@.backend, run.frames, p@.backend);
}

/// A write of one to the notification register serves the transmit queue.
proof fn notification_serves<N: NetBackend, A: GuestAccess, I: IrqLine>(
    d: VirtioNetMmio<N, A, I>,
    p: VirtioNetMmio<N, A, I>,
)
    requires
        d.writes(0x50, register_one(), &p),
    ensures
        net_mmio::tx_served(d@, p@),
{
    assert(regs::reg_val(register_one()) == 1);
}

/// A run over a whole transmit queue.
#[verifier::rlimit(60)]
#[verifier::spinoff_prover]
proof fn whole_run<A: GuestAccess>(m: GuestMem, q: QueueState)
    requires
        ready_to_send(m, q),
    ensures
        ({
            let k = ring_laws::waiting(m, q);
            let run = net_mmio::tx_run::<A>(
                m,
                q.config_spec(),
                q.last_avail_idx,
                net_mmio::TX_BATCH as nat,
            );
            &&& run.frames == frames_from(m, q, 0, k)
            &&& run.served == k
            &&& run.last == (q.last_avail_idx + k) % 0x1_0000
            &&& used_ring_alone(m, run.mem, q)
            &&& ring_laws::used_at(run.mem, q) == (ring_laws::used_at(m, q) + k) % 0x1_0000
        }),
{
    let k = ring_laws::waiting(m, q);
    driver_is_ahead(m, q);
    frames_left::<A>(m, m, q, 0, net_mmio::TX_BATCH as nat);
    assert(((q.last_avail_idx + 0) % 0x1_0000) as u16 == q.last_avail_idx);
}

/// A notification of another queue, or of a transmit queue that is not ready, does nothing.
pub proof fn notification_is_passed_over<N: NetBackend, A: GuestAccess, I: IrqLine>(
    d: VirtioNetMmio<N, A, I>,
    data: Seq<u8>,
    p: VirtioNetMmio<N, A, I>,
)
    requires
        d.writes(0x50, data, &p),
        regs::reg_val(data) != 1 || !d@.tx.ready,
    ensures
        p@ == d@,
{
}

/// A chain that was sent is given back with nothing written into it: the used ring names it, with
/// no bytes, in the slot that the ring's index gives.
pub proof fn sent_chain_is_given_back<N: NetBackend, A: GuestAccess, I: IrqLine>(
    d: VirtioNetMmio<N, A, I>,
    p: VirtioNetMmio<N, A, I>,
)
    requires
        d.writes(0x50, register_one(), &p),
        d@.tx.ready,
        ring_laws::laid_out(d@.mem.mem(), d@.tx),
        ring_laws::waiting(d@.mem.mem(), d@.tx) == 1,
    ensures
        ({
            let m = d@.mem.mem();
            let q = d@.tx;
            let w = p@.mem.mem();
            let slot = q.used + 4 + 8 * (ring_laws::used_at(m, q) % q.num as int);
            &&& ring_laws::word32(w, slot) == ring_laws::head_at(m, q, 0)
            &&& ring_laws::word32(w, slot + 4) == 0
            &&& ring_laws::used_at(w, q) == (ring_laws::used_at(m, q) + 1) % 0x1_0000
            &&& used_ring_alone(m, w, q)
        }),
{
    let m = d@.mem.mem();
    let q = d@.tx;
    notification_serves(d, p);
    ring_laws::laid_out_parts(m, q, 0);
    one_chain_is_taken::<A>(m, q);
}

/// A run over one chain.
#[verifier::rlimit(60)]
#[verifier::spinoff_prover]
proof fn one_chain_is_taken<A: GuestAccess>(m: GuestMem, q: QueueState)
    requires
        ring_laws::laid_out(m, q),
        ring_laws::waiting(m, q) == 1,
    ensures
        net_mmio::tx_run::<A>(
            m,
            q.config_spec(),
            q.last_avail_idx,
            net_mmio::TX_BATCH as nat,
        ).mem == queue::used_step::<A>(
            m,
            q.config_spec(),
            ring_laws::head_at(m, q, 0) as u16,
            0,
        ).0,
        ({
            let head = ring_laws::head_at(m, q, 0) as u16;
            let w = queue::used_step::<A>(m, q.config_spec(), head, 0).0;
            let slot = q.used + 4 + 8 * (ring_laws::used_at(m, q) % q.num as int);
            &&& ring_laws::word32(w, slot) == ring_laws::head_at(m, q, 0)
            &&& ring_laws::word32(w, slot + 4) == 0
            &&& ring_laws::used_at(w, q) == (ring_laws::used_at(m, q) + 1) % 0x1_0000
            &&& used_ring_alone(m, w, q)
        }),
{
    let cfg = q.config_spec();
    let head = ring_laws::head_at(m, q, 0) as u16;
    ring_laws::laid_out_parts(m, q, 0);
    ring_laws::next_is_taken(m, q, 0);
    assert(((q.last_avail_idx + 0) % 0x1_0000) as u16 == q.last_avail_idx);
    ring_laws::used_entry_is_left::<A>(m, q, head, 0);
    let w = queue::used_step::<A>(m, cfg, head, 0).0;
    layout_same(m, w, q);
    ring_laws::laid_out_parts(w, q, 0);
    ring_laws::next_is_taken(w, q, 1);
    reveal_with_fuel(net_mmio::tx_run, 3);
}

/// One frame that waits is the frame that is sent.
pub proof fn single_frame_is_sent<N: NetBackend, A: GuestAccess, I: IrqLine>(
    d: VirtioNetMmio<N, A, I>,
    p: VirtioNetMmio<N, A, I>,
)
    requires
        d.writes(0x50, register_one(), &p),
        d@.tx.ready,
        ring_laws::laid_out(d@.mem.mem(), d@.tx),
        ring_laws::waiting(d@.mem.mem(), d@.tx) == 1,
        carries_frame(d@.mem.mem(), d@.tx, 0),
    ensures
        d@.backend.transmits(frame_at(d@.mem.mem(), d@.tx, 0), &p@.backend),
{
    notification_sends_what_waits(d, p);
    let frames = Seq::new(1, |i: int| frame_at(d@.mem.mem(), d@.tx, i));
    reveal_with_fuel(handed, 2);
    assert(frames.drop_last() =~= seq![]);
    let mid = choose|mid: N|
        #[trigger] mid.transmits(frames.last(), &p@.backend) && handed(
            d@.backend,
            frames.drop_last(),
            mid,
        );
    assert(mid == d@.backend);
}

/// What the buffers that the device is to write hold, one behind the other.
pub open spec fn filled(m: GuestMem, bufs: Seq<Buffer>) -> Seq<u8>
    decreases bufs.len(),
{
    if bufs.len() == 0 {
        seq![]
    } else {
        let more = filled(m, bufs.skip(1));
        if bufs[0].writable {
            Seq::new(bufs[0].len as nat, |j: int| m[bufs[0].addr + j]) + more
        } else {
            more
        }
    }
}

/// Whether the buffers that the device is to write are there and have no byte in common.
pub open spec fn can_be_filled(m: GuestMem, bufs: Seq<Buffer>) -> bool {
    &&& forall|i: int|
        0 <= i < bufs.len() && (#[trigger] bufs[i]).writable ==> ring_laws::in_reach(
            m,
            bufs[i].addr,
            bufs[i].len,
        )
    &&& forall|i: int, j: int|
        0 <= i < j < bufs.len() && (#[trigger] bufs[i]).writable && (#[trigger] bufs[j]).writable
            ==> ring_laws::disjoint(bufs[i].addr, bufs[i].len, bufs[j].addr, bufs[j].len)
}

/// The twelve bytes of a header that asks for nothing and says that the frame is in one chain.
pub open spec fn plain_header() -> Seq<u8> {
    seq![0u8, 0u8, 0u8, 0u8, 0u8, 0u8, 0u8, 0u8, 0u8, 0u8, 1u8, 0u8]
}

/// What is collected from a chain is the beginning of what its buffers hold.
#[verifier::rlimit(60)]
#[verifier::spinoff_prover]
proof fn collected_is_filled(m: GuestMem, chain: Seq<Descriptor>, bufs: Seq<Buffer>, n: int)
    requires
        ring_laws::same_buffers(chain, bufs),
        0 <= n <= filled(m, bufs).len(),
    ensures
        net_laws::collected(m, chain, n) == filled(m, bufs).take(n),
        net_laws::room(chain) == filled(m, bufs).len(),
    decreases bufs.len(),
{
    if bufs.len() > 0 {
        let rest = chain.skip(1);
        let more = bufs.skip(1);
        assert forall|i: int| 0 <= i < more.len() implies {
            &&& (#[trigger] rest[i]).addr == more[i].addr
            &&& rest[i].len == more[i].len
            &&& rest[i].write_only() == more[i].writable
        } by {
            assert(rest[i] == chain[i + 1] && more[i] == bufs[i + 1]);
        }
        let b = bufs[0];
        assert(chain[0].addr == b.addr);
        if b.writable {
            let k = if b.len < n {
                b.len
            } else {
                n
            };
            assert(b.len >= 0);
            collected_is_filled(m, rest, more, n - k);
            assert(net_laws::collected(m, chain, n) =~= filled(m, bufs).take(n));
        } else {
            collected_is_filled(m, rest, more, n);
        }
    }
    assert(net_laws::collected(m, chain, n) =~= filled(m, bufs).take(n));
}

/// What the buffers can hold does not depend on what they hold.
proof fn room_same(m: GuestMem, r: GuestMem, bufs: Seq<Buffer>)
    ensures
        filled(m, bufs).len() == filled(r, bufs).len(),
    decreases bufs.len(),
{
    if bufs.len() > 0 {
        room_same(m, r, bufs.skip(1));
    }
}

/// A header that asks for nothing, in bytes.
proof fn header_is_plain()
    ensures
        net::hdr_bytes(net::plain_hdr()) == plain_header(),
{
    assert(net::hdr_bytes(net::plain_hdr()) =~= plain_header());
}

/// A frame that comes in while a chain waits with room for it is found in that chain's buffers,
/// behind a plain header. The used ring names the chain and the number of bytes; the guest is
/// interrupted.
#[verifier::rlimit(60)]
#[verifier::spinoff_prover]
pub proof fn frame_reaches_guest<N: NetBackend, A: GuestAccess, I: IrqLine>(
    d: VirtioNetMmio<N, A, I>,
    frame: Seq<u8>,
    p: VirtioNetMmio<N, A, I>,
)
    requires
        net_mmio::rx_delivered(d@, frame, p@),
        d@.rx.ready,
        ring_laws::laid_out(d@.mem.mem(), d@.rx),
        ring_laws::waiting(d@.mem.mem(), d@.rx) > 0,
        can_be_filled(d@.mem.mem(), ring_laws::chain_at(d@.mem.mem(), d@.rx, 0)),
        12 + frame.len() <= filled(
            d@.mem.mem(),
            ring_laws::chain_at(d@.mem.mem(), d@.rx, 0),
        ).len(),
        12 + frame.len() <= u32::MAX,
    ensures
        ({
            let m = d@.mem.mem();
            let q = d@.rx;
            let r = p@.mem.mem();
            let slot = q.used + 4 + 8 * (ring_laws::used_at(m, q) % q.num as int);
            &&& filled(r, ring_laws::chain_at(m, q, 0)).take((12 + frame.len()) as int)
                == plain_header() + frame
            &&& ring_laws::used_at(r, q) == (ring_laws::used_at(m, q) + 1) % 0x1_0000
            &&& ring_laws::word32(r, slot) == ring_laws::head_at(m, q, 0)
            &&& ring_laws::word32(r, slot + 4) == 12 + frame.len()
            &&& p@.rx.last_avail_idx == (q.last_avail_idx + 1) % 0x1_0000
            &&& d@.irq.drives(true, &p@.irq)
            &&& p@.regs.interrupt_status % 2 == 1
            &&& p@.tx == d@.tx
            &&& p@.held == d@.held
            &&& p@.backend == d@.backend
        }),
{
    reveal(ring_laws::laid_out);
    let m = d@.mem.mem();
    let q = d@.rx;
    let cfg = q.config_spec();
    ring_laws::next_is_taken(m, q, 0);
    assert(((q.last_avail_idx + 0) % 0x1_0000) as u16 == q.last_avail_idx);
    let h = ring_laws::head_at(m, q, 0);
    assert(0 <= h < q.num);
    delivery_reads_back::<A>(m, q, frame);
    let s = d@.regs.interrupt_status;
    assert((s | 1u32) % 2 == 1) by (bit_vector);
}

/// What delivering a frame leaves in memory.
#[verifier::rlimit(60)]
#[verifier::spinoff_prover]
proof fn delivery_reads_back<A: GuestAccess>(m: GuestMem, q: QueueState, frame: Seq<u8>)
    requires
        ring_laws::laid_out(m, q),
        can_be_filled(m, ring_laws::chain_at(m, q, 0)),
        12 + frame.len() <= filled(m, ring_laws::chain_at(m, q, 0)).len(),
        12 + frame.len() <= u32::MAX,
    ensures
        ({
            let head = ring_laws::head_at(m, q, 0) as u16;
            let r = net_mmio::rx_fill::<A>(m, q.config_spec(), head, frame);
            let slot = q.used + 4 + 8 * (ring_laws::used_at(m, q) % q.num as int);
            &&& filled(r, ring_laws::chain_at(m, q, 0)).take((12 + frame.len()) as int)
                == plain_header() + frame
            &&& ring_laws::used_at(r, q) == (ring_laws::used_at(m, q) + 1) % 0x1_0000
            &&& ring_laws::word32(r, slot) == ring_laws::head_at(m, q, 0)
            &&& ring_laws::word32(r, slot + 4) == 12 + frame.len()
        }),
{
    reveal(ring_laws::laid_out);
    let cfg = q.config_spec();
    let h = ring_laws::head_at(m, q, 0);
    let head = h as u16;
    let bufs = ring_laws::chain_at(m, q, 0);
    let chain = queue::chain_from(m, q.desc, head, q.num as nat);
    ring_laws::waiting_chain_is_walked(m, q, 0);
    chain_off_queue(m, q, h, q.num as nat);
    let n = (12 + frame.len()) as int;
    collected_is_filled(m, chain, bufs, n);
    receive_conditions(m, q, chain, bufs);
    net_laws::rx_reads_back::<A>(m, cfg, head, frame);
    header_is_plain();
    let r = net_mmio::rx_fill::<A>(m, cfg, head, frame);
    room_same(m, r, bufs);
    collected_is_filled(r, chain, bufs, n);
    entry_in_words::<A>(m, r, q, head, n as u32);
}

/// A frame that comes in and is longer than the chain that waits has room fills that chain, behind
/// a plain header; the used ring says how many bytes were put there, and the guest is interrupted.
#[verifier::rlimit(60)]
#[verifier::spinoff_prover]
pub proof fn long_frame_fills_chain<N: NetBackend, A: GuestAccess, I: IrqLine>(
    d: VirtioNetMmio<N, A, I>,
    frame: Seq<u8>,
    p: VirtioNetMmio<N, A, I>,
)
    requires
        net_mmio::rx_delivered(d@, frame, p@),
        d@.rx.ready,
        ring_laws::laid_out(d@.mem.mem(), d@.rx),
        ring_laws::waiting(d@.mem.mem(), d@.rx) > 0,
        can_be_filled(d@.mem.mem(), ring_laws::chain_at(d@.mem.mem(), d@.rx, 0)),
        12 + frame.len() >= filled(
            d@.mem.mem(),
            ring_laws::chain_at(d@.mem.mem(), d@.rx, 0),
        ).len(),
        12 + frame.len() <= u32::MAX,
    ensures
        ({
            let m = d@.mem.mem();
            let q = d@.rx;
            let r = p@.mem.mem();
            let bufs = ring_laws::chain_at(m, q, 0);
            let slot = q.used + 4 + 8 * (ring_laws::used_at(m, q) % q.num as int);
            &&& filled(r, bufs) == (plain_header() + frame).take(filled(m, bufs).len() as int)
            &&& ring_laws::used_at(r, q) == (ring_laws::used_at(m, q) + 1) % 0x1_0000
            &&& ring_laws::word32(r, slot) == ring_laws::head_at(m, q, 0)
            &&& ring_laws::word32(r, slot + 4) == filled(m, bufs).len()
            &&& p@.rx.last_avail_idx == (q.last_avail_idx + 1) % 0x1_0000
            &&& d@.irq.drives(true, &p@.irq)
            &&& p@.regs.interrupt_status % 2 == 1
        }),
{
    let m = d@.mem.mem();
    let q = d@.rx;
    ring_laws::laid_out_parts(m, q, 0);
    ring_laws::next_is_taken(m, q, 0);
    assert(((q.last_avail_idx + 0) % 0x1_0000) as u16 == q.last_avail_idx);
    delivery_fills::<A>(m, q, frame);
    let s = d@.regs.interrupt_status;
    assert((s | 1u32) % 2 == 1) by (bit_vector);
}

/// What delivering a long frame leaves in memory.
#[verifier::rlimit(60)]
#[verifier::spinoff_prover]
proof fn delivery_fills<A: GuestAccess>(m: GuestMem, q: QueueState, frame: Seq<u8>)
    requires
        ring_laws::laid_out(m, q),
        can_be_filled(m, ring_laws::chain_at(m, q, 0)),
        12 + frame.len() >= filled(m, ring_laws::chain_at(m, q, 0)).len(),
        12 + frame.len() <= u32::MAX,
    ensures
        ({
            let head = ring_laws::head_at(m, q, 0) as u16;
            let r = net_mmio::rx_fill::<A>(m, q.config_spec(), head, frame);
            let bufs = ring_laws::chain_at(m, q, 0);
            let slot = q.used + 4 + 8 * (ring_laws::used_at(m, q) % q.num as int);
            &&& filled(r, bufs) == (plain_header() + frame).take(filled(m, bufs).len() as int)
            &&& ring_laws::used_at(r, q) == (ring_laws::used_at(m, q) + 1) % 0x1_0000
            &&& ring_laws::word32(r, slot) == ring_laws::head_at(m, q, 0)
            &&& ring_laws::word32(r, slot + 4) == filled(m, bufs).len()
        }),
{
    let cfg = q.config_spec();
    ring_laws::laid_out_parts(m, q, 0);
    let h = ring_laws::head_at(m, q, 0);
    let head = h as u16;
    let bufs = ring_laws::chain_at(m, q, 0);
    let chain = queue::chain_from(m, q.desc, head, q.num as nat);
    ring_laws::waiting_chain_is_walked(m, q, 0);
    chain_off_queue(m, q, h, q.num as nat);
    let n = filled(m, bufs).len() as int;
    collected_is_filled(m, chain, bufs, n);
    receive_conditions(m, q, chain, bufs);
    net_laws::rx_fills_what_fits::<A>(m, cfg, head, frame);
    header_is_plain();
    let r = net_mmio::rx_fill::<A>(m, cfg, head, frame);
    room_same(m, r, bufs);
    collected_is_filled(r, chain, bufs, n);
    assert(filled(r, bufs).take(n) =~= filled(r, bufs));
    entry_in_words::<A>(m, r, q, head, n as u32);
}

/// The used ring's words, as they are read.
#[verifier::rlimit(60)]
#[verifier::spinoff_prover]
proof fn entry_in_words<A: GuestAccess>(
    m: GuestMem,
    r: GuestMem,
    q: QueueState,
    head: u16,
    n: u32,
)
    requires
        ring_laws::laid_out(m, q),
        queue::used_index(r, q.config_spec()) == Some(
            queue::next_index(queue::used_index(m, q.config_spec())->0),
        ),
        guest::read32(
            r,
            queue::used_elem(q.config_spec(), queue::used_index(m, q.config_spec())->0),
        ) == Some(head as u32),
        guest::read32(
            r,
            queue::at(
                queue::used_elem(q.config_spec(), queue::used_index(m, q.config_spec())->0),
                4,
            ),
        ) == Some(n),
    ensures
        ({
            let slot = q.used + 4 + 8 * (ring_laws::used_at(m, q) % q.num as int);
            &&& ring_laws::used_at(r, q) == (ring_laws::used_at(m, q) + 1) % 0x1_0000
            &&& ring_laws::word32(r, slot) == head
            &&& ring_laws::word32(r, slot + 4) == n
        }),
{
    reveal(ring_laws::laid_out);
    let cfg = q.config_spec();
    ring_laws::laid_out_is_tidy(m, q);
    let idx = queue::used_index(m, cfg)->0;
    assert(0 <= ring_laws::used_at(m, q) < 0x1_0000);
    queue::used_elem_inside(cfg, idx);
    let elem = queue::used_elem(cfg, idx);
    ring_laws::reads_give_words(r, elem);
    ring_laws::reads_give_words(r, queue::at(elem, 4));
    ring_laws::reads_give_words(r, queue::at(cfg.used_ring, 2));
    assert(elem == q.used + 4 + 8 * (ring_laws::used_at(m, q) % q.num as int));
    assert(0 <= ring_laws::word32(r, elem as int) < 0x1_0000_0000);
    assert(0 <= ring_laws::word32(r, elem + 4) < 0x1_0000_0000);
    assert(0 <= ring_laws::used_at(r, q) < 0x1_0000);
}

/// Buffers that are there and lie apart are such for the card.
proof fn receive_conditions(m: GuestMem, q: QueueState, chain: Seq<Descriptor>, bufs: Seq<Buffer>)
    requires
        ring_laws::laid_out(m, q),
        ring_laws::same_buffers(chain, bufs),
        can_be_filled(m, bufs),
        forall|j: int|
            0 <= j < bufs.len() ==> {
                let b = #[trigger] bufs[j];
                b.len > 0 ==> ring_laws::off_queue(q, b.addr, b.len)
            },
    ensures
        queue::used_ring_reachable(m, q.config_spec()),
        net_laws::writable_reachable(m, chain),
        net_laws::writable_apart(chain),
        forall|i: int, a: int|
            0 <= i < chain.len() && (#[trigger] chain[i]).write_only() && q.used <= a < q.used + 4
                + 8 * q.num ==> !#[trigger] net_laws::in_buffer(chain[i], a),
{
    reveal(ring_laws::laid_out);
    ring_laws::reach_is_presence(m, q.used as int, 4 + 8 * q.num);
    assert forall|i: int| 0 <= i < chain.len() && (#[trigger] chain[i]).write_only() implies guest::reachable(
        m,
        chain[i].addr as int,
        chain[i].len as int,
    ) by {
        assert(bufs[i].writable);
        ring_laws::reach_is_presence(m, bufs[i].addr, bufs[i].len);
    }
    assert forall|i: int, j: int, a: int|
        0 <= i < j < chain.len() && (#[trigger] chain[i]).write_only() && (
        #[trigger] chain[j]).write_only() implies !(#[trigger] net_laws::in_buffer(chain[i], a)
        && net_laws::in_buffer(chain[j], a)) by {
        assert(bufs[i].writable && bufs[j].writable);
    }
    assert forall|i: int, a: int|
        0 <= i < chain.len() && (#[trigger] chain[i]).write_only() && q.used <= a < q.used + 4 + 8
            * q.num implies !#[trigger] net_laws::in_buffer(chain[i], a) by {
        assert(bufs[i].len > 0 ==> ring_laws::off_queue(q, bufs[i].addr, bufs[i].len));
    }
}

/// A frame for which no chain waits changes nothing.
pub proof fn frame_without_buffer<N: NetBackend, A: GuestAccess, I: IrqLine>(
    d: VirtioNetMmio<N, A, I>,
    frame: Seq<u8>,
    p: VirtioNetMmio<N, A, I>,
)
    requires
        net_mmio::rx_delivered(d@, frame, p@),
        !d@.rx.ready || (ring_laws::laid_out(d@.mem.mem(), d@.rx) && ring_laws::waiting(
            d@.mem.mem(),
            d@.rx,
        ) == 0),
    ensures
        p@ == d@,
{
    reveal(ring_laws::laid_out);
    if d@.rx.ready {
        let m = d@.mem.mem();
        let q = d@.rx;
        ring_laws::next_is_taken(m, q, 0);
        assert(((q.last_avail_idx + 0) % 0x1_0000) as u16 == q.last_avail_idx);
    }
}

/// Delivering a frame and polling for one are what these laws speak of. A poll hands a frame
/// that is held back on before it asks the host; without one it asks the host once, and what
/// came is delivered or held back.
pub proof fn receiving_calls<N: NetBackend, A: GuestAccess, I: IrqLine>(
    frame: &[u8],
    took: bool,
    r: std::io::Result<bool>,
)
    ensures
        forall|s: &mut VirtioNetMmio<N, A, I>| #[trigger]
            call_ensures(VirtioNetMmio::<N, A, I>::deliver_rx, (s, frame), took) ==> {
                &&& net_mmio::rx_delivered((*s)@, frame@, (*final(s))@)
                &&& took == net_mmio::rx_open((*s)@)
            },
        forall|s: &mut VirtioNetMmio<N, A, I>| #[trigger]
            call_ensures(VirtioNetMmio::<N, A, I>::poll_rx_once, (s,), r) ==> {
                let v = (*s)@;
                let w = (*final(s))@;
                &&& net_mmio::polled(v, w, r)
                &&& v.held is Some ==> w.backend == v.backend
                &&& v.held is None ==> exists|got: std::io::Result<Option<Vec<u8>>>|
                    #[trigger] v.backend.receives(got, &w.backend) && came(v, w, got, r)
            },
{
}

/// Whether what the host gave is what came of a poll: no frame, or a failure, changes nothing
/// of the card; a frame is delivered where a chain waits for it, and is held back otherwise.
pub open spec fn came<N: NetBackend, A: GuestAccess, I: IrqLine>(
    v: NetView<N, A, I>,
    w: NetView<N, A, I>,
    got: std::io::Result<Option<Vec<u8>>>,
    r: std::io::Result<bool>,
) -> bool {
    match got {
        Ok(None) => {
            &&& r == Ok::<bool, std::io::Error>(false)
            &&& w == (NetView { backend: w.backend, ..v })
        },
        Err(e) => {
            &&& r == Err::<bool, std::io::Error>(e)
            &&& w == (NetView { backend: w.backend, ..v })
        },
        Ok(Some(frame)) => {
            if net_mmio::rx_open(v) {
                &&& r == Ok::<bool, std::io::Error>(true)
                &&& w.held is None
                &&& net_mmio::rx_delivered(NetView { backend: w.backend, ..v }, frame@, w)
            } else {
                &&& r == Ok::<bool, std::io::Error>(false)
                &&& w == (NetView { backend: w.backend, held: Some(frame@), ..v })
            }
        },
    }
}

} // verus!
