//! What the network card promises as a whole: a served transmit queue is drained, a
//! transmitted frame is what the driver posted, and a delivered one reads back.

use vstd::prelude::*;

use super::guest;
use super::guest::{GuestAccess, GuestMem};
use super::net;
use super::net::{NetBackend, VIRTIO_NET_HDR_LEN};
use super::net_mmio;
use super::net_mmio::{NetView, MAX_FRAME};
use super::queue;
use super::queue::{Descriptor, QueueConfig};
use crate::devices::device::IrqLine;

verus! {

/// An available ring of `size` slots that can be reached, without wrapping.
pub open spec fn avail_ring_reachable(m: GuestMem, cfg: QueueConfig) -> bool {
    &&& cfg.size != 0
    &&& guest::mapped(m, cfg.avail_ring as int, 4 + 2 * cfg.size)
}

/// Whether the two rings of a queue share no byte.
pub open spec fn rings_apart(cfg: QueueConfig) -> bool {
    ||| cfg.avail_ring + 4 + 2 * cfg.size <= cfg.used_ring
    ||| cfg.used_ring + 4 + 8 * cfg.size <= cfg.avail_ring
}

/// Recording a used chain leaves an available ring that lies apart as it was.
#[verifier::rlimit(60)]
#[verifier::spinoff_prover]
pub proof fn used_keeps_avail<A: GuestAccess>(m: GuestMem, cfg: QueueConfig, head: u16, len: u32)
    requires
        queue::used_ring_reachable(m, cfg),
        avail_ring_reachable(m, cfg),
        rings_apart(cfg),
    ensures
        ({
            let r = queue::used_step::<A>(m, cfg, head, len).0;
            &&& queue::used_ring_reachable(r, cfg)
            &&& avail_ring_reachable(r, cfg)
            &&& queue::avail_index(r, cfg) == queue::avail_index(m, cfg)
            &&& forall|last: u16| queue::next_head(r, cfg, last) == queue::next_head(m, cfg, last)
        }),
{
    let r = queue::used_step::<A>(m, cfg, head, len).0;
    queue::used_step_law::<A>(m, cfg, head, len);
    let v = cfg.avail_ring as int;
    queue::used_elem_inside(cfg, queue::used_index(m, cfg)->0);
    assert forall|a: int| v <= a < v + 4 + 2 * cfg.size implies #[trigger] r[a] == m[a] by {
        assert(m.dom().contains(a));
    }
    guest::read16_same(m, r, (v + 2) as u64);
    assert forall|last: u16| queue::next_head(r, cfg, last) == queue::next_head(m, cfg, last) by {
        avail_slot_inside(cfg, last);
        guest::read16_same(m, r, queue::at(cfg.avail_ring, 4 + 2 * (last as int % cfg.size as int)));
    }
}

/// The slot of an available ring that lies in memory without wrapping stands inside it.
pub proof fn avail_slot_inside(cfg: QueueConfig, last: u16)
    requires
        cfg.size != 0,
        cfg.avail_ring + 4 + 2 * cfg.size <= guest::address_end(),
    ensures
        ({
            let slot = queue::at(cfg.avail_ring, 4 + 2 * (last as int % cfg.size as int));
            cfg.avail_ring + 4 <= slot && slot + 2 <= cfg.avail_ring + 4 + 2 * cfg.size
        }),
{
    let s = last as int % cfg.size as int;
    assert(0 <= s < cfg.size);
}

/// A run over a transmit queue whose rings can be reached and lie apart serves every chain
/// that was pending, each once, and leaves nothing pending.
#[verifier::rlimit(40)]
pub proof fn tx_drains<A: GuestAccess>(m: GuestMem, cfg: QueueConfig, last: u16, fuel: nat)
    requires
        queue::used_ring_reachable(m, cfg),
        avail_ring_reachable(m, cfg),
        rings_apart(cfg),
        fuel >= queue::pending_count(m, cfg, last),
    ensures
        ({
            let run = net_mmio::tx_run::<A>(m, cfg, last, fuel);
            &&& run.served == queue::pending_count(m, cfg, last)
            &&& Some(run.last) == queue::avail_index(m, cfg)
            &&& queue::avail_index(run.mem, cfg) == queue::avail_index(m, cfg)
            &&& !queue::pending(run.mem, cfg, run.last)
            &&& queue::used_index(run.mem, cfg) == Some(
                ((queue::used_index(m, cfg)->0 + run.served) % 0x1_0000) as u16,
            )
        }),
    decreases fuel,
{
    let v = cfg.avail_ring as int;
    assert(guest::mapped(m, v + 2, 2));
    assert(guest::mapped(m, cfg.used_ring + 2, 2));
    queue::pop_counts_down(m, cfg, last);
    avail_slot_inside(cfg, last);
    assert(guest::mapped(
        m,
        queue::at(cfg.avail_ring, 4 + 2 * (last as int % cfg.size as int)) as int,
        2,
    ));
    if fuel > 0 {
        if let Some(head) = queue::next_head(m, cfg, last) {
            let m1 = queue::used_step::<A>(m, cfg, head, 0).0;
            used_keeps_avail::<A>(m, cfg, head, 0);
            queue::used_step_law::<A>(m, cfg, head, 0);
            queue::pending_same(m, m1, cfg, queue::next_index(last));
            tx_drains::<A>(m1, cfg, queue::next_index(last), (fuel - 1) as nat);
            let rest = net_mmio::tx_run::<A>(m1, cfg, queue::next_index(last), (fuel - 1) as nat);
            index_steps(queue::used_index(m, cfg)->0, rest.served);
        } else {
            assert(!queue::pending(m, cfg, last));
        }
    }
}

/// Moving an index on by one and then by `k` moves it on by `k + 1`.
proof fn index_steps(i: u16, k: nat)
    ensures
        (queue::next_index(i) + k) % 0x1_0000 == (i + (k + 1)) % 0x1_0000,
{
}

/// What the device-readable buffers of a chain hold, one behind the other.
pub open spec fn readable(m: GuestMem, chain: Seq<Descriptor>) -> Seq<u8>
    decreases chain.len(),
{
    if chain.len() == 0 {
        seq![]
    } else if chain[0].write_only() {
        readable(m, chain.skip(1))
    } else {
        guest::load(m, chain[0].addr as int, chain[0].len as int) + readable(m, chain.skip(1))
    }
}

/// Whether every device-readable buffer of a chain can be reached.
pub open spec fn readable_reachable(m: GuestMem, chain: Seq<Descriptor>) -> bool {
    forall|i: int|
        0 <= i < chain.len() && !(#[trigger] chain[i]).write_only() ==> guest::reachable(
            m,
            chain[i].addr as int,
            chain[i].len as int,
        )
}

/// Gathering a chain that can be reached and is no longer than a frame may be gives all that
/// its device-readable buffers hold.
pub proof fn gather_all(m: GuestMem, chain: Seq<Descriptor>, acc: Seq<u8>)
    requires
        readable_reachable(m, chain),
        acc.len() + readable(m, chain).len() <= MAX_FRAME,
    ensures
        net_mmio::gather(m, chain, acc) == acc + readable(m, chain),
    decreases chain.len(),
{
    if chain.len() == 0 {
        assert(acc + readable(m, chain) =~= acc);
    } else {
        let d = chain[0];
        let rest = chain.skip(1);
        assert forall|i: int| 0 <= i < rest.len() && !(#[trigger] rest[i]).write_only() implies guest::reachable(
            m,
            rest[i].addr as int,
            rest[i].len as int,
        ) by {
            assert(rest[i] == chain[i + 1]);
        }
        if d.write_only() {
            gather_all(m, rest, acc);
        } else {
            let b = guest::load(m, d.addr as int, d.len as int);
            gather_all(m, rest, acc + b);
            assert(acc + b + readable(m, rest) =~= acc + readable(m, chain));
        }
    }
}

/// However much a chain that can be reached holds, what is gathered is the beginning of it: all of
/// it, or more than a frame may have.
pub proof fn gathering_stops_late(m: GuestMem, chain: Seq<Descriptor>, acc: Seq<u8>)
    requires
        readable_reachable(m, chain),
        acc.len() <= 2048,
    ensures
        ({
            let got = net_mmio::gather(m, chain, acc);
            let all = acc + readable(m, chain);
            &&& got.len() <= all.len()
            &&& got == all.take(got.len() as int)
            &&& got.len() == all.len() || got.len() > 2048
        }),
    decreases chain.len(),
{
    let got = net_mmio::gather(m, chain, acc);
    let all = acc + readable(m, chain);
    if chain.len() > 0 {
        let d = chain[0];
        let rest = chain.skip(1);
        assert forall|i: int| 0 <= i < rest.len() && !(#[trigger] rest[i]).write_only() implies guest::reachable(
            m,
            rest[i].addr as int,
            rest[i].len as int,
        ) by {
            assert(rest[i] == chain[i + 1]);
        }
        if d.write_only() {
            gathering_stops_late(m, rest, acc);
        } else {
            let b = guest::load(m, d.addr as int, d.len as int);
            assert(acc + b + readable(m, rest) =~= all);
            if (acc + b).len() <= 2048 {
                gathering_stops_late(m, rest, acc + b);
            }
        }
    }
    assert(got =~= all.take(got.len() as int));
}

/// A transmitted frame is what the driver's buffers hold behind the twelve bytes of header.
pub proof fn tx_frame_is_posted(m: GuestMem, cfg: QueueConfig, head: u16)
    requires
        ({
            let chain = queue::chain_from(m, cfg.desc_table, head, cfg.size as nat);
            &&& readable_reachable(m, chain)
            &&& VIRTIO_NET_HDR_LEN < readable(m, chain).len() <= MAX_FRAME
        }),
    ensures
        ({
            let chain = queue::chain_from(m, cfg.desc_table, head, cfg.size as nat);
            net_mmio::tx_frame(m, cfg, head) == Some(
                readable(m, chain).skip(VIRTIO_NET_HDR_LEN as int),
            )
        }),
{
    let chain = queue::chain_from(m, cfg.desc_table, head, cfg.size as nat);
    gather_all(m, chain, seq![]);
    assert(Seq::<u8>::empty() + readable(m, chain) =~= readable(m, chain));
}

/// Whether `a` lies in the buffer of `d`.
pub open spec fn in_buffer(d: Descriptor, a: int) -> bool {
    d.addr <= a < d.addr + d.len
}

/// Whether every device-writable buffer of a chain can be reached.
pub open spec fn writable_reachable(m: GuestMem, chain: Seq<Descriptor>) -> bool {
    forall|i: int|
        0 <= i < chain.len() && (#[trigger] chain[i]).write_only() ==> guest::reachable(
            m,
            chain[i].addr as int,
            chain[i].len as int,
        )
}

/// Whether no two device-writable buffers of a chain share a byte.
pub open spec fn writable_apart(chain: Seq<Descriptor>) -> bool {
    forall|i: int, j: int, a: int|
        0 <= i < j < chain.len() && (#[trigger] chain[i]).write_only() && (
        #[trigger] chain[j]).write_only() ==> !(#[trigger] in_buffer(chain[i], a) && in_buffer(
            chain[j],
            a,
        ))
}

/// How many bytes the device-writable buffers of a chain take.
pub open spec fn room(chain: Seq<Descriptor>) -> nat
    decreases chain.len(),
{
    if chain.len() == 0 {
        0
    } else if chain[0].write_only() {
        chain[0].len as nat + room(chain.skip(1))
    } else {
        room(chain.skip(1))
    }
}

/// The first `n` bytes of the device-writable buffers of a chain, one behind the other: what
/// the guest finds in a receive buffer.
pub open spec fn collected(m: GuestMem, chain: Seq<Descriptor>, n: int) -> Seq<u8>
    decreases chain.len(),
{
    if chain.len() == 0 || n <= 0 {
        seq![]
    } else {
        let d = chain[0];
        if !d.write_only() {
            collected(m, chain.skip(1), n)
        } else {
            let k = if d.len < n {
                d.len as int
            } else {
                n
            };
            guest::load(m, d.addr as int, k) + collected(m, chain.skip(1), n - k)
        }
    }
}

/// Spreading a payload over a chain changes nothing outside its device-writable buffers.
pub proof fn scatter_stays_inside<A: GuestAccess>(
    m: GuestMem,
    chain: Seq<Descriptor>,
    payload: Seq<u8>,
    off: int,
)
    requires
        0 <= off,
    ensures
        net_mmio::scatter::<A>(m, chain, payload, off).0.dom() == m.dom(),
        forall|a: int|
            m.dom().contains(a) && (forall|i: int|
                0 <= i < chain.len() && (#[trigger] chain[i]).write_only() ==> !in_buffer(
                    chain[i],
                    a,
                )) ==> #[trigger] net_mmio::scatter::<A>(m, chain, payload, off).0[a] == m[a],
    decreases chain.len(),
{
    if chain.len() > 0 {
        let d = chain[0];
        let rest = chain.skip(1);
        let r = net_mmio::scatter::<A>(m, chain, payload, off).0;
        let mut m1 = m;
        if !d.write_only() {
            scatter_stays_inside::<A>(m, rest, payload, off);
        } else if off < payload.len() {
            let n = if d.len < payload.len() - off {
                d.len as int
            } else {
                payload.len() - off
            };
            let part = payload.subrange(off, off + n);
            guest::write_run_law::<A>(m, d.addr as int, part);
            let w = guest::write_run::<A>(m, d.addr as int, part);
            m1 = w.0;
            scatter_stays_inside::<A>(w.0, rest, payload, off + n);
        }
        assert forall|a: int|
            m.dom().contains(a) && (forall|i: int|
                0 <= i < chain.len() && (#[trigger] chain[i]).write_only() ==> !in_buffer(
                    chain[i],
                    a,
                )) implies #[trigger] r[a] == m[a] by {
            assert forall|i: int| 0 <= i < rest.len() && (#[trigger] rest[i]).write_only() implies !in_buffer(rest[i], a) by {
                assert(rest[i] == chain[i + 1]);
            }
            assert(d.write_only() ==> !in_buffer(chain[0], a));
            assert(m1[a] == m[a]);
        }
    }
}

/// A payload spread over buffers that can be reached, lie apart and have room for it is found
/// there whole.
pub proof fn scatter_collects<A: GuestAccess>(
    m: GuestMem,
    chain: Seq<Descriptor>,
    payload: Seq<u8>,
    off: int,
)
    requires
        0 <= off <= payload.len(),
        writable_reachable(m, chain),
        writable_apart(chain),
        room(chain) >= payload.len() - off,
    ensures
        net_mmio::scatter::<A>(m, chain, payload, off).1 == payload.len(),
        collected(
            net_mmio::scatter::<A>(m, chain, payload, off).0,
            chain,
            payload.len() - off,
        ) == payload.skip(off),
    decreases chain.len(),
{
    let left = payload.len() - off;
    let r = net_mmio::scatter::<A>(m, chain, payload, off);
    if left == 0 {
        assert(payload.skip(off) =~= seq![]);
        scatter_full::<A>(m, chain, payload);
    } else {
        let d = chain[0];
        let rest = chain.skip(1);
        assert(forall|i: int| 0 <= i < rest.len() ==> #[trigger] rest[i] == chain[i + 1]);
        assert(writable_apart(rest)) by {
            assert forall|i: int, j: int, a: int|
                0 <= i < j < rest.len() && (#[trigger] rest[i]).write_only() && (
                #[trigger] rest[j]).write_only() implies !(#[trigger] in_buffer(rest[i], a)
                && in_buffer(rest[j], a)) by {
                assert(in_buffer(chain[i + 1], a) == in_buffer(rest[i], a));
                assert(chain[j + 1].write_only());
            }
        }
        if !d.write_only() {
            scatter_collects::<A>(m, rest, payload, off);
        } else {
            let n = if d.len < left {
                d.len as int
            } else {
                left
            };
            let part = payload.subrange(off, off + n);
            let w = guest::write_run::<A>(m, d.addr as int, part);
            guest::write_run_law::<A>(m, d.addr as int, part);
            assert(guest::reachable(m, chain[0].addr as int, chain[0].len as int));
            guest::reachable_part(m, d.addr as int, d.len as int, n);
            assert(w.1);
            assert(guest::load(w.0, d.addr as int, n) =~= part);
            assert(writable_reachable(w.0, rest));
            scatter_collects::<A>(w.0, rest, payload, off + n);
            scatter_stays_inside::<A>(w.0, rest, payload, off + n);
            assert forall|a: int| d.addr <= a < d.addr + n implies #[trigger] r.0[a] == w.0[a] by {
                assert(in_buffer(chain[0], a));
                assert(m.dom().contains(a));
                assert(w.0.dom().contains(a));
                assert forall|i: int| 0 <= i < rest.len() && (#[trigger] rest[i]).write_only() implies !in_buffer(rest[i], a) by {
                    assert(chain[i + 1].write_only());
                }
            }
            assert(guest::load(r.0, d.addr as int, n) =~= part);
            assert(payload.skip(off) =~= part + payload.skip(off + n));
        }
    }
}

/// A payload for which the buffers have no more than room fills them, from its beginning on.
pub proof fn scatter_fills<A: GuestAccess>(
    m: GuestMem,
    chain: Seq<Descriptor>,
    payload: Seq<u8>,
    off: int,
)
    requires
        0 <= off <= payload.len(),
        writable_reachable(m, chain),
        writable_apart(chain),
        room(chain) <= payload.len() - off,
    ensures
        net_mmio::scatter::<A>(m, chain, payload, off).1 == off + room(chain),
        collected(
            net_mmio::scatter::<A>(m, chain, payload, off).0,
            chain,
            room(chain) as int,
        ) == payload.subrange(off, off + room(chain)),
    decreases chain.len(),
{
    let left = payload.len() - off;
    let r = net_mmio::scatter::<A>(m, chain, payload, off);
    if left == 0 {
        assert(payload.subrange(off, off + room(chain)) =~= seq![]);
        scatter_full::<A>(m, chain, payload);
    } else if chain.len() == 0 {
        assert(payload.subrange(off, off + room(chain)) =~= seq![]);
    } else {
        let d = chain[0];
        let rest = chain.skip(1);
        assert(forall|i: int| 0 <= i < rest.len() ==> #[trigger] rest[i] == chain[i + 1]);
        assert(writable_apart(rest)) by {
            assert forall|i: int, j: int, a: int|
                0 <= i < j < rest.len() && (#[trigger] rest[i]).write_only() && (
                #[trigger] rest[j]).write_only() implies !(#[trigger] in_buffer(rest[i], a)
                && in_buffer(rest[j], a)) by {
                assert(in_buffer(chain[i + 1], a) == in_buffer(rest[i], a));
                assert(chain[j + 1].write_only());
            }
        }
        if !d.write_only() {
            scatter_fills::<A>(m, rest, payload, off);
            if room(chain) == 0 {
                assert(payload.subrange(off, off + room(chain)) =~= seq![]);
            }
        } else {
            let n = d.len as int;
            let part = payload.subrange(off, off + n);
            let w = guest::write_run::<A>(m, d.addr as int, part);
            guest::write_run_law::<A>(m, d.addr as int, part);
            assert(guest::reachable(m, chain[0].addr as int, chain[0].len as int));
            assert(w.1);
            assert(guest::load(w.0, d.addr as int, n) =~= part);
            assert(writable_reachable(w.0, rest));
            scatter_fills::<A>(w.0, rest, payload, off + n);
            scatter_stays_inside::<A>(w.0, rest, payload, off + n);
            assert forall|a: int| d.addr <= a < d.addr + n implies #[trigger] r.0[a] == w.0[a] by {
                assert(in_buffer(chain[0], a));
                assert(m.dom().contains(a));
                assert(w.0.dom().contains(a));
                assert forall|i: int| 0 <= i < rest.len() && (#[trigger] rest[i]).write_only() implies !in_buffer(rest[i], a) by {
                    assert(chain[i + 1].write_only());
                }
            }
            assert(guest::load(r.0, d.addr as int, n) =~= part);
            assert(payload.subrange(off, off + room(chain)) =~= part + payload.subrange(
                off + n,
                off + n + room(rest),
            ));
            if room(chain) == 0 {
                assert(collected(r.0, chain, 0) =~= seq![]);
            }
        }
    }
}

/// A payload that has been spread whole takes nothing more of a chain.
proof fn scatter_full<A: GuestAccess>(m: GuestMem, chain: Seq<Descriptor>, payload: Seq<u8>)
    ensures
        net_mmio::scatter::<A>(m, chain, payload, payload.len() as int) == (
            m,
            payload.len() as int,
        ),
    decreases chain.len(),
{
    if chain.len() > 0 {
        scatter_full::<A>(m, chain.skip(1), payload);
    }
}

/// A delivered frame reads back: where the buffers of the chain can be reached, lie apart from
/// each other and from the used ring and have room, the guest finds a header that says one
/// buffer, then the frame. The used ring moves on by one element, which names the chain and
/// the number of bytes put into it.
#[verifier::rlimit(60)]
#[verifier::spinoff_prover]
pub proof fn rx_reads_back<A: GuestAccess>(m: GuestMem, cfg: QueueConfig, head: u16, frame: Seq<u8>)
    requires
        queue::used_ring_reachable(m, cfg),
        frame.len() + VIRTIO_NET_HDR_LEN <= u32::MAX,
        ({
            let chain = queue::chain_from(m, cfg.desc_table, head, cfg.size as nat);
            &&& writable_reachable(m, chain)
            &&& writable_apart(chain)
            &&& room(chain) >= frame.len() + VIRTIO_NET_HDR_LEN
            &&& forall|i: int, a: int|
                0 <= i < chain.len() && (#[trigger] chain[i]).write_only() && cfg.used_ring <= a
                    < cfg.used_ring + 4 + 8 * cfg.size ==> !#[trigger] in_buffer(chain[i], a)
        }),
    ensures
        ({
            let chain = queue::chain_from(m, cfg.desc_table, head, cfg.size as nat);
            let r = net_mmio::rx_fill::<A>(m, cfg, head, frame);
            let n = frame.len() + VIRTIO_NET_HDR_LEN;
            let idx = queue::used_index(m, cfg)->0;
            &&& collected(r, chain, n) == net::hdr_bytes(net::plain_hdr()) + frame
            &&& queue::used_index(r, cfg) == Some(queue::next_index(idx))
            &&& guest::read32(r, queue::used_elem(cfg, idx)) == Some(head as u32)
            &&& guest::read32(r, queue::at(queue::used_elem(cfg, idx), 4)) == Some(n as u32)
        }),
{
    let chain = queue::chain_from(m, cfg.desc_table, head, cfg.size as nat);
    let payload = net_mmio::rx_payload(frame);
    net::hdr_roundtrip(net::plain_hdr());
    scatter_collects::<A>(m, chain, payload, 0);
    scatter_stays_inside::<A>(m, chain, payload, 0);
    assert(payload.skip(0) =~= payload);
    let put = net_mmio::scatter::<A>(m, chain, payload, 0);
    let u = cfg.used_ring as int;
    assert forall|a: int| u <= a < u + 4 + 8 * cfg.size implies #[trigger] put.0[a] == m[a] by {
        assert(m.dom().contains(a));
        assert(forall|i: int|
            0 <= i < chain.len() && (#[trigger] chain[i]).write_only() ==> !in_buffer(chain[i], a));
    }
    assert(queue::used_ring_reachable(put.0, cfg));
    guest::read16_same(m, put.0, queue::at(cfg.used_ring, 2));
    let idx = queue::used_index(m, cfg)->0;
    queue::used_elem_inside(cfg, idx);
    let len = payload.len() as u32;
    queue::used_step_law::<A>(put.0, cfg, head, len);
    let r = queue::used_step::<A>(put.0, cfg, head, len).0;
    assert forall|i: int, a: int|
        0 <= i < chain.len() && (#[trigger] chain[i]).write_only() && #[trigger] in_buffer(
            chain[i],
            a,
        ) implies r[a] == put.0[a] by {
        assert(guest::reachable(m, chain[i].addr as int, chain[i].len as int));
        assert(m.dom().contains(a));
        assert(put.0.dom().contains(a));
        assert(!(u <= a < u + 4 + 8 * cfg.size));
    }
    collected_same(put.0, r, chain, payload.len() as int);
}

/// A frame that is longer than the buffers of a chain fills them: the guest finds a header that
/// says one buffer, then as much of the frame as there was room for. The used ring moves on by
/// one element, which names the chain and the number of bytes put into it.
#[verifier::rlimit(60)]
#[verifier::spinoff_prover]
pub proof fn rx_fills_what_fits<A: GuestAccess>(m: GuestMem, cfg: QueueConfig, head: u16, frame: Seq<u8>)
    requires
        queue::used_ring_reachable(m, cfg),
        frame.len() + VIRTIO_NET_HDR_LEN <= u32::MAX,
        ({
            let chain = queue::chain_from(m, cfg.desc_table, head, cfg.size as nat);
            &&& writable_reachable(m, chain)
            &&& writable_apart(chain)
            &&& room(chain) <= frame.len() + VIRTIO_NET_HDR_LEN
            &&& forall|i: int, a: int|
                0 <= i < chain.len() && (#[trigger] chain[i]).write_only() && cfg.used_ring <= a
                    < cfg.used_ring + 4 + 8 * cfg.size ==> !#[trigger] in_buffer(chain[i], a)
        }),
    ensures
        ({
            let chain = queue::chain_from(m, cfg.desc_table, head, cfg.size as nat);
            let r = net_mmio::rx_fill::<A>(m, cfg, head, frame);
            let n = room(chain);
            let idx = queue::used_index(m, cfg)->0;
            &&& collected(r, chain, n as int) == (net::hdr_bytes(net::plain_hdr()) + frame).take(n as int)
            &&& queue::used_index(r, cfg) == Some(queue::next_index(idx))
            &&& guest::read32(r, queue::used_elem(cfg, idx)) == Some(head as u32)
            &&& guest::read32(r, queue::at(queue::used_elem(cfg, idx), 4)) == Some(n as u32)
        }),
{
    let chain = queue::chain_from(m, cfg.desc_table, head, cfg.size as nat);
    let payload = net_mmio::rx_payload(frame);
    net::hdr_roundtrip(net::plain_hdr());
    scatter_fills::<A>(m, chain, payload, 0);
    scatter_stays_inside::<A>(m, chain, payload, 0);
    assert(payload.subrange(0, room(chain) as int) =~= payload.take(room(chain) as int));
    let put = net_mmio::scatter::<A>(m, chain, payload, 0);
    let u = cfg.used_ring as int;
    assert forall|a: int| u <= a < u + 4 + 8 * cfg.size implies #[trigger] put.0[a] == m[a] by {
        assert(m.dom().contains(a));
        assert(forall|i: int|
            0 <= i < chain.len() && (#[trigger] chain[i]).write_only() ==> !in_buffer(chain[i], a));
    }
    assert(queue::used_ring_reachable(put.0, cfg));
    guest::read16_same(m, put.0, queue::at(cfg.used_ring, 2));
    let idx = queue::used_index(m, cfg)->0;
    queue::used_elem_inside(cfg, idx);
    let len = room(chain) as u32;
    queue::used_step_law::<A>(put.0, cfg, head, len);
    let r = queue::used_step::<A>(put.0, cfg, head, len).0;
    assert forall|i: int, a: int|
        0 <= i < chain.len() && (#[trigger] chain[i]).write_only() && #[trigger] in_buffer(
            chain[i],
            a,
        ) implies r[a] == put.0[a] by {
        assert(guest::reachable(m, chain[i].addr as int, chain[i].len as int));
        assert(m.dom().contains(a));
        assert(put.0.dom().contains(a));
        assert(!(u <= a < u + 4 + 8 * cfg.size));
    }
    collected_same(put.0, r, chain, room(chain) as int);
}

/// A frame that came in is not lost: while it is held back it stays held, and it ceases to be
/// only when the guest has a buffer for it, into which it then goes.
pub proof fn held_frame_is_kept<N: NetBackend, A: GuestAccess, I: IrqLine>(
    v: NetView<N, A, I>,
    w: NetView<N, A, I>,
    r: std::io::Result<bool>,
    frame: Seq<u8>,
)
    requires
        v.held == Some(frame),
        net_mmio::polled(v, w, r),
    ensures
        if net_mmio::rx_open(v) {
            &&& r == Ok::<bool, std::io::Error>(true)
            &&& w.held is None
            &&& w.mem.mem() == net_mmio::rx_fill::<A>(
                v.mem.mem(),
                v.rx.config_spec(),
                queue::next_head(v.mem.mem(), v.rx.config_spec(), v.rx.last_avail_idx)->0,
                frame,
            )
        } else {
            &&& r == Ok::<bool, std::io::Error>(false)
            &&& w == v
        },
{
    let v0 = NetView { held: None, ..v };
    let w0 = NetView { held: None, ..w };
    assert(net_mmio::rx_open(v0) == net_mmio::rx_open(v));
    assert(w == NetView { held: w.held, ..w0 });
    assert(v == NetView { held: v.held, ..v0 });
}

/// What a chain holds depends on the bytes of its buffers alone.
proof fn collected_same(m: GuestMem, r: GuestMem, chain: Seq<Descriptor>, n: int)
    requires
        forall|i: int, a: int|
            0 <= i < chain.len() && (#[trigger] chain[i]).write_only() && #[trigger] in_buffer(
                chain[i],
                a,
            ) ==> r[a] == m[a],
    ensures
        collected(r, chain, n) == collected(m, chain, n),
    decreases chain.len(),
{
    if chain.len() > 0 && n > 0 {
        let d = chain[0];
        let rest = chain.skip(1);
        assert(forall|i: int| 0 <= i < rest.len() ==> #[trigger] rest[i] == chain[i + 1]);
        if !d.write_only() {
            collected_same(m, r, rest, n);
        } else {
            let k = if d.len < n {
                d.len as int
            } else {
                n
            };
            collected_same(m, r, rest, n - k);
            assert forall|a: int| d.addr <= a < d.addr + k implies #[trigger] r[a] == m[a] by {
                assert(in_buffer(chain[0], a));
            }
            assert(guest::load(r, d.addr as int, k) =~= guest::load(m, d.addr as int, k));
        }
    }
}

} // verus!
