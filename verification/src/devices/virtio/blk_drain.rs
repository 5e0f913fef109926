//! A job of the block device serves every request that is pending, whatever the disk answers,
//! on a queue that the driver has laid out soundly.

use vstd::prelude::*;

use super::blk_laws;
use super::guest;
use super::guest::{GuestAccess, GuestMem};
use super::mmio;
use super::mmio::{BlkReq, BlkRun, BlkStop, DiskReply, JOB_LIMIT};
use super::net_laws;
use super::queue;
use super::queue::{Descriptor, QueueConfig};

verus! {

/// How many bytes a device may write at the address of a descriptor: its buffer, and at least a
/// status byte.
pub open spec fn cover(d: Descriptor) -> int {
    if d.len == 0 {
        1
    } else {
        d.len as int
    }
}

/// Whether a run of addresses lies apart from all that makes up the queue: its descriptor table
/// and its two rings.
pub open spec fn clear(cfg: QueueConfig, addr: int, n: int) -> bool {
    &&& blk_laws::apart(addr, n, cfg.avail_ring as int, 4 + 2 * cfg.size)
    &&& blk_laws::apart(addr, n, cfg.used_ring as int, 4 + 8 * cfg.size)
    &&& blk_laws::apart(addr, n, cfg.desc_table as int, 16 * cfg.size)
}

/// Whether descriptor `idx` leads nowhere but into the table, and its buffer lies apart from the
/// queue.
pub open spec fn sound_descriptor(m: GuestMem, cfg: QueueConfig, idx: u16) -> bool {
    queue::desc_at(m, cfg.desc_table, idx) matches Some(d) && (d.chained() ==> d.next < cfg.size)
        && clear(cfg, d.addr as int, cover(d))
}

/// Whether a slot of the available ring names a descriptor of the table.
pub open spec fn sound_slot(m: GuestMem, cfg: QueueConfig, last: u16) -> bool {
    queue::next_head(m, cfg, last) matches Some(head) ==> head < cfg.size
}

/// A queue that the driver has laid out soundly: table and rings can be reached and lie apart,
/// and all that they name stays within the table and apart from the queue.
#[verifier::opaque]
pub open spec fn tidy(m: GuestMem, cfg: QueueConfig) -> bool {
    &&& net_laws::avail_ring_reachable(m, cfg)
    &&& queue::used_ring_reachable(m, cfg)
    &&& net_laws::rings_apart(cfg)
    &&& guest::mapped(m, cfg.desc_table as int, 16 * cfg.size)
    &&& blk_laws::apart(
        cfg.desc_table as int,
        16 * cfg.size,
        cfg.avail_ring as int,
        4 + 2 * cfg.size,
    )
    &&& blk_laws::apart(
        cfg.desc_table as int,
        16 * cfg.size,
        cfg.used_ring as int,
        4 + 8 * cfg.size,
    )
    &&& forall|last: u16| #[trigger] sound_slot(m, cfg, last)
    &&& forall|idx: u16| idx < cfg.size ==> #[trigger] sound_descriptor(m, cfg, idx)
}

/// Whether the descriptor table and the available ring are the same in both memories.
#[verifier::opaque]
pub open spec fn same_queue(m: GuestMem, r: GuestMem, cfg: QueueConfig) -> bool {
    &&& r.dom() == m.dom()
    &&& forall|a: int|
        cfg.avail_ring <= a < cfg.avail_ring + 4 + 2 * cfg.size ==> #[trigger] r[a] == m[a]
    &&& forall|a: int|
        cfg.desc_table <= a < cfg.desc_table + 16 * cfg.size ==> #[trigger] r[a] == m[a]
}

/// The index `k` further, wrapping at 16 bits.
#[verifier::opaque]
pub open spec fn moved(i: u16, k: int) -> u16 {
    ((i + k) % 0x1_0000) as u16
}

/// A descriptor is the same where the table is.
proof fn descriptor_same(m: GuestMem, r: GuestMem, cfg: QueueConfig, idx: u16)
    requires
        guest::mapped(m, cfg.desc_table as int, 16 * cfg.size),
        same_queue(m, r, cfg),
        idx < cfg.size,
    ensures
        queue::desc_at(r, cfg.desc_table, idx) == queue::desc_at(m, cfg.desc_table, idx),
{
    reveal(same_queue);
    let base = queue::at(cfg.desc_table, 16 * idx);
    assert(base == cfg.desc_table + 16 * idx);
    assert(queue::at(base, 8) == base + 8);
    assert(queue::at(base, 12) == base + 12);
    assert(queue::at(base, 14) == base + 14);
    guest::read64_same(m, r, base);
    guest::read32_same(m, r, queue::at(base, 8));
    guest::read16_same(m, r, queue::at(base, 12));
    guest::read16_same(m, r, queue::at(base, 14));
}

/// A queue is laid out soundly wherever its table and its available ring are the same, and the
/// same chains are pending.
proof fn tidy_same(m: GuestMem, r: GuestMem, cfg: QueueConfig)
    requires
        tidy(m, cfg),
        same_queue(m, r, cfg),
    ensures
        tidy(r, cfg),
        queue::avail_index(r, cfg) == queue::avail_index(m, cfg),
        forall|last: u16| #[trigger]
            queue::pending_count(r, cfg, last) == queue::pending_count(m, cfg, last),
        forall|last: u16| #[trigger]
            queue::next_head(r, cfg, last) == queue::next_head(m, cfg, last),
{
    reveal(tidy);
    reveal(same_queue);
    assert(queue::at(cfg.avail_ring, 2) == cfg.avail_ring + 2);
    guest::read16_same(m, r, queue::at(cfg.avail_ring, 2));
    assert forall|last: u16| #[trigger]
        queue::pending_count(r, cfg, last) == queue::pending_count(m, cfg, last) by {
        queue::pending_same(m, r, cfg, last);
    }
    assert forall|last: u16| #[trigger]
        queue::next_head(r, cfg, last) == queue::next_head(m, cfg, last) by {
        net_laws::avail_slot_inside(cfg, last);
        guest::read16_same(
            m,
            r,
            queue::at(cfg.avail_ring, 4 + 2 * (last as int % cfg.size as int)),
        );
    }
    assert forall|last: u16| #[trigger] sound_slot(r, cfg, last) by {
        assert(sound_slot(m, cfg, last));
    }
    assert forall|idx: u16| idx < cfg.size implies #[trigger] sound_descriptor(r, cfg, idx) by {
        assert(sound_descriptor(m, cfg, idx));
        descriptor_same(m, r, cfg, idx);
    }
}

/// The driver's index is the same wherever the available ring is.
pub proof fn tidy_kept(m: GuestMem, r: GuestMem, cfg: QueueConfig)
    requires
        tidy(m, cfg),
        same_queue(m, r, cfg),
    ensures
        queue::avail_index(r, cfg) == queue::avail_index(m, cfg),
{
    tidy_same(m, r, cfg);
}

/// A queue is the same as itself.
proof fn same_self(m: GuestMem, cfg: QueueConfig)
    ensures
        same_queue(m, m, cfg),
{
    reveal(same_queue);
}

/// What is the same twice is the same.
proof fn same_twice(m: GuestMem, r: GuestMem, t: GuestMem, cfg: QueueConfig)
    requires
        same_queue(m, r, cfg),
        same_queue(r, t, cfg),
    ensures
        same_queue(m, t, cfg),
{
    reveal(same_queue);
}

/// In a queue that is laid out soundly the indices can be read, and a head names a descriptor.
proof fn tidy_reads(m: GuestMem, cfg: QueueConfig, last: u16)
    requires
        tidy(m, cfg),
    ensures
        queue::used_index(m, cfg) is Some,
        queue::avail_index(m, cfg) is Some,
        sound_slot(m, cfg, last),
{
    reveal(tidy);
    assert(guest::mapped(m, cfg.used_ring + 2, 2));
    assert(queue::at(cfg.used_ring, 2) == cfg.used_ring + 2);
    assert(guest::mapped(m, cfg.avail_ring + 2, 2));
    assert(queue::at(cfg.avail_ring, 2) == cfg.avail_ring + 2);
}

/// Every descriptor of a chain lies apart from the queue.
proof fn chain_clear(m: GuestMem, cfg: QueueConfig, head: u16, fuel: nat)
    requires
        tidy(m, cfg),
        head < cfg.size,
    ensures
        forall|i: int|
            0 <= i < queue::chain_from(m, cfg.desc_table, head, fuel).len() ==> {
                let d = #[trigger] queue::chain_from(m, cfg.desc_table, head, fuel)[i];
                clear(cfg, d.addr as int, cover(d))
            },
    decreases fuel,
{
    reveal(tidy);
    if fuel > 0 {
        assert(sound_descriptor(m, cfg, head));
        let d = queue::desc_at(m, cfg.desc_table, head)->0;
        if d.chained() {
            chain_clear(m, cfg, d.next, (fuel - 1) as nat);
            let rest = queue::chain_from(m, cfg.desc_table, d.next, (fuel - 1) as nat);
            assert forall|i: int| 0 <= i < (seq![d] + rest).len() implies ({
                let e = #[trigger] (seq![d] + rest)[i];
                clear(cfg, e.addr as int, cover(e))
            }) by {
                if i > 0 {
                    assert((seq![d] + rest)[i] == rest[i - 1]);
                }
            }
        }
    }
}

/// Whether all that a request writes into lies apart from the queue.
pub open spec fn clear_request(cfg: QueueConfig, req: BlkReq) -> bool {
    &&& clear(cfg, req.status_at as int, 1)
    &&& forall|i: int|
        0 <= i < req.data.len() ==> clear(
            cfg,
            (#[trigger] req.data[i]).addr as int,
            cover(req.data[i]),
        )
}

/// A request in a queue that is laid out soundly writes apart from it, and has fewer buffers
/// than the queue has descriptors.
proof fn request_clear(m: GuestMem, cfg: QueueConfig, head: u16)
    requires
        tidy(m, cfg),
        head < cfg.size,
        mmio::request_at(m, cfg, head) is Some,
    ensures
        clear_request(cfg, mmio::request_at(m, cfg, head)->0),
        mmio::request_at(m, cfg, head)->0.data.len() + 2 <= cfg.size,
{
    let chain = queue::chain_from(m, cfg.desc_table, head, cfg.size as nat);
    let req = mmio::request_at(m, cfg, head)->0;
    chain_clear(m, cfg, head, cfg.size as nat);
    queue::chain_bounded(m, cfg.desc_table, head, cfg.size as nat);
    let end = chain[chain.len() - 1];
    assert(clear(cfg, end.addr as int, cover(end)));
    assert forall|i: int| 0 <= i < req.data.len() implies clear(
        cfg,
        (#[trigger] req.data[i]).addr as int,
        cover(req.data[i]),
    ) by {
        assert(req.data[i] == chain[i + 1]);
    }
}

/// A write apart from the queue keeps the queue and both its indices.
proof fn write_keeps<A: GuestAccess>(m: GuestMem, cfg: QueueConfig, addr: u64, b: Seq<u8>)
    requires
        tidy(m, cfg),
        clear(cfg, addr as int, b.len() as int),
    ensures
        ({
            let r = guest::write_run::<A>(m, addr as int, b).0;
            same_queue(m, r, cfg) && queue::used_index(r, cfg) == queue::used_index(m, cfg)
        }),
{
    reveal(tidy);
    reveal(same_queue);
    let r = guest::write_run::<A>(m, addr as int, b).0;
    guest::write_run_law::<A>(m, addr as int, b);
    assert forall|a: int|
        cfg.avail_ring <= a < cfg.avail_ring + 4 + 2 * cfg.size implies #[trigger] r[a] == m[a] by {
        assert(m.dom().contains(a));
    }
    assert forall|a: int|
        cfg.desc_table <= a < cfg.desc_table + 16 * cfg.size implies #[trigger] r[a] == m[a] by {
        assert(m.dom().contains(a));
    }
    assert forall|a: int|
        cfg.used_ring <= a < cfg.used_ring + 4 + 8 * cfg.size implies #[trigger] r[a] == m[a] by {
        assert(m.dom().contains(a));
    }
    assert(queue::at(cfg.used_ring, 2) == cfg.used_ring + 2);
    guest::read16_same(m, r, queue::at(cfg.used_ring, 2));
}

/// Recording a used chain keeps the table and the available ring, and moves the used ring's
/// index on by one.
proof fn used_keeps<A: GuestAccess>(m: GuestMem, cfg: QueueConfig, head: u16, len: u32)
    requires
        tidy(m, cfg),
    ensures
        ({
            let r = queue::used_step::<A>(m, cfg, head, len).0;
            &&& same_queue(m, r, cfg)
            &&& queue::used_index(m, cfg) is Some
            &&& queue::used_index(r, cfg) == Some(
                queue::next_index(queue::used_index(m, cfg)->0),
            )
        }),
{
    reveal(tidy);
    reveal(same_queue);
    let r = queue::used_step::<A>(m, cfg, head, len).0;
    queue::used_step_law::<A>(m, cfg, head, len);
    queue::used_elem_inside(cfg, queue::used_index(m, cfg)->0);
    assert forall|a: int|
        cfg.avail_ring <= a < cfg.avail_ring + 4 + 2 * cfg.size implies #[trigger] r[a] == m[a] by {
        assert(m.dom().contains(a));
    }
    assert forall|a: int|
        cfg.desc_table <= a < cfg.desc_table + 16 * cfg.size implies #[trigger] r[a] == m[a] by {
        assert(m.dom().contains(a));
    }
}

/// Ending a request keeps the table and the available ring, and moves the used ring's index on
/// by one.
proof fn ended_keeps<A: GuestAccess>(m: GuestMem, cfg: QueueConfig, req: BlkReq, status: u8)
    requires
        tidy(m, cfg),
        clear_request(cfg, req),
    ensures
        ({
            let r = mmio::ended::<A>(m, cfg, req, status);
            &&& same_queue(m, r, cfg)
            &&& tidy(r, cfg)
            &&& queue::used_index(m, cfg) is Some
            &&& queue::used_index(r, cfg) == Some(
                queue::next_index(queue::used_index(m, cfg)->0),
            )
        }),
{
    let one = seq![status];
    write_keeps::<A>(m, cfg, req.status_at, one);
    let m1 = guest::write_run::<A>(m, req.status_at as int, one).0;
    tidy_same(m, m1, cfg);
    used_keeps::<A>(m1, cfg, req.head, ((req.written + 1) % 0x1_0000_0000) as u32);
    let r = mmio::ended::<A>(m, cfg, req, status);
    same_twice(m, m1, r, cfg);
    tidy_same(m, r, cfg);
}

/// A reply of the disk keeps the queue; a request that goes on has one buffer less.
proof fn answered_keeps<A: GuestAccess>(
    m: GuestMem,
    cfg: QueueConfig,
    req: BlkReq,
    reply: DiskReply,
)
    requires
        tidy(m, cfg),
        clear_request(cfg, req),
    ensures
        ({
            let (r, next) = mmio::answered::<A>(m, req, reply);
            &&& same_queue(m, r, cfg)
            &&& tidy(r, cfg)
            &&& queue::used_index(r, cfg) == queue::used_index(m, cfg)
            &&& next matches Ok(more) ==> {
                &&& clear_request(cfg, more)
                &&& req.data.len() > 0
                &&& more.data.len() == req.data.len() - 1
                &&& more.kind == req.kind
                &&& more.kind != super::block::VIRTIO_BLK_T_FLUSH
            }
        }),
{
    reveal(mmio::answered);
    let (r, next) = mmio::answered::<A>(m, req, reply);
    if req.data.len() > 0 {
        let d = req.data[0];
        assert(clear(cfg, d.addr as int, cover(d)));
        if let DiskReply::Data(b) = reply {
            if b@.len() == d.len {
                write_keeps::<A>(m, cfg, d.addr, b@);
            }
        }
        let rest = req.data.skip(1);
        assert forall|i: int| 0 <= i < rest.len() implies clear(
            cfg,
            (#[trigger] rest[i]).addr as int,
            cover(rest[i]),
        ) by {
            assert(rest[i] == req.data[i + 1]);
        }
    }
    same_self(m, cfg);
    tidy_same(m, r, cfg);
}

/// A chain that is pending can be popped: the slot of a ring that can be reached can be read.
proof fn pending_pops(m: GuestMem, cfg: QueueConfig, last: u16)
    requires
        tidy(m, cfg),
    ensures
        queue::pending_count(m, cfg, last) > 0 <==> queue::next_head(m, cfg, last) is Some,
        queue::next_head(m, cfg, last) is Some ==> queue::pending_count(
            m,
            cfg,
            queue::next_index(last),
        ) == queue::pending_count(m, cfg, last) - 1,
        0 <= queue::pending_count(m, cfg, last) < 0x1_0000,
{
    reveal(tidy);
    queue::pop_counts_down(m, cfg, last);
    net_laws::avail_slot_inside(cfg, last);
    assert(guest::mapped(
        m,
        queue::at(cfg.avail_ring, 4 + 2 * (last as int % cfg.size as int)) as int,
        2,
    ));
}

/// How many requests a job has served or has yet to serve.
pub open spec fn total(cfg: QueueConfig, stop: BlkStop) -> int {
    stop.run.served + queue::pending_count(stop.run.mem, cfg, stop.run.last) + if stop.wait is Some {
        1int
    } else {
        0
    }
}

/// A job between two requests of a queue that is laid out soundly, with few enough to serve.
pub open spec fn sound_run(cfg: QueueConfig, run: BlkRun) -> bool {
    &&& tidy(run.mem, cfg)
    &&& 0 <= run.served
    &&& run.served + queue::pending_count(run.mem, cfg, run.last) < JOB_LIMIT
}

/// What a job comes to from `run` on: the queue is as it was, no request was lost, the used ring
/// has moved on by those served, and a job that does not wait has none pending.
pub open spec fn carried(cfg: QueueConfig, run: BlkRun, all: int, stop: BlkStop) -> bool {
    &&& tidy(stop.run.mem, cfg)
    &&& same_queue(run.mem, stop.run.mem, cfg)
    &&& run.served <= stop.run.served
    &&& total(cfg, stop) == all
    &&& stop.wait is None ==> queue::pending_count(stop.run.mem, cfg, stop.run.last) == 0
    &&& queue::used_index(run.mem, cfg) is Some
    &&& queue::used_index(stop.run.mem, cfg) == Some(
        moved(queue::used_index(run.mem, cfg)->0, stop.run.served - run.served),
    )
}

/// Moving an index on by one, and then by `k`.
proof fn moved_on(i: u16, k: int)
    requires
        0 <= k,
    ensures
        moved(queue::next_index(i), k) == moved(i, k + 1),
        moved(i, 0) == i,
        moved(i, 1) == queue::next_index(i),
{
    reveal(moved);
}

/// Serving requests up to the first that needs the disk loses none, and takes at least the one
/// that then waits.
pub proof fn settled_carries<A: GuestAccess>(cfg: QueueConfig, run: BlkRun)
    requires
        sound_run(cfg, run),
    ensures
        ({
            let stop = mmio::settled::<A>(cfg, run);
            &&& carried(
                cfg,
                run,
                run.served + queue::pending_count(run.mem, cfg, run.last),
                stop,
            )
            &&& stop.wait matches Some((req, op)) ==> {
                &&& clear_request(cfg, req)
                &&& req.data.len() + 2 <= cfg.size
                &&& queue::pending_count(stop.run.mem, cfg, stop.run.last)
                    < queue::pending_count(run.mem, cfg, run.last)
            }
        }),
    decreases JOB_LIMIT - run.served,
{
    let m = run.mem;
    let stop = mmio::settled::<A>(cfg, run);
    pending_pops(m, cfg, run.last);
    tidy_reads(m, cfg, run.last);
    let used = queue::used_index(m, cfg)->0;
    moved_on(used, 0);
    match queue::next_head(m, cfg, run.last) {
        None => {
            assert(stop == BlkStop { run, wait: None });
            same_self(m, cfg);
        },
        Some(head) => {
            let popped = BlkRun { last: queue::next_index(run.last), ..run };
            match mmio::request_at(m, cfg, head) {
                None => {
                    used_keeps::<A>(m, cfg, head, 0);
                    let m1 = queue::used_step::<A>(m, cfg, head, 0).0;
                    tidy_same(m, m1, cfg);
                    let next = BlkRun { mem: m1, served: run.served + 1, ..popped };
                    settled_carries::<A>(cfg, next);
                    moved_on(used, stop.run.served - next.served);
                    same_twice(m, m1, stop.run.mem, cfg);
                    assert(stop == mmio::settled::<A>(cfg, next));
                },
                Some(req) => {
                    request_clear(m, cfg, head);
                    match mmio::next_op(m, req) {
                        Ok(op) => {
                            assert(stop == BlkStop { run: popped, wait: Some((req, op)) });
                            same_self(m, cfg);
                        },
                        Err(status) => {
                            ended_keeps::<A>(m, cfg, req, status);
                            let next = mmio::completed::<A>(cfg, popped, req, status);
                            tidy_same(m, next.mem, cfg);
                            settled_carries::<A>(cfg, next);
                            moved_on(used, stop.run.served - next.served);
                            same_twice(m, next.mem, stop.run.mem, cfg);
                            assert(stop == mmio::settled::<A>(cfg, next));
                        },
                    }
                },
            }
        },
    }
}

/// Ending a request and going on loses none.
proof fn completed_carries<A: GuestAccess>(
    cfg: QueueConfig,
    run: BlkRun,
    req: BlkReq,
    status: u8,
)
    requires
        tidy(run.mem, cfg),
        0 <= run.served,
        run.served + queue::pending_count(run.mem, cfg, run.last) + 1 < JOB_LIMIT,
        clear_request(cfg, req),
    ensures
        ({
            let stop = mmio::settled::<A>(cfg, mmio::completed::<A>(cfg, run, req, status));
            &&& carried(
                cfg,
                run,
                run.served + queue::pending_count(run.mem, cfg, run.last) + 1,
                stop,
            )
            &&& stop.wait matches Some((r, op)) ==> {
                &&& clear_request(cfg, r)
                &&& r.data.len() + 2 <= cfg.size
                &&& queue::pending_count(stop.run.mem, cfg, stop.run.last)
                    < queue::pending_count(run.mem, cfg, run.last)
            }
        }),
{
    ended_keeps::<A>(run.mem, cfg, req, status);
    let next = mmio::completed::<A>(cfg, run, req, status);
    tidy_same(run.mem, next.mem, cfg);
    settled_carries::<A>(cfg, next);
    let stop = mmio::settled::<A>(cfg, next);
    moved_on(queue::used_index(run.mem, cfg)->0, stop.run.served - next.served);
    same_twice(run.mem, next.mem, stop.run.mem, cfg);
}

/// A reply of the disk brings a job on and loses none: its request has a buffer less, or another
/// one waits and fewer are pending, or the job ends.
proof fn resumed_carries<A: GuestAccess>(
    cfg: QueueConfig,
    run: BlkRun,
    req: BlkReq,
    reply: DiskReply,
)
    requires
        tidy(run.mem, cfg),
        0 <= run.served,
        run.served + queue::pending_count(run.mem, cfg, run.last) + 1 < JOB_LIMIT,
        clear_request(cfg, req),
    ensures
        ({
            let stop = mmio::resumed::<A>(cfg, run, req, reply);
            &&& carried(
                cfg,
                run,
                run.served + queue::pending_count(run.mem, cfg, run.last) + 1,
                stop,
            )
            &&& stop.wait matches Some((r, op)) ==> {
                &&& clear_request(cfg, r)
                &&& {
                    ||| 0 < r.data.len() < req.data.len() && queue::pending_count(
                        stop.run.mem,
                        cfg,
                        stop.run.last,
                    ) == queue::pending_count(run.mem, cfg, run.last)
                    ||| r.data.len() + 2 <= cfg.size && queue::pending_count(
                        stop.run.mem,
                        cfg,
                        stop.run.last,
                    ) < queue::pending_count(run.mem, cfg, run.last)
                }
            }
        }),
{
    let m = run.mem;
    answered_keeps::<A>(m, cfg, req, reply);
    let (m1, next) = mmio::answered::<A>(m, req, reply);
    tidy_same(m, m1, cfg);
    let now = BlkRun { mem: m1, ..run };
    let stop = mmio::resumed::<A>(cfg, run, req, reply);
    tidy_reads(m, cfg, run.last);
    match next {
        Err(status) => {
            completed_carries::<A>(cfg, now, req, status);
            same_twice(m, m1, stop.run.mem, cfg);
        },
        Ok(more) => match mmio::next_op(m1, more) {
            Err(status) => {
                completed_carries::<A>(cfg, now, more, status);
                same_twice(m, m1, stop.run.mem, cfg);
            },
            Ok(op) => {
                assert(stop == BlkStop { run: now, wait: Some((more, op)) });
                moved_on(queue::used_index(m, cfg)->0, 0);
            },
        },
    }
}

/// How many replies a job waits for at most: those of the request under way, and for each
/// pending one no more than the queue has descriptors.
pub open spec fn replies_due(cfg: QueueConfig, stop: BlkStop) -> int {
    match stop.wait {
        None => 0,
        Some((req, op)) => cfg.size * queue::pending_count(stop.run.mem, cfg, stop.run.last)
            + if req.data.len() == 0 {
            1
        } else {
            req.data.len() as int
        },
    }
}

/// Fewer pending requests leave room for another one's replies.
proof fn fewer_due(size: int, p: int, q: int)
    requires
        0 <= size,
        0 <= q < p,
    ensures
        size * q + size <= size * p,
{
    assert(size * q + size == size * (q + 1)) by (nonlinear_arith);
    assert(size * (q + 1) <= size * p) by (nonlinear_arith)
        requires
            0 <= size,
            q + 1 <= p,
    ;
}

/// A job that waits ends, once it has had all the replies that are due, with every request
/// served.
proof fn job_run_carries<A: GuestAccess>(
    cfg: QueueConfig,
    stop: BlkStop,
    replies: Seq<DiskReply>,
)
    requires
        tidy(stop.run.mem, cfg),
        0 <= stop.run.served,
        total(cfg, stop) < JOB_LIMIT,
        stop.wait is None ==> queue::pending_count(stop.run.mem, cfg, stop.run.last) == 0,
        stop.wait matches Some((req, op)) ==> clear_request(cfg, req) && cfg.size >= 2,
        replies.len() >= replies_due(cfg, stop),
    ensures
        ({
            let end = blk_laws::job_run::<A>(cfg, stop, replies);
            &&& end.wait is None
            &&& carried(cfg, stop.run, total(cfg, stop), end)
        }),
    decreases replies.len(),
{
    let m = stop.run.mem;
    tidy_reads(m, cfg, stop.run.last);
    let used = queue::used_index(m, cfg)->0;
    pending_pops(m, cfg, stop.run.last);
    if let Some((req, op)) = stop.wait {
        let p = queue::pending_count(m, cfg, stop.run.last);
        assert(0 <= cfg.size * p) by (nonlinear_arith)
            requires
                0 <= p,
                0 <= cfg.size,
        ;
        let next = mmio::resumed::<A>(cfg, stop.run, req, replies[0]);
        resumed_carries::<A>(cfg, stop.run, req, replies[0]);
        let q = queue::pending_count(next.run.mem, cfg, next.run.last);
        pending_pops(next.run.mem, cfg, next.run.last);
        if q < p {
            fewer_due(cfg.size as int, p, q);
        }
        job_run_carries::<A>(cfg, next, replies.skip(1));
        let end = blk_laws::job_run::<A>(cfg, stop, replies);
        assert(end == blk_laws::job_run::<A>(cfg, next, replies.skip(1)));
        same_twice(m, next.run.mem, end.run.mem, cfg);
        moved_twice(
            used,
            next.run.served - stop.run.served,
            end.run.served - next.run.served,
        );
    } else {
        moved_on(used, 0);
        same_self(m, cfg);
    }
}

/// Moving an index on by `j`, and then by `k`.
proof fn moved_twice(i: u16, j: int, k: int)
    requires
        0 <= j,
        0 <= k,
    ensures
        moved(moved(i, j), k) == moved(i, j + k),
{
    reveal(moved);
}

/// A notification's job serves every request that is pending on a queue that is laid out soundly,
/// each once, whatever the disk answers. It ends after no more replies than the queue's size for
/// each of them; then nothing is pending, the device stands where the driver does, and the used
/// ring has moved on by as many.
pub proof fn job_serves_all<A: GuestAccess>(
    m: GuestMem,
    cfg: QueueConfig,
    last: u16,
    replies: Seq<DiskReply>,
)
    requires
        tidy(m, cfg),
        replies.len() >= cfg.size * queue::pending_count(m, cfg, last),
    ensures
        ({
            let asked = mmio::settled::<A>(cfg, blk_laws::at_start(m, last));
            let done = blk_laws::job_run::<A>(cfg, asked, replies);
            &&& done.wait is None
            &&& done.run.served == queue::pending_count(m, cfg, last)
            &&& !queue::pending(done.run.mem, cfg, done.run.last)
            &&& queue::avail_index(m, cfg) == Some(done.run.last)
            &&& queue::avail_index(done.run.mem, cfg) == queue::avail_index(m, cfg)
            &&& queue::used_index(m, cfg) is Some
            &&& queue::used_index(done.run.mem, cfg) == Some(
                moved(queue::used_index(m, cfg)->0, done.run.served),
            )
        }),
{
    let start = blk_laws::at_start(m, last);
    let p = queue::pending_count(m, cfg, last);
    pending_pops(m, cfg, last);
    settled_carries::<A>(cfg, start);
    let asked = mmio::settled::<A>(cfg, start);
    let q = queue::pending_count(asked.run.mem, cfg, asked.run.last);
    pending_pops(asked.run.mem, cfg, asked.run.last);
    if asked.wait is Some {
        fewer_due(cfg.size as int, p, q);
    }
    job_run_carries::<A>(cfg, asked, replies);
    let done = blk_laws::job_run::<A>(cfg, asked, replies);
    moved_twice(
        queue::used_index(m, cfg)->0,
        asked.run.served,
        done.run.served - asked.run.served,
    );
    same_twice(m, asked.run.mem, done.run.mem, cfg);
    tidy_same(m, done.run.mem, cfg);
    tidy_reads(m, cfg, last);
    queue::pop_counts_down(done.run.mem, cfg, done.run.last);
}

} // verus!
