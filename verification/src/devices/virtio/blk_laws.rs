//! What the block device promises as a whole: what the disk gave is what the guest finds, what
//! the guest wrote is what the disk gets, and a job ends with nothing left to take.

use vstd::prelude::*;

use super::block::{VIRTIO_BLK_S_IOERR, VIRTIO_BLK_S_OK, VIRTIO_BLK_T_IN, VIRTIO_BLK_T_OUT};
use super::guest;
use super::guest::{GuestAccess, GuestMem};
use super::mmio;
use super::mmio::{BlkReq, BlkRun, BlkStop, DiskReply, OpView, JOB_LIMIT};
use super::net_laws;
use super::queue;
use super::queue::{Descriptor, QueueConfig};

verus! {

/// A job that ends has nothing left to take, unless it served all that one job may.
pub proof fn job_drains<A: GuestAccess>(cfg: QueueConfig, run: BlkRun)
    ensures
        ({
            let stop = mmio::settled::<A>(cfg, run);
            &&& stop.run.served >= run.served
            &&& stop.wait is None ==> stop.run.served >= JOB_LIMIT || queue::next_head(
                stop.run.mem,
                cfg,
                stop.run.last,
            ) is None
        }),
    decreases JOB_LIMIT - run.served,
{
    if run.served < JOB_LIMIT {
        if let Some(head) = queue::next_head(run.mem, cfg, run.last) {
            let popped = BlkRun { last: queue::next_index(run.last), ..run };
            match mmio::request_at(run.mem, cfg, head) {
                None => {
                    job_drains::<A>(
                        cfg,
                        BlkRun {
                            mem: queue::used_step::<A>(run.mem, cfg, head, 0).0,
                            served: run.served + 1,
                            ..popped
                        },
                    );
                },
                Some(req) => {
                    if let Err(status) = mmio::next_op(run.mem, req) {
                        job_drains::<A>(cfg, mmio::completed::<A>(cfg, popped, req, status));
                    }
                },
            }
        }
    }
}

/// Whether two runs of addresses share none.
pub open spec fn apart(a: int, n: int, b: int, k: int) -> bool {
    a + n <= b || b + k <= a
}

/// Where a request's status byte and the used ring can be reached and lie apart.
pub open spec fn can_end(m: GuestMem, cfg: QueueConfig, req: BlkReq) -> bool {
    &&& queue::used_ring_reachable(m, cfg)
    &&& guest::reachable(m, req.status_at as int, 1)
    &&& apart(req.status_at as int, 1, cfg.used_ring as int, 4 + 8 * cfg.size)
}

/// A request that ends leaves its status where the driver looks for it, and one more element
/// in the used ring, with its chain and the number of bytes that the device wrote. Nothing
/// outside the status byte and the used ring changes.
pub proof fn ending_law<A: GuestAccess>(m: GuestMem, cfg: QueueConfig, req: BlkReq, status: u8)
    requires
        can_end(m, cfg, req),
    ensures
        ({
            let r = mmio::ended::<A>(m, cfg, req, status);
            let idx = queue::used_index(m, cfg)->0;
            let elem = queue::used_elem(cfg, idx);
            &&& r.dom() == m.dom()
            &&& r[req.status_at as int] == status
            &&& queue::used_index(r, cfg) == Some(queue::next_index(idx))
            &&& guest::read32(r, elem) == Some(req.head as u32)
            &&& guest::read32(r, queue::at(elem, 4)) == Some(
                ((req.written + 1) % 0x1_0000_0000) as u32,
            )
            &&& forall|a: int|
                m.dom().contains(a) && a != req.status_at && !(cfg.used_ring
                    <= a < cfg.used_ring + 4 + 8 * cfg.size) ==> #[trigger] r[a] == m[a]
        }),
{
    let one = seq![status];
    let w = guest::write_run::<A>(m, req.status_at as int, one);
    guest::write_run_law::<A>(m, req.status_at as int, one);
    assert(w.1);
    assert(m.dom().contains(req.status_at as int));
    let len = ((req.written + 1) % 0x1_0000_0000) as u32;
    let u = cfg.used_ring as int;
    assert(queue::used_ring_reachable(w.0, cfg));
    assert forall|a: int| u <= a < u + 4 + 8 * cfg.size implies #[trigger] w.0[a] == m[a] by {
        assert(m.dom().contains(a));
    }
    guest::read16_same(m, w.0, queue::at(cfg.used_ring, 2));
    queue::used_elem_inside(cfg, queue::used_index(m, cfg)->0);
    queue::used_step_law::<A>(w.0, cfg, req.head, len);
}

/// The lengths of all buffers together.
pub open spec fn length_sum(data: Seq<Descriptor>) -> nat
    decreases data.len(),
{
    if data.len() == 0 {
        0
    } else {
        data[0].len as nat + length_sum(data.skip(1))
    }
}

/// The whole sectors of all buffers together.
pub open spec fn sector_sum(data: Seq<Descriptor>) -> nat
    decreases data.len(),
{
    if data.len() == 0 {
        0
    } else {
        (data[0].len as nat) / 512 + sector_sum(data.skip(1))
    }
}

/// The sector that a request that starts at `sector` has come to behind the buffers of `data`.
#[verifier::opaque]
pub open spec fn sector_behind(sector: u64, data: Seq<Descriptor>) -> u64 {
    ((sector + sector_sum(data)) % guest::address_end()) as u64
}

/// What a request that started at `written` counts behind the buffers of `data`.
#[verifier::opaque]
pub open spec fn written_behind(written: u32, data: Seq<Descriptor>) -> u32 {
    ((written + length_sum(data)) % 0x1_0000_0000) as u32
}

/// Before any buffer nothing has moved.
proof fn behind_nothing(sector: u64, written: u32)
    ensures
        sector_behind(sector, seq![]) == sector,
        written_behind(written, seq![]) == written,
{
    reveal(sector_behind);
    reveal(written_behind);
}

/// Behind the first buffer and then the others is behind all.
proof fn behind_first(sector: u64, written: u32, data: Seq<Descriptor>)
    requires
        data.len() > 0,
    ensures
        sector_behind(
            ((sector + data[0].len as int / 512) % guest::address_end()) as u64,
            data.skip(1),
        ) == sector_behind(sector, data),
        written_behind(
            ((written + data[0].len) % 0x1_0000_0000) as u32,
            data.skip(1),
        ) == written_behind(written, data),
{
    reveal(sector_behind);
    reveal(written_behind);
}

/// What the disk's replies, one after the other, do to a request: the memory, and the request as
/// it goes on or the status that it ends with.
pub open spec fn answered_all<A: GuestAccess>(
    m: GuestMem,
    req: BlkReq,
    replies: Seq<DiskReply>,
) -> (GuestMem, Result<BlkReq, u8>)
    decreases replies.len(),
{
    if replies.len() == 0 {
        (m, Ok(req))
    } else {
        let (m1, next) = mmio::answered::<A>(m, req, replies[0]);
        match next {
            Err(status) => (m1, Err(status)),
            Ok(more) => answered_all::<A>(m1, more, replies.skip(1)),
        }
    }
}

/// Whether every buffer of a request is one that the device writes.
pub open spec fn all_writable(data: Seq<Descriptor>) -> bool {
    forall|i: int| 0 <= i < data.len() ==> (#[trigger] data[i]).write_only()
}

/// Whether the replies are data that fills the buffers, one for each.
pub open spec fn fills(data: Seq<Descriptor>, replies: Seq<DiskReply>) -> bool {
    &&& replies.len() == data.len()
    &&& forall|i: int|
        0 <= i < data.len() ==> ((#[trigger] replies[i]) matches DiskReply::Data(b) && b@.len()
            == data[i].len)
}

/// Whether `a` lies in none of the buffers.
pub open spec fn outside(data: Seq<Descriptor>, a: int) -> bool {
    forall|i: int| 0 <= i < data.len() ==> !net_laws::in_buffer(#[trigger] data[i], a)
}

/// The first reply to a read fills the first buffer, and the request goes on with the others.
proof fn read_step<A: GuestAccess>(m: GuestMem, req: BlkReq, b: Vec<u8>)
    requires
        req.kind == VIRTIO_BLK_T_IN,
        req.data.len() > 0,
        b@.len() == req.data[0].len,
        guest::reachable(m, req.data[0].addr as int, req.data[0].len as int),
    ensures
        ({
            let d = req.data[0];
            let (m1, next) = mmio::answered::<A>(m, req, DiskReply::Data(b));
            &&& next == Ok::<BlkReq, u8>(
                BlkReq {
                    sector: ((req.sector + d.len as int / 512) % guest::address_end()) as u64,
                    written: ((req.written + d.len) % 0x1_0000_0000) as u32,
                    data: req.data.skip(1),
                    ..req
                },
            )
            &&& m1.dom() == m.dom()
            &&& guest::load(m1, d.addr as int, d.len as int) == b@
            &&& forall|a: int|
                m.dom().contains(a) && !net_laws::in_buffer(d, a) ==> #[trigger] m1[a] == m[a]
        }),
{
    reveal(mmio::answered);
    let d = req.data[0];
    let w = guest::write_run::<A>(m, d.addr as int, b@);
    guest::write_run_law::<A>(m, d.addr as int, b@);
    assert(guest::load(w.0, d.addr as int, d.len as int) =~= b@);
}

/// A read request whose buffers can be reached and lie apart: replies that fill the buffers are
/// found in them, the request has no buffer left and ends with the status ok, and its count is
/// the sum of the lengths. Nothing outside the buffers changes.
pub proof fn read_fills_buffers<A: GuestAccess>(m: GuestMem, req: BlkReq, replies: Seq<DiskReply>)
    requires
        req.kind == VIRTIO_BLK_T_IN,
        all_writable(req.data),
        fills(req.data, replies),
        net_laws::writable_reachable(m, req.data),
        net_laws::writable_apart(req.data),
    ensures
        ({
            let (r, next) = answered_all::<A>(m, req, replies);
            let more = next->Ok_0;
            &&& next is Ok
            &&& more == (BlkReq {
                sector: sector_behind(req.sector, req.data),
                written: written_behind(req.written, req.data),
                data: seq![],
                ..req
            })
            &&& mmio::next_op(r, more) == Err::<OpView, u8>(VIRTIO_BLK_S_OK)
            &&& r.dom() == m.dom()
            &&& forall|i: int|
                0 <= i < req.data.len() ==> guest::load(
                    r,
                    (#[trigger] req.data[i]).addr as int,
                    req.data[i].len as int,
                ) == replies[i]->Data_0@
            &&& forall|a: int|
                m.dom().contains(a) && outside(req.data, a) ==> #[trigger] r[a] == m[a]
        }),
    decreases req.data.len(),
{
    let (r, next) = answered_all::<A>(m, req, replies);
    if req.data.len() == 0 {
        assert(req.data =~= seq![]);
        behind_nothing(req.sector, req.written);
    } else {
        behind_first(req.sector, req.written, req.data);
        let d = req.data[0];
        let rest = req.data.skip(1);
        let later = replies.skip(1);
        let b = replies[0]->Data_0;
        assert(replies[0] == DiskReply::Data(b));
        assert(d.write_only());
        read_step::<A>(m, req, b);
        let (m1, one) = mmio::answered::<A>(m, req, replies[0]);
        let more = one->Ok_0;
        assert(forall|i: int| 0 <= i < rest.len() ==> #[trigger] rest[i] == req.data[i + 1]);
        assert(forall|i: int| 0 <= i < later.len() ==> #[trigger] later[i] == replies[i + 1]);
        assert(all_writable(rest));
        assert(fills(rest, later));
        assert(net_laws::writable_reachable(m1, rest));
        apart_skip(req.data);
        read_fills_buffers::<A>(m1, more, later);
        assert forall|i: int| 0 <= i < req.data.len() implies guest::load(
            r,
            (#[trigger] req.data[i]).addr as int,
            req.data[i].len as int,
        ) == replies[i]->Data_0@ by {
            if i == 0 {
                assert forall|a: int| d.addr <= a < d.addr + d.len implies #[trigger] r[a] == m1[a] by {
                    assert(net_laws::in_buffer(req.data[0], a));
                    assert(m.dom().contains(a));
                    assert(outside(rest, a)) by {
                        assert forall|k: int| 0 <= k < rest.len() implies !net_laws::in_buffer(
                            #[trigger] rest[k],
                            a,
                        ) by {
                            assert(req.data[k + 1].write_only());
                        }
                    }
                }
                assert(guest::load(r, d.addr as int, d.len as int) =~= guest::load(
                    m1,
                    d.addr as int,
                    d.len as int,
                ));
            } else {
                assert(rest[i - 1] == req.data[i]);
                assert(later[i - 1] == replies[i]);
            }
        }
        assert forall|a: int| m.dom().contains(a) && outside(req.data, a) implies #[trigger] r[a]
            == m[a] by {
            assert(!net_laws::in_buffer(req.data[0], a));
            assert(outside(rest, a)) by {
                assert forall|k: int| 0 <= k < rest.len() implies !net_laws::in_buffer(
                    #[trigger] rest[k],
                    a,
                ) by {
                    assert(rest[k] == req.data[k + 1]);
                }
            }
            assert(m1.dom().contains(a));
        }
    }
}

/// Buffers that lie apart lie apart without the first.
proof fn apart_skip(data: Seq<Descriptor>)
    requires
        data.len() > 0,
        net_laws::writable_apart(data),
    ensures
        net_laws::writable_apart(data.skip(1)),
{
    let rest = data.skip(1);
    assert forall|i: int, j: int, a: int|
        0 <= i < j < rest.len() && (#[trigger] rest[i]).write_only() && (
        #[trigger] rest[j]).write_only() implies !(#[trigger] net_laws::in_buffer(rest[i], a)
        && net_laws::in_buffer(rest[j], a)) by {
        assert(rest[i] == data[i + 1] && rest[j] == data[j + 1]);
        assert(net_laws::in_buffer(data[i + 1], a) == net_laws::in_buffer(rest[i], a));
        assert(data[j + 1].write_only());
    }
}

/// While a read request goes on, the disk is asked for the buffers in turn: for the length of
/// the next one, at the sector behind those before it.
pub proof fn read_asks_in_turn<A: GuestAccess>(
    m: GuestMem,
    req: BlkReq,
    replies: Seq<DiskReply>,
    k: int,
)
    requires
        req.kind == VIRTIO_BLK_T_IN,
        all_writable(req.data),
        fills(req.data, replies),
        net_laws::writable_reachable(m, req.data),
        0 <= k < req.data.len(),
    ensures
        ({
            let (mk, now) = answered_all::<A>(m, req, replies.take(k));
            &&& now is Ok
            &&& now->Ok_0.data == req.data.skip(k)
            &&& mmio::next_op(mk, now->Ok_0) == Ok::<OpView, u8>(
                OpView::Read {
                    sector: sector_behind(req.sector, req.data.take(k)),
                    len: req.data[k].len as int,
                },
            )
        }),
    decreases k,
{
    if k == 0 {
        assert(replies.take(0) =~= seq![]);
        assert(req.data.take(0) =~= seq![]);
        behind_nothing(req.sector, req.written);
        assert(req.data.skip(0) =~= req.data);
        assert(req.data[0].write_only());
    } else {
        let rest = req.data.skip(1);
        let later = replies.skip(1);
        let b = replies[0]->Data_0;
        assert(replies[0] == DiskReply::Data(b));
        assert(req.data[0].write_only());
        read_step::<A>(m, req, b);
        let (m1, one) = mmio::answered::<A>(m, req, replies[0]);
        let more = one->Ok_0;
        assert(forall|i: int| 0 <= i < rest.len() ==> #[trigger] rest[i] == req.data[i + 1]);
        assert(forall|i: int| 0 <= i < later.len() ==> #[trigger] later[i] == replies[i + 1]);
        assert(all_writable(rest));
        assert(fills(rest, later));
        assert(net_laws::writable_reachable(m1, rest));
        read_asks_in_turn::<A>(m1, more, later, k - 1);
        assert(replies.take(k)[0] == replies[0]);
        assert(replies.take(k).skip(1) =~= later.take(k - 1));
        assert(req.data.take(k)[0] == req.data[0]);
        assert(req.data.take(k).skip(1) =~= rest.take(k - 1));
        behind_first(req.sector, req.written, req.data.take(k));
        assert(rest.skip(k - 1) =~= req.data.skip(k));
    }
}

/// Whether every buffer of a request can be read.
pub open spec fn all_readable(m: GuestMem, data: Seq<Descriptor>) -> bool {
    forall|i: int|
        0 <= i < data.len() ==> guest::reachable(
            m,
            (#[trigger] data[i]).addr as int,
            data[i].len as int,
        )
}

/// Whether the replies say of each buffer that it was written.
pub open spec fn all_done(data: Seq<Descriptor>, replies: Seq<DiskReply>) -> bool {
    &&& replies.len() == data.len()
    &&& forall|i: int| 0 <= i < replies.len() ==> (#[trigger] replies[i]) is Done
}

/// When a buffer was written, the request goes on with the others.
proof fn write_step<A: GuestAccess>(m: GuestMem, req: BlkReq)
    requires
        req.kind == VIRTIO_BLK_T_OUT,
        req.data.len() > 0,
    ensures
        mmio::answered::<A>(m, req, DiskReply::Done) == (
            m,
            Ok::<BlkReq, u8>(
                BlkReq {
                    sector: ((req.sector + req.data[0].len as int / 512)
                        % guest::address_end()) as u64,
                    data: req.data.skip(1),
                    ..req
                },
            ),
        ),
{
    reveal(mmio::answered);
}

/// A write request whose buffers can be reached: once the disk has written each, the request has
/// no buffer left and ends with the status ok. Memory does not change, and nothing counts as
/// written into it.
pub proof fn write_passes_buffers<A: GuestAccess>(m: GuestMem, req: BlkReq, replies: Seq<DiskReply>)
    requires
        req.kind == VIRTIO_BLK_T_OUT,
        all_done(req.data, replies),
    ensures
        ({
            let (r, next) = answered_all::<A>(m, req, replies);
            &&& r == m
            &&& next == Ok::<BlkReq, u8>(
                BlkReq {
                    sector: sector_behind(req.sector, req.data),
                    data: seq![],
                    ..req
                },
            )
            &&& mmio::next_op(r, next->Ok_0) == Err::<OpView, u8>(VIRTIO_BLK_S_OK)
        }),
    decreases req.data.len(),
{
    if req.data.len() == 0 {
        assert(req.data =~= seq![]);
        behind_nothing(req.sector, req.written);
    } else {
        behind_first(req.sector, req.written, req.data);
        let later = replies.skip(1);
        assert(replies[0] is Done);
        write_step::<A>(m, req);
        let (m1, one) = mmio::answered::<A>(m, req, replies[0]);
        assert(forall|i: int| 0 <= i < later.len() ==> #[trigger] later[i] == replies[i + 1]);
        write_passes_buffers::<A>(m1, one->Ok_0, later);
    }
}

/// While a write request goes on, the disk is asked for the buffers in turn: to write what the
/// next one holds, at the sector behind those before it.
pub proof fn write_asks_in_turn<A: GuestAccess>(
    m: GuestMem,
    req: BlkReq,
    replies: Seq<DiskReply>,
    k: int,
)
    requires
        req.kind == VIRTIO_BLK_T_OUT,
        all_readable(m, req.data),
        all_done(req.data, replies),
        0 <= k < req.data.len(),
    ensures
        ({
            let (mk, now) = answered_all::<A>(m, req, replies.take(k));
            &&& mk == m
            &&& now is Ok
            &&& now->Ok_0.data == req.data.skip(k)
            &&& mmio::next_op(mk, now->Ok_0) == Ok::<OpView, u8>(
                OpView::Write {
                    sector: sector_behind(req.sector, req.data.take(k)),
                    data: guest::load(m, req.data[k].addr as int, req.data[k].len as int),
                },
            )
        }),
    decreases k,
{
    if k == 0 {
        assert(replies.take(0) =~= seq![]);
        assert(req.data.take(0) =~= seq![]);
        behind_nothing(req.sector, req.written);
        assert(req.data.skip(0) =~= req.data);
        assert(guest::reachable(
            m,
            req.data[0].addr as int,
            req.data[0].len as int,
        ));
    } else {
        let rest = req.data.skip(1);
        let later = replies.skip(1);
        assert(replies[0] is Done);
        write_step::<A>(m, req);
        let (m1, one) = mmio::answered::<A>(m, req, replies[0]);
        let more = one->Ok_0;
        assert(forall|i: int| 0 <= i < rest.len() ==> #[trigger] rest[i] == req.data[i + 1]);
        assert(forall|i: int| 0 <= i < later.len() ==> #[trigger] later[i] == replies[i + 1]);
        assert(all_readable(m, rest));
        write_asks_in_turn::<A>(m1, more, later, k - 1);
        assert(replies.take(k)[0] == replies[0]);
        assert(replies.take(k).skip(1) =~= later.take(k - 1));
        assert(req.data.take(k)[0] == req.data[0]);
        assert(req.data.take(k).skip(1) =~= rest.take(k - 1));
        behind_first(req.sector, req.written, req.data.take(k));
        assert(rest.skip(k - 1) =~= req.data.skip(k));
    }
}

/// A request that fails: once the disk refuses a buffer the request ends with an error, whatever
/// came before.
pub proof fn failure_is_reported<A: GuestAccess>(m: GuestMem, req: BlkReq)
    ensures
        mmio::answered::<A>(m, req, DiskReply::Failed) == (
            m,
            Err::<BlkReq, u8>(VIRTIO_BLK_S_IOERR),
        ),
{
    reveal(mmio::answered);
}

/// Whether a request's buffers lie apart from its status byte and from the used ring.
pub open spec fn clear_of_ending(cfg: QueueConfig, req: BlkReq) -> bool {
    forall|i: int|
        0 <= i < req.data.len() ==> {
            let d = #[trigger] req.data[i];
            &&& apart(d.addr as int, d.len as int, req.status_at as int, 1)
            &&& apart(d.addr as int, d.len as int, cfg.used_ring as int, 4 + 8 * cfg.size)
        }
}

/// A whole read request, of any number of buffers that can be reached and lie apart from each
/// other, from the status byte and from the used ring: what the disk gave is what the guest
/// finds in the buffers, with the status ok, and one more used element, which names the chain
/// and counts the data and the status byte.
#[verifier::rlimit(60)]
#[verifier::spinoff_prover]
pub proof fn read_completes<A: GuestAccess>(
    m: GuestMem,
    cfg: QueueConfig,
    req: BlkReq,
    replies: Seq<DiskReply>,
)
    requires
        req.kind == VIRTIO_BLK_T_IN,
        req.written == 0,
        all_writable(req.data),
        fills(req.data, replies),
        net_laws::writable_reachable(m, req.data),
        net_laws::writable_apart(req.data),
        can_end(m, cfg, req),
        clear_of_ending(cfg, req),
    ensures
        ({
            let (m1, next) = answered_all::<A>(m, req, replies);
            let r = mmio::ended::<A>(m1, cfg, next->Ok_0, VIRTIO_BLK_S_OK);
            let idx = queue::used_index(m, cfg)->0;
            let elem = queue::used_elem(cfg, idx);
            &&& next is Ok
            &&& mmio::next_op(m1, next->Ok_0) == Err::<OpView, u8>(VIRTIO_BLK_S_OK)
            &&& r.dom() == m.dom()
            &&& forall|i: int|
                0 <= i < req.data.len() ==> guest::read_run(
                    r,
                    (#[trigger] req.data[i]).addr,
                    req.data[i].len as int,
                ) == Some(replies[i]->Data_0@)
            &&& r[req.status_at as int] == VIRTIO_BLK_S_OK
            &&& queue::used_index(r, cfg) == Some(queue::next_index(idx))
            &&& guest::read32(r, elem) == Some(req.head as u32)
            &&& guest::read32(r, queue::at(elem, 4)) == Some(
                ((length_sum(req.data) + 1) % 0x1_0000_0000) as u32,
            )
            &&& forall|a: int|
                m.dom().contains(a) && outside(req.data, a) && a != req.status_at && !(cfg.used_ring <= a < cfg.used_ring + 4 + 8 * cfg.size)
                    ==> #[trigger] r[a] == m[a]
        }),
{
    read_fills_buffers::<A>(m, req, replies);
    reveal(written_behind);
    let (m1, next) = answered_all::<A>(m, req, replies);
    let more = next->Ok_0;
    let u = cfg.used_ring as int;
    assert(queue::used_ring_reachable(m1, cfg));
    guest::reachable_same(m, m1, req.status_at as int, 1);
    assert forall|a: int| u <= a < u + 4 + 8 * cfg.size implies #[trigger] m1[a] == m[a] by {
        assert(m.dom().contains(a));
        assert(outside(req.data, a));
    }
    guest::read16_same(m, m1, queue::at(cfg.used_ring, 2));
    ending_law::<A>(m1, cfg, more, VIRTIO_BLK_S_OK);
    let r = mmio::ended::<A>(m1, cfg, more, VIRTIO_BLK_S_OK);
    assert forall|i: int| 0 <= i < req.data.len() implies guest::read_run(
        r,
        (#[trigger] req.data[i]).addr,
        req.data[i].len as int,
    ) == Some(replies[i]->Data_0@) by {
        let d = req.data[i];
        assert(d.write_only());
        assert(guest::reachable(m, d.addr as int, d.len as int));
        assert(guest::reachable(r, d.addr as int, d.len as int));
        assert forall|a: int| d.addr <= a < d.addr + d.len implies #[trigger] r[a] == m1[a] by {
            assert(m.dom().contains(a));
            assert(m1.dom().contains(a));
        }
        assert(guest::load(r, d.addr as int, d.len as int) =~= guest::load(
            m1,
            d.addr as int,
            d.len as int,
        ));
    }
    assert forall|a: int|
        m.dom().contains(a) && outside(req.data, a) && a != req.status_at
            && !(cfg.used_ring <= a < cfg.used_ring + 4 + 8 * cfg.size) implies #[trigger] r[a]
        == m[a] by {
        assert(m1.dom().contains(a));
        assert(m1[a] == m[a]);
    }
}

/// A whole write request, of any number of buffers: it ends with the status ok, and one more
/// used element, which counts the status byte alone.
pub proof fn write_completes<A: GuestAccess>(
    m: GuestMem,
    cfg: QueueConfig,
    req: BlkReq,
    replies: Seq<DiskReply>,
)
    requires
        req.kind == VIRTIO_BLK_T_OUT,
        req.written == 0,
        all_done(req.data, replies),
        can_end(m, cfg, req),
    ensures
        ({
            let (m1, next) = answered_all::<A>(m, req, replies);
            let r = mmio::ended::<A>(m1, cfg, next->Ok_0, VIRTIO_BLK_S_OK);
            let idx = queue::used_index(m, cfg)->0;
            let elem = queue::used_elem(cfg, idx);
            &&& m1 == m
            &&& next is Ok
            &&& mmio::next_op(m1, next->Ok_0) == Err::<OpView, u8>(VIRTIO_BLK_S_OK)
            &&& r.dom() == m.dom()
            &&& r[req.status_at as int] == VIRTIO_BLK_S_OK
            &&& queue::used_index(r, cfg) == Some(queue::next_index(idx))
            &&& guest::read32(r, elem) == Some(req.head as u32)
            &&& guest::read32(r, queue::at(elem, 4)) == Some(1u32)
            &&& forall|a: int|
                m.dom().contains(a) && a != req.status_at && !(cfg.used_ring
                    <= a < cfg.used_ring + 4 + 8 * cfg.size) ==> #[trigger] r[a] == m[a]
        }),
{
    write_passes_buffers::<A>(m, req, replies);
    let next = answered_all::<A>(m, req, replies).1;
    ending_law::<A>(m, cfg, next->Ok_0, VIRTIO_BLK_S_OK);
}

/// A job from where it waits, given the disk's replies one after the other, as far as it waits
/// for them.
pub open spec fn job_run<A: GuestAccess>(
    cfg: QueueConfig,
    stop: BlkStop,
    replies: Seq<DiskReply>,
) -> BlkStop
    decreases replies.len(),
{
    if replies.len() == 0 || stop.wait is None {
        stop
    } else {
        job_run::<A>(
            cfg,
            mmio::resumed::<A>(cfg, stop.run, (stop.wait->0).0, replies[0]),
            replies.skip(1),
        )
    }
}

/// A job whose request has buffers for the replies goes through them and ends the request.
proof fn job_ends_request<A: GuestAccess>(
    cfg: QueueConfig,
    run: BlkRun,
    req: BlkReq,
    op: OpView,
    replies: Seq<DiskReply>,
)
    requires
        req.data.len() > 0,
        ({
            ||| req.kind == VIRTIO_BLK_T_IN && all_writable(req.data) && fills(req.data, replies)
                && net_laws::writable_reachable(run.mem, req.data)
            ||| req.kind == VIRTIO_BLK_T_OUT && all_done(req.data, replies) && all_readable(
                run.mem,
                req.data,
            )
        }),
    ensures
        ({
            let (m1, next) = answered_all::<A>(run.mem, req, replies);
            &&& next is Ok
            &&& job_run::<A>(cfg, BlkStop { run, wait: Some((req, op)) }, replies)
                == mmio::settled::<A>(
                cfg,
                mmio::completed::<A>(
                    cfg,
                    BlkRun { mem: m1, ..run },
                    next->Ok_0,
                    VIRTIO_BLK_S_OK,
                ),
            )
        }),
    decreases replies.len(),
{
    let stop = BlkStop { run, wait: Some((req, op)) };
    let (m1, one) = mmio::answered::<A>(run.mem, req, replies[0]);
    let rest = req.data.skip(1);
    let later = replies.skip(1);
    assert(forall|i: int| 0 <= i < rest.len() ==> #[trigger] rest[i] == req.data[i + 1]);
    assert(forall|i: int| 0 <= i < later.len() ==> #[trigger] later[i] == replies[i + 1]);
    if req.kind == VIRTIO_BLK_T_IN {
        let b = replies[0]->Data_0;
        assert(replies[0] == DiskReply::Data(b));
        assert(req.data[0].write_only());
        read_step::<A>(run.mem, req, b);
        assert(all_writable(rest));
        assert(fills(rest, later));
        assert(net_laws::writable_reachable(m1, rest));
    } else {
        assert(replies[0] is Done);
        write_step::<A>(run.mem, req);
        assert(all_done(rest, later));
        assert(all_readable(m1, rest));
    }
    let more = one->Ok_0;
    let now = BlkRun { mem: m1, ..run };
    let next = mmio::resumed::<A>(cfg, run, req, replies[0]);
    assert(job_run::<A>(cfg, stop, replies) == job_run::<A>(cfg, next, later));
    if rest.len() == 0 {
        assert(later =~= seq![]);
        assert(mmio::next_op(m1, more) == Err::<OpView, u8>(VIRTIO_BLK_S_OK));
        assert(answered_all::<A>(m1, more, later) == (m1, Ok::<BlkReq, u8>(more)));
        assert(job_run::<A>(cfg, next, later) == next);
    } else {
        assert(rest[0] == req.data[1]);
        let asked = mmio::next_op(m1, more);
        assert(asked is Ok);
        assert(next == BlkStop { run: now, wait: Some((more, asked->Ok_0)) });
        job_ends_request::<A>(cfg, now, more, asked->Ok_0, later);
    }
}

/// A request posted alone: its chain is the only one pending, in rings that can be reached and
/// lie apart.
pub open spec fn posted_alone(m: GuestMem, cfg: QueueConfig, last: u16, req: BlkReq) -> bool {
    &&& net_laws::avail_ring_reachable(m, cfg)
    &&& net_laws::rings_apart(cfg)
    &&& queue::pending_count(m, cfg, last) == 1
    &&& queue::next_head(m, cfg, last) is Some
    &&& mmio::request_at(m, cfg, queue::next_head(m, cfg, last)->0) == Some(req)
    &&& can_end(m, cfg, req)
    &&& apart(req.status_at as int, 1, cfg.avail_ring as int, 4 + 2 * cfg.size)
}

/// A device at `last`, with nothing served.
pub open spec fn at_start(m: GuestMem, last: u16) -> BlkRun {
    BlkRun { mem: m, last, served: 0 }
}

/// A read that is posted alone is served whole: a notification makes the device ask the disk for
/// its buffers in turn; when the disk has filled them the job ends with one request served and
/// nothing pending, the guest finds the data in the buffers, the status ok, and one more element
/// in the used ring.
pub proof fn posted_read_is_served<A: GuestAccess>(
    m: GuestMem,
    cfg: QueueConfig,
    last: u16,
    req: BlkReq,
    replies: Seq<DiskReply>,
)
    requires
        posted_alone(m, cfg, last, req),
        req.kind == VIRTIO_BLK_T_IN,
        all_writable(req.data),
        fills(req.data, replies),
        net_laws::writable_reachable(m, req.data),
        net_laws::writable_apart(req.data),
        clear_of_ending(cfg, req),
        forall|i: int|
            0 <= i < req.data.len() ==> apart(
                (#[trigger] req.data[i]).addr as int,
                req.data[i].len as int,
                cfg.avail_ring as int,
                4 + 2 * cfg.size,
            ),
    ensures
        ({
            let asked = mmio::settled::<A>(cfg, at_start(m, last));
            let done = job_run::<A>(cfg, asked, replies);
            let idx = queue::used_index(m, cfg)->0;
            &&& req.data.len() > 0 ==> asked.wait == Some(
                (req, OpView::Read { sector: req.sector, len: req.data[0].len as int }),
            )
            &&& done.wait is None
            &&& done.run.served == 1
            &&& done.run.last == queue::next_index(last)
            &&& !queue::pending(done.run.mem, cfg, done.run.last)
            &&& forall|i: int|
                0 <= i < req.data.len() ==> guest::read_run(
                    done.run.mem,
                    (#[trigger] req.data[i]).addr,
                    req.data[i].len as int,
                ) == Some(replies[i]->Data_0@)
            &&& done.run.mem[req.status_at as int] == VIRTIO_BLK_S_OK
            &&& queue::used_index(done.run.mem, cfg) == Some(queue::next_index(idx))
            &&& guest::read32(done.run.mem, queue::at(queue::used_elem(cfg, idx), 4)) == Some(
                ((length_sum(req.data) + 1) % 0x1_0000_0000) as u32,
            )
        }),
{
    read_completes::<A>(m, cfg, req, replies);
    let (m1, next) = answered_all::<A>(m, req, replies);
    let r = mmio::ended::<A>(m1, cfg, next->Ok_0, VIRTIO_BLK_S_OK);
    let v = cfg.avail_ring as int;
    assert forall|a: int| v <= a < v + 4 + 2 * cfg.size implies #[trigger] r[a] == m[a] by {
        assert(m.dom().contains(a));
        assert(outside(req.data, a));
    }
    none_left(m, r, cfg, last);
    posted_ends::<A>(m, cfg, last, req, replies);
}

/// A write that is posted alone is served whole: a notification makes the device ask the disk to
/// write its buffers in turn; when that is done the job ends with one request served and nothing
/// pending, the status ok, and one more element in the used ring.
pub proof fn posted_write_is_served<A: GuestAccess>(
    m: GuestMem,
    cfg: QueueConfig,
    last: u16,
    req: BlkReq,
    replies: Seq<DiskReply>,
)
    requires
        posted_alone(m, cfg, last, req),
        req.kind == VIRTIO_BLK_T_OUT,
        all_done(req.data, replies),
        all_readable(m, req.data),
    ensures
        ({
            let asked = mmio::settled::<A>(cfg, at_start(m, last));
            let done = job_run::<A>(cfg, asked, replies);
            let idx = queue::used_index(m, cfg)->0;
            &&& req.data.len() > 0 ==> asked.wait == Some(
                (
                    req,
                    OpView::Write {
                        sector: req.sector,
                        data: guest::load(m, req.data[0].addr as int, req.data[0].len as int),
                    },
                ),
            )
            &&& done.wait is None
            &&& done.run.served == 1
            &&& done.run.last == queue::next_index(last)
            &&& !queue::pending(done.run.mem, cfg, done.run.last)
            &&& done.run.mem[req.status_at as int] == VIRTIO_BLK_S_OK
            &&& queue::used_index(done.run.mem, cfg) == Some(queue::next_index(idx))
            &&& guest::read32(done.run.mem, queue::at(queue::used_elem(cfg, idx), 4)) == Some(1u32)
        }),
{
    write_completes::<A>(m, cfg, req, replies);
    let (m1, next) = answered_all::<A>(m, req, replies);
    let r = mmio::ended::<A>(m1, cfg, next->Ok_0, VIRTIO_BLK_S_OK);
    let v = cfg.avail_ring as int;
    assert forall|a: int| v <= a < v + 4 + 2 * cfg.size implies #[trigger] r[a] == m[a] by {
        assert(m.dom().contains(a));
    }
    none_left(m, r, cfg, last);
    if req.data.len() > 0 {
        assert(guest::reachable(
            m,
            req.data[0].addr as int,
            req.data[0].len as int,
        ));
    }
    posted_ends::<A>(m, cfg, last, req, replies);
}

/// The job of a request posted alone ends with that request, when nothing is pending after it.
proof fn posted_ends<A: GuestAccess>(
    m: GuestMem,
    cfg: QueueConfig,
    last: u16,
    req: BlkReq,
    replies: Seq<DiskReply>,
)
    requires
        queue::next_head(m, cfg, last) is Some,
        mmio::request_at(m, cfg, queue::next_head(m, cfg, last)->0) == Some(req),
        ({
            ||| req.kind == VIRTIO_BLK_T_IN && all_writable(req.data) && fills(req.data, replies)
                && net_laws::writable_reachable(m, req.data)
            ||| req.kind == VIRTIO_BLK_T_OUT && all_done(req.data, replies) && all_readable(
                m,
                req.data,
            )
        }),
        answered_all::<A>(m, req, replies).1 is Ok,
        ({
            let (m1, next) = answered_all::<A>(m, req, replies);
            let r = mmio::ended::<A>(m1, cfg, next->Ok_0, VIRTIO_BLK_S_OK);
            queue::next_head(r, cfg, queue::next_index(last)) is None
        }),
    ensures
        ({
            let asked = mmio::settled::<A>(cfg, at_start(m, last));
            let (m1, next) = answered_all::<A>(m, req, replies);
            let end = BlkRun {
                mem: mmio::ended::<A>(m1, cfg, next->Ok_0, VIRTIO_BLK_S_OK),
                last: queue::next_index(last),
                served: 1,
            };
            &&& job_run::<A>(cfg, asked, replies) == (BlkStop { run: end, wait: None })
            &&& req.data.len() > 0 ==> asked.wait == Some((req, mmio::next_op(m, req)->Ok_0))
        }),
{
    let start = at_start(m, last);
    let asked = mmio::settled::<A>(cfg, start);
    let popped = BlkRun { last: queue::next_index(last), ..start };
    let (m1, next) = answered_all::<A>(m, req, replies);
    let done = mmio::completed::<A>(
        cfg,
        BlkRun { mem: m1, ..popped },
        next->Ok_0,
        VIRTIO_BLK_S_OK,
    );
    assert(mmio::settled::<A>(cfg, done) == BlkStop { run: done, wait: None });
    if req.data.len() > 0 {
        if req.kind == VIRTIO_BLK_T_IN {
            assert(req.data[0].write_only());
        } else {
            assert(guest::reachable(
                m,
                req.data[0].addr as int,
                req.data[0].len as int,
            ));
        }
        let op = mmio::next_op(m, req)->Ok_0;
        assert(asked == BlkStop { run: popped, wait: Some((req, op)) });
        job_ends_request::<A>(cfg, popped, req, op, replies);
    } else {
        assert(replies =~= seq![]);
        assert(mmio::next_op(m, req) == Err::<OpView, u8>(VIRTIO_BLK_S_OK));
    }
}

/// Where one chain was pending and the available ring has not changed, none is pending for a
/// device one further.
proof fn none_left(m: GuestMem, r: GuestMem, cfg: QueueConfig, last: u16)
    requires
        net_laws::avail_ring_reachable(m, cfg),
        queue::pending_count(m, cfg, last) == 1,
        r.dom() == m.dom(),
        forall|a: int|
            cfg.avail_ring <= a < cfg.avail_ring + 4 + 2 * cfg.size ==> #[trigger] r[a] == m[a],
    ensures
        !queue::pending(r, cfg, queue::next_index(last)),
        queue::next_head(r, cfg, queue::next_index(last)) is None,
{
    assert(queue::at(cfg.avail_ring, 2) == cfg.avail_ring + 2);
    guest::read16_same(m, r, queue::at(cfg.avail_ring, 2));
    queue::pending_same(m, r, cfg, queue::next_index(last));
    queue::pop_counts_down(m, cfg, last);
    queue::pop_counts_down(r, cfg, queue::next_index(last));
}

} // verus!
