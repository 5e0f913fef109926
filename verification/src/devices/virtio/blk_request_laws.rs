//! A request of the block device, from the driver's own bytes: which sectors the disk is asked
//! for, what the guest finds of the data, and how the request is said to have ended.

use vstd::prelude::*;

use super::blk_device_laws;
use super::block;
use super::guest;
use super::guest::{GuestAccess, GuestMem};
use super::mmio;
use super::mmio::{BlkReq, BlkRun, BlkStop, BlkView, DiskReply, OpView, VirtioBlkMmio};
use super::queue;
use super::queue::{Descriptor, QueueConfig};
use super::regs;
use super::regs::QueueState;
use super::ring_laws;
use super::ring_laws::Buffer;
use crate::devices::device::{Device, IrqLine};

verus! {

/// A request as the driver posted it: the descriptor that it starts with, what it asks, the
/// sector, and its buffers, of which the first holds the header and the last the status.
pub ghost struct Posted {
    pub head: int,
    pub kind: int,
    pub sector: int,
    pub bufs: Seq<Buffer>,
}

/// The request in the `i`th waiting chain.
pub open spec fn posted_at(m: GuestMem, q: QueueState, i: int) -> Posted {
    let bufs = ring_laws::chain_at(m, q, i);
    Posted {
        head: ring_laws::head_at(m, q, i),
        kind: ring_laws::word32(m, bufs[0].addr),
        sector: ring_laws::word64(m, bufs[0].addr + 8),
        bufs,
    }
}

/// Whether a request has a header that is there, and a buffer for its status.
pub open spec fn whole(m: GuestMem, r: Posted) -> bool {
    r.bufs.len() >= 2 && ring_laws::in_reach(m, r.bufs[0].addr, 16)
}

/// How many buffers of data a request has.
pub open spec fn parts(r: Posted) -> int {
    r.bufs.len() - 2
}

/// The `k`th buffer of data.
pub open spec fn part(r: Posted, k: int) -> Buffer {
    r.bufs[k + 1]
}

/// How many whole sectors the first `k` buffers of data take.
pub open spec fn sectors_before(r: Posted, k: int) -> int
    decreases k,
{
    if k <= 0 {
        0
    } else {
        sectors_before(r, k - 1) + part(r, k - 1).len / 512
    }
}

/// How many bytes the first `k` buffers of data take.
pub open spec fn bytes_before(r: Posted, k: int) -> int
    decreases k,
{
    if k <= 0 {
        0
    } else {
        bytes_before(r, k - 1) + part(r, k - 1).len
    }
}

/// Whether a request that has come to its `k`th buffer needs the disk for it: a read to fill it,
/// a write to have it stored, a flush once.
pub open spec fn needs_disk(m: GuestMem, r: Posted, k: int) -> bool {
    ||| r.kind == 0 && 0 <= k < parts(r) && part(r, k).writable
    ||| r.kind == 1 && 0 <= k < parts(r) && ring_laws::in_reach(m, part(r, k).addr, part(r, k).len)
    ||| r.kind == 4 && k == 0
}

/// What the disk is to be asked for the `k`th buffer: as many bytes from the sector behind those
/// before it, or to store there what the buffer holds, or to flush.
pub open spec fn asks(m: GuestMem, r: Posted, k: int) -> OpView {
    let sector = ((r.sector + sectors_before(r, k)) % 0x1_0000_0000_0000_0000) as u64;
    if r.kind == 0 {
        OpView::Read { sector, len: part(r, k).len }
    } else if r.kind == 1 {
        OpView::Write {
            sector,
            data: Seq::new(part(r, k).len as nat, |j: int| m[part(r, k).addr + j]),
        }
    } else {
        OpView::Flush
    }
}

/// Whether the device waits for the disk with the `k`th buffer of the request `r`, of the queue
/// `q`, having come to `last` in the available ring.
pub open spec fn on_disk<A: GuestAccess, I: IrqLine>(
    v: BlkView<A, I>,
    q: QueueState,
    r: Posted,
    k: int,
    last: u16,
) -> bool {
    &&& v.job matches Some(j) && {
        &&& j.op == asks(v.mem.mem(), r, k)
        &&& j.cfg == q.config_spec()
        &&& j.last == last
        &&& 0 <= j.served < mmio::JOB_LIMIT
        &&& carries_on(j.req, r, k)
    }
}

/// Whether a request under way is `r` with its `k`th buffer next.
pub open spec fn carries_on(req: BlkReq, r: Posted, k: int) -> bool {
    &&& req.head == r.head
    &&& req.kind == r.kind
    &&& req.status_at == r.bufs.last().addr
    &&& req.sector == (r.sector + sectors_before(r, k)) % 0x1_0000_0000_0000_0000
    &&& req.written == if r.kind == 0 {
        bytes_before(r, k) % 0x1_0000_0000
    } else {
        0
    }
    &&& req.data.len() == parts(r) - k
    &&& forall|i: int|
        0 <= i < req.data.len() ==> {
            &&& (#[trigger] req.data[i]).addr == part(r, k + i).addr
            &&& req.data[i].len == part(r, k + i).len
            &&& req.data[i].write_only() == part(r, k + i).writable
        }
}

/// Whether, between two memories, a request ended with `status`: the status stands in the last
/// buffer, the used ring names the request with `n` bytes and has moved on by one, and nothing
/// else changed.
pub open spec fn ended_with(
    m: GuestMem,
    q: QueueState,
    r: Posted,
    status: u8,
    n: int,
    w: GuestMem,
) -> bool {
    let slot = q.used + 4 + 8 * (ring_laws::used_at(m, q) % q.num as int);
    &&& w.dom() == m.dom()
    &&& w[r.bufs.last().addr] == status
    &&& ring_laws::word32(w, slot) == r.head
    &&& ring_laws::word32(w, slot + 4) == n % 0x1_0000_0000
    &&& ring_laws::used_at(w, q) == (ring_laws::used_at(m, q) + 1) % 0x1_0000
    &&& forall|a: int|
        m.dom().contains(a) && a != r.bufs.last().addr && !(q.used <= a < q.used + 4 + 8 * q.num)
            ==> #[trigger] w[a] == m[a]
}

/// Where a request's status goes: a byte that is there and no part of the queue.
pub open spec fn status_in_reach(m: GuestMem, q: QueueState, r: Posted) -> bool {
    &&& ring_laws::in_reach(m, r.bufs.last().addr, 1)
    &&& ring_laws::off_queue(q, r.bufs.last().addr, 1)
}

/// A queue of which the device has come to `last`.
pub open spec fn from_place(q: QueueState, last: u16) -> QueueState {
    QueueState { last_avail_idx: last, ..q }
}

/// A header says what its bytes make.
proof fn header_in_words(m: GuestMem, a: int)
    ensures
        block::header_of(guest::load(m, a, 16)).req_type == ring_laws::word32(m, a),
        block::header_of(guest::load(m, a, 16)).sector == ring_laws::word64(m, a + 8),
{
    let b = guest::load(m, a, 16);
    assert(forall|j: int| 0 <= j < 8 ==> b.skip(8)[j] == m[a + 8 + j]);
    assert(forall|j: int| 0 <= j < 4 ==> b.skip(8).skip(4)[j] == m[a + 12 + j]);
}

/// The device reads the request that the driver posted, where there is one.
#[verifier::rlimit(60)]
#[verifier::spinoff_prover]
pub proof fn request_is_read(m: GuestMem, q: QueueState, i: int)
    requires
        ring_laws::laid_out(m, q),
    ensures
        ({
            let r = posted_at(m, q, i);
            let got = mmio::request_at(m, q.config_spec(), r.head as u16);
            &&& 0 <= r.head < q.num
            &&& !whole(m, r) ==> got is None
            &&& whole(m, r) ==> (got matches Some(req) && carries_on(req, r, 0))
        }),
{
    let r = posted_at(m, q, i);
    let cfg = q.config_spec();
    ring_laws::waiting_chain_is_walked(m, q, i);
    let chain = queue::chain_from(m, q.desc, r.head as u16, q.num as nat);
    if r.bufs.len() >= 2 {
        assert(chain[0].addr == r.bufs[0].addr);
        let a = chain[0].addr as int;
        ring_laws::reach_is_presence(m, a, 16);
        header_in_words(m, a);
        if whole(m, r) {
            let req = mmio::request_at(m, cfg, r.head as u16)->0;
            request_has_parts(m, chain, req, r);
        }
    }
}

/// A request read from a chain has the chain's buffers.
proof fn request_has_parts(m: GuestMem, chain: Seq<Descriptor>, req: BlkReq, r: Posted)
    requires
        ring_laws::same_buffers(chain, r.bufs),
        r.bufs.len() >= 2,
        req.head == r.head,
        req.status_at == chain.last().addr,
        req.kind == r.kind,
        req.sector == r.sector,
        req.written == 0,
        req.data == chain.subrange(1, chain.len() - 1),
    ensures
        carries_on(req, r, 0),
{
    assert(chain[chain.len() - 1].addr == r.bufs[r.bufs.len() - 1].addr);
    assert(sectors_before(r, 0) == 0 && bytes_before(r, 0) == 0);
    assert(r.sector % 0x1_0000_0000_0000_0000 == r.sector);
    assert forall|j: int| 0 <= j < req.data.len() implies {
        &&& (#[trigger] req.data[j]).addr == part(r, 0 + j).addr
        &&& req.data[j].len == part(r, 0 + j).len
        &&& req.data[j].write_only() == part(r, 0 + j).writable
    } by {
        assert(req.data[j] == chain[j + 1]);
    }
}

/// What a request under way needs of the disk next is what the driver asked.
proof fn next_is_asked(m: GuestMem, req: BlkReq, r: Posted, k: int)
    requires
        carries_on(req, r, k),
        needs_disk(m, r, k),
    ensures
        mmio::next_op(m, req) == Ok::<OpView, u8>(asks(m, r, k)),
{
    if r.kind == 0 || r.kind == 1 {
        assert(req.data[0].addr == part(r, k).addr);
        ring_laws::reach_is_presence(m, part(r, k).addr, part(r, k).len);
        if r.kind == 1 {
            assert(guest::load(m, part(r, k).addr, part(r, k).len) =~= Seq::new(
                part(r, k).len as nat,
                |j: int| m[part(r, k).addr + j],
            ));
        }
    }
}

/// A notification makes the device ask the disk for the first request that waits, where it needs
/// the disk: at the sector in the request's header, for its first buffer. Memory stays as it is.
#[verifier::rlimit(60)]
#[verifier::spinoff_prover]
pub proof fn first_request_is_asked<A: GuestAccess, I: IrqLine>(
    d: VirtioBlkMmio<A, I>,
    data: Seq<u8>,
    p: VirtioBlkMmio<A, I>,
)
    requires
        d.writes(0x50, data, &p),
        d@.job is None,
        d@.queue.ready,
        ring_laws::laid_out(d@.mem.mem(), d@.queue),
        ring_laws::waiting(d@.mem.mem(), d@.queue) > 0,
        whole(d@.mem.mem(), posted_at(d@.mem.mem(), d@.queue, 0)),
        needs_disk(d@.mem.mem(), posted_at(d@.mem.mem(), d@.queue, 0), 0),
    ensures
        on_disk(
            p@,
            d@.queue,
            posted_at(d@.mem.mem(), d@.queue, 0),
            0,
            ((d@.queue.last_avail_idx + 1) % 0x1_0000) as u16,
        ),
        p@.mem.mem() == d@.mem.mem(),
        p@.queue == d@.queue,
        p@.irq == d@.irq,
        p@.regs == d@.regs,
{
    let m = d@.mem.mem();
    let q = d@.queue;
    let cfg = q.config_spec();
    let start = BlkRun { mem: m, last: q.last_avail_idx, served: 0 };
    ring_laws::laid_out_parts(m, q, 0);
    starts_with(m, q, start);
    next_request_waits::<A>(m, q, start);
}

/// A job at the beginning of a queue.
proof fn starts_with(m: GuestMem, q: QueueState, run: BlkRun)
    requires
        run.last == q.last_avail_idx,
    ensures
        from_place(q, run.last) == q,
{
}

/// A job that comes to a request that needs the disk waits with it.
#[verifier::rlimit(60)]
#[verifier::spinoff_prover]
proof fn next_request_waits<A: GuestAccess>(m: GuestMem, q: QueueState, run: BlkRun)
    requires
        run.mem == m,
        0 <= run.served < mmio::JOB_LIMIT,
        run.last == q.last_avail_idx,
        ring_laws::laid_out(m, q),
        ring_laws::waiting(m, q) > 0,
        whole(m, posted_at(m, q, 0)),
        needs_disk(m, posted_at(m, q, 0), 0),
    ensures
        ({
            let r = posted_at(m, q, 0);
            let stop = mmio::settled::<A>(q.config_spec(), run);
            &&& stop.run == (BlkRun { last: ((run.last + 1) % 0x1_0000) as u16, ..run })
            &&& stop.wait matches Some((req, op)) && carries_on(req, r, 0) && op == asks(m, r, 0)
        }),
{
    let cfg = q.config_spec();
    let r = posted_at(m, q, 0);
    waiting_head_is_next(m, q);
    let req = first_request(m, q, r);
    next_is_asked(m, req, r, 0);
    waits_with::<A>(cfg, run, r.head as u16, req, asks(m, r, 0));
}

/// The first request that waits, as the device finds it.
proof fn first_request(m: GuestMem, q: QueueState, r: Posted) -> (req: BlkReq)
    requires
        ring_laws::laid_out(m, q),
        r == posted_at(m, q, 0),
        whole(m, r),
    ensures
        r.head == ring_laws::head_at(m, q, 0),
        mmio::request_at(m, q.config_spec(), r.head as u16) == Some(req),
        carries_on(req, r, 0),
{
    request_is_read(m, q, 0);
    mmio::request_at(m, q.config_spec(), r.head as u16)->0
}

/// A job that takes a request that needs the disk waits with it.
proof fn waits_with<A: GuestAccess>(
    cfg: QueueConfig,
    run: BlkRun,
    head: u16,
    req: BlkReq,
    op: OpView,
)
    requires
        0 <= run.served < mmio::JOB_LIMIT,
        queue::next_head(run.mem, cfg, run.last) == Some(head),
        mmio::request_at(run.mem, cfg, head) == Some(req),
        mmio::next_op(run.mem, req) == Ok::<OpView, u8>(op),
    ensures
        mmio::settled::<A>(cfg, run) == (BlkStop {
            run: BlkRun { last: ((run.last + 1) % 0x1_0000) as u16, ..run },
            wait: Some((req, op)),
        }),
{
}

/// A reply that fills the buffer of a read is found there, byte by byte, and changes nothing
/// else; then the disk is asked for the next buffer, at the sector behind.
pub proof fn reply_fills_buffer<A: GuestAccess, I: IrqLine>(
    v: BlkView<A, I>,
    q: QueueState,
    r: Posted,
    k: int,
    last: u16,
    b: Vec<u8>,
    w: BlkView<A, I>,
)
    requires
        on_disk(v, q, r, k, last),
        r.kind == 0,
        0 <= k < parts(r) - 1,
        ring_laws::in_reach(v.mem.mem(), part(r, k).addr, part(r, k).len),
        part(r, k + 1).writable,
        b@.len() == part(r, k).len,
        blk_device_laws::replied(v, DiskReply::Data(b), w),
    ensures
        on_disk(w, q, r, k + 1, last),
        w.mem.mem().dom() == v.mem.mem().dom(),
        forall|j: int|
            0 <= j < b@.len() ==> w.mem.mem()[#[trigger] (part(r, k).addr + j)] == b@[j],
        forall|a: int|
            v.mem.mem().dom().contains(a) && !(part(r, k).addr <= a < part(r, k).addr + part(
                r,
                k,
            ).len) ==> #[trigger] w.mem.mem()[a] == v.mem.mem()[a],
{
    let j = v.job->0;
    filled_part::<A>(v.mem.mem(), j.req, r, k, b);
    let (m1, next) = mmio::answered::<A>(v.mem.mem(), j.req, DiskReply::Data(b));
    next_is_asked(m1, next->Ok_0, r, k + 1);
}

/// What a reply to a read does to memory and to the request.
#[verifier::rlimit(60)]
#[verifier::spinoff_prover]
proof fn filled_part<A: GuestAccess>(m: GuestMem, req: BlkReq, r: Posted, k: int, b: Vec<u8>)
    requires
        carries_on(req, r, k),
        r.kind == 0,
        0 <= k < parts(r),
        ring_laws::in_reach(m, part(r, k).addr, part(r, k).len),
        b@.len() == part(r, k).len,
    ensures
        ({
            let (m1, next) = mmio::answered::<A>(m, req, DiskReply::Data(b));
            let d = part(r, k);
            &&& next matches Ok(more) && carries_on(more, r, k + 1)
            &&& m1.dom() == m.dom()
            &&& forall|j: int| 0 <= j < b@.len() ==> m1[#[trigger] (d.addr + j)] == b@[j]
            &&& forall|a: int|
                m.dom().contains(a) && !(d.addr <= a < d.addr + d.len) ==> #[trigger] m1[a] == m[a]
        }),
{
    reveal(mmio::answered);
    let d = part(r, k);
    assert(req.data[0].addr == d.addr);
    ring_laws::reach_is_presence(m, d.addr, d.len);
    guest::write_run_law::<A>(m, d.addr, b@);
    let (m1, next) = mmio::answered::<A>(m, req, DiskReply::Data(b));
    let more = next->Ok_0;
    gone_on(req, more, r, k);
    assert forall|j: int| 0 <= j < b@.len() implies m1[#[trigger] (d.addr + j)] == b@[j] by {
        assert(m.dom().contains(d.addr + j));
    }
}

/// A request that goes on behind its `k`th buffer.
proof fn gone_on(req: BlkReq, more: BlkReq, r: Posted, k: int)
    requires
        carries_on(req, r, k),
        0 <= k < parts(r),
        more == (BlkReq {
            sector: ((req.sector + req.data[0].len as int / 512)
                % 0x1_0000_0000_0000_0000) as u64,
            data: req.data.skip(1),
            written: more.written,
            ..req
        }),
        r.kind == 0 ==> more.written == (req.written + req.data[0].len) % 0x1_0000_0000,
        r.kind != 0 ==> more.written == req.written,
    ensures
        carries_on(more, r, k + 1),
{
    assert(req.data[0].len == part(r, k).len);
    sums_wrap(r.sector + sectors_before(r, k), part(r, k).len / 512, bytes_before(r, k), part(r, k).len);
    assert forall|i: int| 0 <= i < more.data.len() implies {
        &&& (#[trigger] more.data[i]).addr == part(r, k + 1 + i).addr
        &&& more.data[i].len == part(r, k + 1 + i).len
        &&& more.data[i].write_only() == part(r, k + 1 + i).writable
    } by {
        assert(more.data[i] == req.data[i + 1]);
    }
}

/// Adding before or after wrapping is the same.
proof fn sums_wrap(s: int, x: int, b: int, y: int)
    ensures
        (s % 0x1_0000_0000_0000_0000 + x) % 0x1_0000_0000_0000_0000 == (s + x)
            % 0x1_0000_0000_0000_0000,
        (b % 0x1_0000_0000 + y) % 0x1_0000_0000 == (b + y) % 0x1_0000_0000,
{
}

/// Once the disk has stored a buffer of a write, it is asked to store the next, at the sector
/// behind. Memory stays as it is.
pub proof fn reply_stores_buffer<A: GuestAccess, I: IrqLine>(
    v: BlkView<A, I>,
    q: QueueState,
    r: Posted,
    k: int,
    last: u16,
    w: BlkView<A, I>,
)
    requires
        on_disk(v, q, r, k, last),
        r.kind == 1,
        0 <= k < parts(r) - 1,
        ring_laws::in_reach(v.mem.mem(), part(r, k + 1).addr, part(r, k + 1).len),
        blk_device_laws::replied(v, DiskReply::Done, w),
    ensures
        on_disk(w, q, r, k + 1, last),
        w.mem.mem() == v.mem.mem(),
{
    let j = v.job->0;
    stored_part::<A>(v.mem.mem(), j.req, r, k);
    let (m1, next) = mmio::answered::<A>(v.mem.mem(), j.req, DiskReply::Done);
    next_is_asked(m1, next->Ok_0, r, k + 1);
}

/// What a reply to a write does to the request.
proof fn stored_part<A: GuestAccess>(m: GuestMem, req: BlkReq, r: Posted, k: int)
    requires
        carries_on(req, r, k),
        r.kind == 1,
        0 <= k < parts(r),
    ensures
        mmio::answered::<A>(m, req, DiskReply::Done).0 == m,
        mmio::answered::<A>(m, req, DiskReply::Done).1 matches Ok(more) && carries_on(
            more,
            r,
            k + 1,
        ),
{
    reveal(mmio::answered);
    gone_on(req, mmio::answered::<A>(m, req, DiskReply::Done).1->Ok_0, r, k);
}

/// Whether a reply is what was asked for with the `k`th buffer: as many bytes as it takes, or
/// that it is done.
pub open spec fn fits(r: Posted, k: int, reply: DiskReply) -> bool {
    if r.kind == 0 {
        reply matches DiskReply::Data(b) && b@.len() == part(r, k).len
    } else {
        reply is Done
    }
}

/// How the last reply to a request ends it, and how many bytes are then said to be in its
/// buffers, the status with them: a request that got what it asked for to the last buffer ends
/// well, and any other with an error.
pub open spec fn ends_with(r: Posted, k: int, reply: DiskReply) -> (u8, int) {
    let well = fits(r, k, reply) && (r.kind == 4 || k == parts(r) - 1);
    let bytes = if r.kind != 0 {
        0
    } else if fits(r, k, reply) {
        bytes_before(r, k + 1)
    } else {
        bytes_before(r, k)
    };
    (
        if well {
            0
        } else {
            1
        },
        bytes + 1,
    )
}

/// Whether a reply is the last to a request that waits with its `k`th buffer: it is the last
/// buffer, or the request is a flush, or the reply is not what was asked for, or the next buffer
/// is none that the disk can be asked for.
pub open spec fn is_last(m: GuestMem, r: Posted, k: int, reply: DiskReply) -> bool {
    ||| k == parts(r) - 1
    ||| r.kind == 4
    ||| !fits(r, k, reply)
    ||| !needs_disk(m, r, k + 1)
}

/// The memory behind a reply: the buffer of a read that was filled, and nothing else, changed.
pub open spec fn part_filled(m: GuestMem, r: Posted, k: int, reply: DiskReply, m1: GuestMem) -> bool {
    let d = part(r, k);
    &&& m1.dom() == m.dom()
    &&& r.kind == 0 && fits(r, k, reply) ==> {
        &&& forall|j: int|
            0 <= j < d.len ==> m1[#[trigger] (d.addr + j)] == (reply->Data_0)@[j]
        &&& forall|a: int|
            m.dom().contains(a) && !(d.addr <= a < d.addr + d.len) ==> #[trigger] m1[a] == m[a]
    }
    &&& r.kind != 0 || !fits(r, k, reply) ==> m1 == m
}

/// The last reply to a request ends it: the guest finds the data of a read, the status and one
/// more used element. With nothing else waiting the job is over, the device keeps its place, and
/// the guest is interrupted.
#[verifier::rlimit(60)]
#[verifier::spinoff_prover]
pub proof fn last_reply_ends_request<A: GuestAccess, I: IrqLine>(
    v: BlkView<A, I>,
    q: QueueState,
    r: Posted,
    k: int,
    last: u16,
    reply: DiskReply,
    w: BlkView<A, I>,
) -> (m1: GuestMem)
    requires
        on_disk(v, q, r, k, last),
        r.kind == 0 || r.kind == 1 || r.kind == 4,
        r.kind != 4 ==> 0 <= k < parts(r),
        is_last(v.mem.mem(), r, k, reply),
        ring_laws::laid_out(v.mem.mem(), from_place(q, last)),
        ring_laws::waiting(v.mem.mem(), from_place(q, last)) == 0,
        status_in_reach(v.mem.mem(), q, r),
        r.kind == 0 ==> {
            &&& ring_laws::in_reach(v.mem.mem(), part(r, k).addr, part(r, k).len)
            &&& part(r, k).len > 0 ==> ring_laws::off_queue(q, part(r, k).addr, part(r, k).len)
        },
        blk_device_laws::replied(v, reply, w),
    ensures
        part_filled(v.mem.mem(), r, k, reply, m1),
        ended_with(
            m1,
            q,
            r,
            ends_with(r, k, reply).0,
            ends_with(r, k, reply).1,
            w.mem.mem(),
        ),
        w.job is None,
        w.queue == from_place(v.queue, last),
        v.irq.drives(true, &w.irq),
        w.regs.interrupt_status % 2 == 1,
{
    let m = v.mem.mem();
    let j = v.job->0;
    let cfg = q.config_spec();
    let (m1, next) = mmio::answered::<A>(m, j.req, reply);
    let run = BlkRun { mem: m, last: j.last, served: j.served };
    let stop = mmio::resumed::<A>(cfg, run, j.req, reply);
    let n = ends_with(r, k, reply).1;
    let status = ends_with(r, k, reply).0;
    let done = last_answer::<A>(m, q, j.req, r, k, reply, run);
    part_keeps_queue(m, m1, from_place(q, last), r, k, reply);
    ended_in_words::<A>(m1, q, done, r, status, n);
    let m2 = mmio::ended::<A>(m1, cfg, done, status);
    nothing_more::<A>(m1, m2, q, r, last, status, n);
    let end = BlkRun { mem: m2, last, served: j.served + 1 };
    assert(mmio::settled::<A>(cfg, end) == BlkStop { run: end, wait: None });
    let s = v.regs.interrupt_status;
    assert((s | 1u32) % 2 == 1) by (bit_vector);
    m1
}

/// The request as the last reply leaves it, and how the job goes on from there.
#[verifier::rlimit(60)]
#[verifier::spinoff_prover]
proof fn last_answer<A: GuestAccess>(
    m: GuestMem,
    q: QueueState,
    req: BlkReq,
    r: Posted,
    k: int,
    reply: DiskReply,
    run: BlkRun,
) -> (done: BlkReq)
    requires
        carries_on(req, r, k),
        run.mem == m,
        r.kind == 0 || r.kind == 1 || r.kind == 4,
        r.kind != 4 ==> 0 <= k < parts(r),
        is_last(m, r, k, reply),
        r.kind == 0 ==> ring_laws::in_reach(m, part(r, k).addr, part(r, k).len),
    ensures
        ({
            let m1 = mmio::answered::<A>(m, req, reply).0;
            let (status, n) = ends_with(r, k, reply);
            &&& part_filled(m, r, k, reply, m1)
            &&& done.head == r.head
            &&& done.status_at == r.bufs.last().addr
            &&& (done.written + 1) % 0x1_0000_0000 == n % 0x1_0000_0000
            &&& mmio::resumed::<A>(q.config_spec(), run, req, reply) == mmio::settled::<A>(
                q.config_spec(),
                mmio::completed::<A>(
                    q.config_spec(),
                    BlkRun { mem: m1, ..run },
                    done,
                    status,
                ),
            )
        }),
{
    let (m1, next) = mmio::answered::<A>(m, req, reply);
    let (status, n) = ends_with(r, k, reply);
    let cfg = q.config_spec();
    if r.kind == 0 && fits(r, k, reply) {
        let b = reply->Data_0;
        assert(reply == DiskReply::Data(b));
        filled_part::<A>(m, req, r, k, b);
        one_more(bytes_before(r, k + 1));
        stops_at(m1, next->Ok_0, r, k + 1);
        next->Ok_0
    } else if r.kind == 1 && fits(r, k, reply) {
        assert(reply == DiskReply::Done);
        stored_part::<A>(m, req, r, k);
        stops_at(m1, next->Ok_0, r, k + 1);
        next->Ok_0
    } else {
        ends_at_once::<A>(m, req, r, k, reply);
        one_more(bytes_before(r, k));
        req
    }
}

/// One more, before or after wrapping.
proof fn one_more(b: int)
    ensures
        (b % 0x1_0000_0000 + 1) % 0x1_0000_0000 == (b + 1) % 0x1_0000_0000,
{
}

/// A read or a write that cannot go on ends: well, where it has no buffer left, and otherwise with
/// an error.
proof fn stops_at(m: GuestMem, req: BlkReq, r: Posted, k: int)
    requires
        carries_on(req, r, k),
        r.kind == 0 || r.kind == 1,
        0 <= k <= parts(r),
        !needs_disk(m, r, k),
    ensures
        mmio::next_op(m, req) == Err::<OpView, u8>(
            if k == parts(r) {
                0u8
            } else {
                1u8
            },
        ),
{
    if k < parts(r) {
        assert(req.data[0].addr == part(r, k).addr);
        ring_laws::reach_is_presence(m, part(r, k).addr, part(r, k).len);
    }
}

/// A flush, or a reply that is not what was asked for, ends a request at once.
proof fn ends_at_once<A: GuestAccess>(
    m: GuestMem,
    req: BlkReq,
    r: Posted,
    k: int,
    reply: DiskReply,
)
    requires
        carries_on(req, r, k),
        r.kind == 0 || r.kind == 1 || r.kind == 4,
        r.kind != 4 ==> 0 <= k < parts(r),
        r.kind == 4 || !fits(r, k, reply),
    ensures
        mmio::answered::<A>(m, req, reply) == (m, Err::<BlkReq, u8>(ends_with(r, k, reply).0)),
{
    reveal(mmio::answered);
    if r.kind != 4 {
        assert(req.data[0].len == part(r, k).len);
    }
}

/// Filling a buffer that is no part of the queue leaves the queue as it was.
proof fn part_keeps_queue(
    m: GuestMem,
    m1: GuestMem,
    q: QueueState,
    r: Posted,
    k: int,
    reply: DiskReply,
)
    requires
        ring_laws::laid_out(m, q),
        ring_laws::waiting(m, q) == 0,
        part_filled(m, r, k, reply, m1),
        r.kind == 0 ==> (part(r, k).len > 0 ==> ring_laws::off_queue(
            q,
            part(r, k).addr,
            part(r, k).len,
        )),
    ensures
        m1.dom() == m.dom(),
        ring_laws::lies(m1, q.used as int, 4 + 8 * q.num),
        ring_laws::lies(m1, q.avail as int, 4 + 2 * q.num),
        q.num > 0,
        ring_laws::waiting(m1, q) == 0,
        ring_laws::disjoint(q.avail as int, 4 + 2 * q.num, q.used as int, 4 + 8 * q.num),
{
    ring_laws::laid_out_parts(m, q, 0);
    let v = q.avail as int;
    assert forall|a: int| v <= a < v + 4 + 2 * q.num implies #[trigger] m1[a] == m[a] by {
        assert(m.dom().contains(a));
    }
    assert(m1[v + 2] == m[v + 2] && m1[v + 3] == m[v + 3]);
}

/// Ending a request leaves its status and a used element.
#[verifier::rlimit(60)]
#[verifier::spinoff_prover]
proof fn ended_in_words<A: GuestAccess>(
    m: GuestMem,
    q: QueueState,
    done: BlkReq,
    r: Posted,
    status: u8,
    n: int,
)
    requires
        q.num > 0,
        ring_laws::lies(m, q.used as int, 4 + 8 * q.num),
        status_in_reach(m, q, r),
        done.head == r.head,
        done.status_at == r.bufs.last().addr,
        (done.written + 1) % 0x1_0000_0000 == n % 0x1_0000_0000,
    ensures
        ended_with(m, q, r, status, n, mmio::ended::<A>(m, q.config_spec(), done, status)),
{
    let cfg = q.config_spec();
    let one = seq![status];
    let at = done.status_at as int;
    ring_laws::reach_is_presence(m, at, 1);
    guest::write_run_law::<A>(m, at, one);
    let m1 = guest::write_run::<A>(m, at, one).0;
    let len = ((done.written + 1) % 0x1_0000_0000) as u32;
    ring_laws::used_entry_is_left::<A>(m1, q, done.head, len);
    let w = mmio::ended::<A>(m, cfg, done, status);
    assert(m.dom().contains(at));
    assert(m1.dom().contains(at));
    assert(m1[at] == status);
    let u = q.used as int;
    assert forall|a: int| u <= a < u + 4 + 8 * q.num implies #[trigger] m1[a] == m[a] by {
        assert(m.dom().contains(a));
    }
    assert(m1[u + 2] == m[u + 2] && m1[u + 3] == m[u + 3]);
    assert(ring_laws::used_at(m1, q) == ring_laws::used_at(m, q));
    assert(w[at] == m1[at]);
    assert forall|a: int|
        m.dom().contains(a) && a != at && !(q.used <= a < q.used + 4 + 8
            * q.num) implies #[trigger] w[a] == m[a] by {
        assert(m1.dom().contains(a));
        assert(m1[a] == m[a]);
    }
}

/// Where nothing else waited, nothing waits once a request ended.
proof fn nothing_more<A: GuestAccess>(
    m: GuestMem,
    w: GuestMem,
    q: QueueState,
    r: Posted,
    last: u16,
    status: u8,
    n: int,
)
    requires
        q.num > 0,
        ring_laws::lies(m, q.avail as int, 4 + 2 * q.num),
        ring_laws::disjoint(q.avail as int, 4 + 2 * q.num, q.used as int, 4 + 8 * q.num),
        ring_laws::waiting(m, from_place(q, last)) == 0,
        ring_laws::off_queue(q, r.bufs.last().addr, 1),
        ended_with(m, q, r, status, n, w),
    ensures
        queue::next_head(w, q.config_spec(), last) is None,
{
    let f = from_place(q, last);
    let v = q.avail as int;
    assert(m.dom().contains(v + 2) && m.dom().contains(v + 3));
    assert(w[v + 2] == m[v + 2] && w[v + 3] == m[v + 3]);
    assert(ring_laws::waiting(w, f) == 0);
    ring_laws::next_is_taken(w, f, 0);
    assert(((f.last_avail_idx + 0) % 0x1_0000) as u16 == last);
    assert(f.config_spec() == q.config_spec());
}

/// What a request ends with that the disk cannot be asked for: one that asks for something else is
/// not supported; a read or a write of nothing went well; and one whose first buffer is none for
/// it failed.
pub open spec fn ends_without_disk(r: Posted) -> u8 {
    if r.kind != 0 && r.kind != 1 {
        2
    } else if parts(r) == 0 {
        0
    } else {
        1
    }
}

/// A request that the disk cannot be asked for, posted alone, is answered at once.
#[verifier::rlimit(60)]
#[verifier::spinoff_prover]
pub proof fn request_without_disk<A: GuestAccess, I: IrqLine>(
    d: VirtioBlkMmio<A, I>,
    data: Seq<u8>,
    p: VirtioBlkMmio<A, I>,
)
    requires
        d.writes(0x50, data, &p),
        d@.job is None,
        d@.queue.ready,
        ring_laws::laid_out(d@.mem.mem(), d@.queue),
        ring_laws::waiting(d@.mem.mem(), d@.queue) == 1,
        whole(d@.mem.mem(), posted_at(d@.mem.mem(), d@.queue, 0)),
        status_in_reach(
            d@.mem.mem(),
            d@.queue,
            posted_at(d@.mem.mem(), d@.queue, 0),
        ),
        !needs_disk(d@.mem.mem(), posted_at(d@.mem.mem(), d@.queue, 0), 0),
    ensures
        ({
            let r = posted_at(d@.mem.mem(), d@.queue, 0);
            let status = ends_without_disk(r);
            &&& ended_with(d@.mem.mem(), d@.queue, r, status, 1, p@.mem.mem())
            &&& p@.job is None
            &&& p@.queue.last_avail_idx == ring_laws::driver_at(d@.mem.mem(), d@.queue)
            &&& d@.irq.drives(true, &p@.irq)
            &&& p@.regs.interrupt_status % 2 == 1
        }),
{
    let m = d@.mem.mem();
    let q = d@.queue;
    ring_laws::laid_out_parts(m, q, 0);
    answered_at_once::<A>(m, q);
    let s = d@.regs.interrupt_status;
    assert((s | 1u32) % 2 == 1) by (bit_vector);
}

/// A job that finds one request, which does not need the disk.
#[verifier::rlimit(60)]
#[verifier::spinoff_prover]
proof fn answered_at_once<A: GuestAccess>(m: GuestMem, q: QueueState)
    requires
        ring_laws::laid_out(m, q),
        ring_laws::waiting(m, q) == 1,
        whole(m, posted_at(m, q, 0)),
        status_in_reach(m, q, posted_at(m, q, 0)),
        !needs_disk(m, posted_at(m, q, 0), 0),
    ensures
        ({
            let r = posted_at(m, q, 0);
            let status = ends_without_disk(r);
            let stop = mmio::settled::<A>(
                q.config_spec(),
                BlkRun { mem: m, last: q.last_avail_idx, served: 0 },
            );
            &&& stop.wait is None
            &&& stop.run.served == 1
            &&& stop.run.last == ring_laws::driver_at(m, q)
            &&& ended_with(m, q, r, status, 1, stop.run.mem)
        }),
{
    let cfg = q.config_spec();
    let r = posted_at(m, q, 0);
    let start = BlkRun { mem: m, last: q.last_avail_idx, served: 0 };
    let status = ends_without_disk(r);
    waiting_head_is_next(m, q);
    let req = only_request(m, q, r, status);
    let last = ((q.last_avail_idx + 1) % 0x1_0000) as u16;
    let m2 = mmio::ended::<A>(m, cfg, req, status);
    ends_alone::<A>(m, q, req, r, status, last);
    let popped = BlkRun { last, ..start };
    let end = mmio::completed::<A>(cfg, popped, req, status);
    assert(mmio::settled::<A>(cfg, end) == BlkStop { run: end, wait: None });
    assert(mmio::settled::<A>(cfg, start) == mmio::settled::<A>(cfg, end));
}

/// The chain that waits is the next that the device takes.
proof fn waiting_head_is_next(m: GuestMem, q: QueueState)
    requires
        ring_laws::laid_out(m, q),
        ring_laws::waiting(m, q) > 0,
    ensures
        queue::next_head(m, q.config_spec(), q.last_avail_idx) == Some(
            ring_laws::head_at(m, q, 0) as u16,
        ),
{
    ring_laws::laid_out_parts(m, q, 0);
    ring_laws::next_is_taken(m, q, 0);
    assert(((q.last_avail_idx + 0) % 0x1_0000) as u16 == q.last_avail_idx);
}

/// The request that waits, as the device finds it.
#[verifier::rlimit(60)]
#[verifier::spinoff_prover]
proof fn only_request(m: GuestMem, q: QueueState, r: Posted, status: u8) -> (req: BlkReq)
    requires
        ring_laws::laid_out(m, q),
        r == posted_at(m, q, 0),
        whole(m, r),
        !needs_disk(m, r, 0),
        status == ends_without_disk(r),
    ensures
        mmio::request_at(m, q.config_spec(), r.head as u16) == Some(req),
        mmio::next_op(m, req) == Err::<OpView, u8>(status),
        req.head == r.head,
        req.status_at == r.bufs.last().addr,
        req.written == 0,
{
    request_is_read(m, q, 0);
    let req = mmio::request_at(m, q.config_spec(), r.head as u16)->0;
    assert(carries_on(req, r, 0));
    without_disk(m, req, r, status);
    req
}

/// What a request ends with that does not need the disk.
proof fn without_disk(m: GuestMem, req: BlkReq, r: Posted, status: u8)
    requires
        carries_on(req, r, 0),
        !needs_disk(m, r, 0),
        status == ends_without_disk(r),
    ensures
        mmio::next_op(m, req) == Err::<OpView, u8>(status),
        req.written == 0,
{
    assert(bytes_before(r, 0) == 0);
    if r.kind == 0 || r.kind == 1 {
        stops_at(m, req, r, 0);
    }
}

/// The one request that waits ends, and nothing waits then.
proof fn ends_alone<A: GuestAccess>(
    m: GuestMem,
    q: QueueState,
    req: BlkReq,
    r: Posted,
    status: u8,
    last: u16,
)
    requires
        ring_laws::laid_out(m, q),
        ring_laws::waiting(m, q) == 1,
        status_in_reach(m, q, r),
        req.head == r.head,
        req.status_at == r.bufs.last().addr,
        req.written == 0,
        last == (q.last_avail_idx + 1) % 0x1_0000,
    ensures
        ended_with(m, q, r, status, 1, mmio::ended::<A>(m, q.config_spec(), req, status)),
        queue::next_head(
            mmio::ended::<A>(m, q.config_spec(), req, status),
            q.config_spec(),
            last,
        ) is None,
        last == ring_laws::driver_at(m, q),
{
    ring_laws::laid_out_parts(m, q, 0);
    ended_in_words::<A>(m, q, req, r, status, 1);
    let m2 = mmio::ended::<A>(m, q.config_spec(), req, status);
    one_waits(m, q, last);
    nothing_more::<A>(m, m2, q, r, last, status, 1);
}

/// Where one chain waits, none does one further.
proof fn one_waits(m: GuestMem, q: QueueState, last: u16)
    requires
        ring_laws::waiting(m, q) == 1,
        last == (q.last_avail_idx + 1) % 0x1_0000,
    ensures
        ring_laws::waiting(m, from_place(q, last)) == 0,
        last == ring_laws::driver_at(m, q),
{
}

/// A chain that holds no request, posted alone, is given back with nothing in it: the used ring
/// names it with no bytes and has moved on by one, and nothing else changed.
pub proof fn broken_chain_is_given_back<A: GuestAccess, I: IrqLine>(
    d: VirtioBlkMmio<A, I>,
    data: Seq<u8>,
    p: VirtioBlkMmio<A, I>,
)
    requires
        d.writes(0x50, data, &p),
        d@.job is None,
        d@.queue.ready,
        ring_laws::laid_out(d@.mem.mem(), d@.queue),
        ring_laws::waiting(d@.mem.mem(), d@.queue) == 1,
        !whole(d@.mem.mem(), posted_at(d@.mem.mem(), d@.queue, 0)),
    ensures
        ({
            let m = d@.mem.mem();
            let q = d@.queue;
            let w = p@.mem.mem();
            let slot = q.used + 4 + 8 * (ring_laws::used_at(m, q) % q.num as int);
            &&& p@.job is None
            &&& w.dom() == m.dom()
            &&& ring_laws::word32(w, slot) == posted_at(m, q, 0).head
            &&& ring_laws::word32(w, slot + 4) == 0
            &&& ring_laws::used_at(w, q) == (ring_laws::used_at(m, q) + 1) % 0x1_0000
            &&& forall|a: int|
                m.dom().contains(a) && !(q.used <= a < q.used + 4 + 8 * q.num)
                    ==> #[trigger] w[a] == m[a]
            &&& p@.queue.last_avail_idx == ring_laws::driver_at(m, q)
            &&& d@.irq.drives(true, &p@.irq)
            &&& p@.regs.interrupt_status % 2 == 1
        }),
{
    let m = d@.mem.mem();
    let q = d@.queue;
    ring_laws::laid_out_parts(m, q, 0);
    given_back::<A>(m, q);
    let s = d@.regs.interrupt_status;
    assert((s | 1u32) % 2 == 1) by (bit_vector);
}

/// A job that finds one chain, which holds no request.
#[verifier::rlimit(60)]
#[verifier::spinoff_prover]
proof fn given_back<A: GuestAccess>(m: GuestMem, q: QueueState)
    requires
        ring_laws::laid_out(m, q),
        ring_laws::waiting(m, q) == 1,
        !whole(m, posted_at(m, q, 0)),
    ensures
        ({
            let stop = mmio::settled::<A>(
                q.config_spec(),
                BlkRun { mem: m, last: q.last_avail_idx, served: 0 },
            );
            let w = stop.run.mem;
            let slot = q.used + 4 + 8 * (ring_laws::used_at(m, q) % q.num as int);
            &&& stop.wait is None
            &&& stop.run.served == 1
            &&& stop.run.last == ring_laws::driver_at(m, q)
            &&& w.dom() == m.dom()
            &&& ring_laws::word32(w, slot) == posted_at(m, q, 0).head
            &&& ring_laws::word32(w, slot + 4) == 0
            &&& ring_laws::used_at(w, q) == (ring_laws::used_at(m, q) + 1) % 0x1_0000
            &&& forall|a: int|
                m.dom().contains(a) && !(q.used <= a < q.used + 4 + 8 * q.num)
                    ==> #[trigger] w[a] == m[a]
        }),
{
    let cfg = q.config_spec();
    let head = posted_at(m, q, 0).head as u16;
    let start = BlkRun { mem: m, last: q.last_avail_idx, served: 0 };
    let last = ((q.last_avail_idx + 1) % 0x1_0000) as u16;
    ring_laws::laid_out_parts(m, q, 0);
    waiting_head_is_next(m, q);
    request_is_read(m, q, 0);
    ring_laws::used_entry_is_left::<A>(m, q, head, 0);
    let w = queue::used_step::<A>(m, cfg, head, 0).0;
    one_waits(m, q, last);
    none_then(m, w, q, last);
    let end = BlkRun { mem: w, last, served: 1 };
    assert(mmio::settled::<A>(cfg, end) == BlkStop { run: end, wait: None });
    assert(mmio::settled::<A>(cfg, start) == mmio::settled::<A>(cfg, end));
}

/// Nothing waits where the driver's index has not changed.
proof fn none_then(m: GuestMem, w: GuestMem, q: QueueState, last: u16)
    requires
        q.num > 0,
        ring_laws::lies(m, q.avail as int, 4 + 2 * q.num),
        ring_laws::disjoint(q.avail as int, 4 + 2 * q.num, q.used as int, 4 + 8 * q.num),
        ring_laws::waiting(m, from_place(q, last)) == 0,
        w.dom() == m.dom(),
        forall|a: int|
            m.dom().contains(a) && !(q.used <= a < q.used + 4 + 8 * q.num) ==> #[trigger] w[a]
                == m[a],
    ensures
        queue::next_head(w, q.config_spec(), last) is None,
{
    let f = from_place(q, last);
    let v = q.avail as int;
    assert(m.dom().contains(v + 2) && m.dom().contains(v + 3));
    assert(w[v + 2] == m[v + 2] && w[v + 3] == m[v + 3]);
    assert(ring_laws::waiting(w, f) == 0);
    ring_laws::next_is_taken(w, f, 0);
    assert(((f.last_avail_idx + 0) % 0x1_0000) as u16 == last);
    assert(f.config_spec() == q.config_spec());
}

} // verus!
