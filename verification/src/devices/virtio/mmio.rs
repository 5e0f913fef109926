//! A block device over virtio-mmio, with one request queue.
//!
//! The disk itself is not reached from here. A notification starts a job: the device serves
//! requests up to the first that needs the disk and says what it needs; whoever owns the disk
//! does that and hands back the outcome; the device goes on, until the queue is drained.

use std::collections::VecDeque;

use vstd::prelude::*;

use super::block;
use super::block::{
    BlkReqHeader, VIRTIO_BLK_S_IOERR, VIRTIO_BLK_S_OK, VIRTIO_BLK_S_UNSUPP, VIRTIO_BLK_T_FLUSH,
    VIRTIO_BLK_T_IN, VIRTIO_BLK_T_OUT,
};
use super::guest;
use super::guest::{GuestAccess, GuestMem};
use super::mmio_regs as reg;
use super::queue;
use super::queue::{Descriptor, QueueConfig, VirtQueue};
use super::regs;
use super::regs::{MmioRegs, QueueState, INT_USED_RING, VIRTIO_F_VERSION_1};
use super::VIRTIO_ID_BLOCK;
use crate::bytes;
use crate::devices::device::{Device, IrqLine};

verus! {

/// The most requests that one job serves: as many as a ring index can tell apart.
pub const JOB_LIMIT: u32 = 0x1_0000;

/// What the device needs of the disk.
#[derive(Debug)]
pub enum DiskOp {
    /// Read `len` bytes from `sector` on.
    Read { sector: u64, len: usize },
    /// Write `data` from `sector` on.
    Write { sector: u64, data: Vec<u8> },
    /// Make all writes durable.
    Flush,
}

/// What came of it.
#[derive(Debug)]
pub enum DiskReply {
    /// The bytes that were read.
    Data(Vec<u8>),
    /// Written, or flushed.
    Done,
    Failed,
}

/// A disk operation as contracts see it.
pub ghost enum OpView {
    Read { sector: u64, len: int },
    Write { sector: u64, data: Seq<u8> },
    Flush,
}

impl View for DiskOp {
    type V = OpView;

    open spec fn view(&self) -> OpView {
        match *self {
            DiskOp::Read { sector, len } => OpView::Read { sector, len: len as int },
            DiskOp::Write { sector, data } => OpView::Write { sector, data: data@ },
            DiskOp::Flush => OpView::Flush,
        }
    }
}

/// A request under way.
pub ghost struct BlkReq {
    /// Its chain.
    pub head: u16,
    /// Where its status byte goes.
    pub status_at: u64,
    pub kind: u32,
    /// The sector that comes next.
    pub sector: u64,
    /// How many bytes of data have been put into the guest's buffers.
    pub written: u32,
    /// The data buffers that are left.
    pub data: Seq<Descriptor>,
}

/// A job between two requests.
pub ghost struct BlkRun {
    pub mem: GuestMem,
    /// The place in the available ring.
    pub last: u16,
    /// How many requests were served.
    pub served: int,
}

/// The request in the chain at `head`: a header in the first buffer, the status byte in the
/// last, data between them. Nothing where the chain is too short or the header out of reach.
pub open spec fn request_at(m: GuestMem, cfg: QueueConfig, head: u16) -> Option<BlkReq> {
    let chain = queue::chain_from(m, cfg.desc_table, head, cfg.size as nat);
    if chain.len() < 2 {
        None
    } else {
        match guest::read_run(m, chain[0].addr, 16) {
            None => None,
            Some(b) => Some(
                BlkReq {
                    head,
                    status_at: chain.last().addr,
                    kind: block::header_of(b).req_type,
                    sector: block::header_of(b).sector,
                    written: 0,
                    data: chain.subrange(1, chain.len() - 1),
                },
            ),
        }
    }
}

/// What a request needs of the disk next, or the status that it ends with.
pub open spec fn next_op(m: GuestMem, req: BlkReq) -> Result<OpView, u8> {
    if req.kind == VIRTIO_BLK_T_IN {
        if req.data.len() == 0 {
            Err(VIRTIO_BLK_S_OK)
        } else if !req.data[0].write_only() {
            Err(VIRTIO_BLK_S_IOERR)
        } else {
            Ok(OpView::Read { sector: req.sector, len: req.data[0].len as int })
        }
    } else if req.kind == VIRTIO_BLK_T_OUT {
        if req.data.len() == 0 {
            Err(VIRTIO_BLK_S_OK)
        } else {
            match guest::read_run(m, req.data[0].addr, req.data[0].len as int) {
                None => Err(VIRTIO_BLK_S_IOERR),
                Some(b) => Ok(OpView::Write { sector: req.sector, data: b }),
            }
        }
    } else if req.kind == VIRTIO_BLK_T_FLUSH {
        Ok(OpView::Flush)
    } else {
        Err(VIRTIO_BLK_S_UNSUPP)
    }
}

/// The memory after a request ended with `status`: the status byte is written, and the chain
/// is recorded as used with the data written into it and that byte.
pub open spec fn ended<A: GuestAccess>(
    m: GuestMem,
    cfg: QueueConfig,
    req: BlkReq,
    status: u8,
) -> GuestMem {
    let m1 = guest::write_run::<A>(m, req.status_at as int, seq![status]).0;
    let len = ((req.written + 1) % 0x1_0000_0000) as u32;
    queue::used_step::<A>(m1, cfg, req.head, len).0
}

/// A job after a request ended with `status`.
pub open spec fn completed<A: GuestAccess>(
    cfg: QueueConfig,
    run: BlkRun,
    req: BlkReq,
    status: u8,
) -> BlkRun {
    BlkRun {
        mem: ended::<A>(run.mem, cfg, req, status),
        last: run.last,
        served: run.served + 1,
    }
}

/// Where a job stands when it next needs the disk, or ends.
pub ghost struct BlkStop {
    pub run: BlkRun,
    /// The request that waits, and for what.
    pub wait: Option<(BlkReq, OpView)>,
}

/// Serves requests up to the first that needs the disk. A chain that holds no request is
/// recorded as used with nothing in it.
pub open spec fn settled<A: GuestAccess>(cfg: QueueConfig, run: BlkRun) -> BlkStop
    decreases JOB_LIMIT - run.served,
{
    if run.served >= JOB_LIMIT {
        BlkStop { run, wait: None }
    } else {
        match queue::next_head(run.mem, cfg, run.last) {
            None => BlkStop { run, wait: None },
            Some(head) => {
                let popped = BlkRun { last: queue::next_index(run.last), ..run };
                match request_at(run.mem, cfg, head) {
                    None => settled::<A>(
                        cfg,
                        BlkRun {
                            mem: queue::used_step::<A>(run.mem, cfg, head, 0).0,
                            served: run.served + 1,
                            ..popped
                        },
                    ),
                    Some(req) => match next_op(run.mem, req) {
                        Ok(op) => BlkStop { run: popped, wait: Some((req, op)) },
                        Err(status) => settled::<A>(
                            cfg,
                            completed::<A>(cfg, popped, req, status),
                        ),
                    },
                }
            },
        }
    }
}

/// What a reply of the disk does to the request that waits for it: the memory, and the request
/// as it goes on or the status that it ends with. A reply that does not fit counts as failed.
#[verifier::opaque]
pub open spec fn answered<A: GuestAccess>(m: GuestMem, req: BlkReq, reply: DiskReply) -> (
    GuestMem,
    Result<BlkReq, u8>,
) {
    if req.kind == VIRTIO_BLK_T_FLUSH {
        (
            m,
            Err(
                if reply is Done {
                    VIRTIO_BLK_S_OK
                } else {
                    VIRTIO_BLK_S_IOERR
                },
            ),
        )
    } else if req.data.len() == 0 {
        (m, Err(VIRTIO_BLK_S_IOERR))
    } else {
        let d = req.data[0];
        let gone = BlkReq {
            sector: ((req.sector + d.len as int / 512) % guest::address_end()) as u64,
            data: req.data.skip(1),
            ..req
        };
        if req.kind == VIRTIO_BLK_T_IN {
            match reply {
                DiskReply::Data(b) => if b@.len() == d.len {
                    let w = guest::write_run::<A>(m, d.addr as int, b@);
                    if w.1 {
                        (
                            w.0,
                            Ok(
                                BlkReq {
                                    written: ((req.written + d.len) % 0x1_0000_0000) as u32,
                                    ..gone
                                },
                            ),
                        )
                    } else {
                        (w.0, Err(VIRTIO_BLK_S_IOERR))
                    }
                } else {
                    (m, Err(VIRTIO_BLK_S_IOERR))
                },
                _ => (m, Err(VIRTIO_BLK_S_IOERR)),
            }
        } else if reply is Done {
            (m, Ok(gone))
        } else {
            (m, Err(VIRTIO_BLK_S_IOERR))
        }
    }
}

/// Where a job stands after the disk's reply to `req`, when it next needs the disk, or ends.
pub open spec fn resumed<A: GuestAccess>(
    cfg: QueueConfig,
    run: BlkRun,
    req: BlkReq,
    reply: DiskReply,
) -> BlkStop {
    let (m, next) = answered::<A>(run.mem, req, reply);
    let now = BlkRun { mem: m, ..run };
    match next {
        Err(status) => settled::<A>(cfg, completed::<A>(cfg, now, req, status)),
        Ok(more) => match next_op(m, more) {
            Ok(op) => BlkStop { run: now, wait: Some((more, op)) },
            Err(status) => settled::<A>(cfg, completed::<A>(cfg, now, more, status)),
        },
    }
}

/// A job that waits for the disk.
pub ghost struct BlkJobView {
    pub cfg: QueueConfig,
    pub last: u16,
    pub served: int,
    pub req: BlkReq,
    pub op: OpView,
}

/// The state of the device.
pub ghost struct BlkView<A, I> {
    pub regs: MmioRegs,
    pub queue: QueueState,
    pub capacity: u64,
    pub mem: A,
    pub irq: I,
    pub job: Option<BlkJobView>,
}

/// Whether the device may go from `v` to `w` as a job stops at `stop`: it waits for the disk,
/// or it ends, keeps its place in the queue and raises the interrupt if it served a request.
pub open spec fn stopped<A: GuestAccess, I: IrqLine>(
    v: BlkView<A, I>,
    cfg: QueueConfig,
    stop: BlkStop,
    w: BlkView<A, I>,
) -> bool {
    &&& w.mem.mem() == stop.run.mem
    &&& match stop.wait {
        Some((req, op)) => w == (BlkView {
            mem: w.mem,
            job: Some(
                BlkJobView { cfg, last: stop.run.last, served: stop.run.served, req, op },
            ),
            ..v
        }),
        None => {
            let kept = BlkView {
                mem: w.mem,
                queue: QueueState { last_avail_idx: stop.run.last, ..v.queue },
                job: None,
                ..v
            };
            if stop.run.served > 0 {
                &&& v.irq.drives(true, &w.irq)
                &&& w == (BlkView { regs: regs::regs_raised(v.regs), irq: w.irq, ..kept })
            } else {
                w == kept
            }
        },
    }
}

/// Whether a register write may take the device from `v` to `w`. A notification starts a job,
/// unless one is under way: that one drains the queue.
pub open spec fn blk_written<A: GuestAccess, I: IrqLine>(
    v: BlkView<A, I>,
    offset: u64,
    val: u32,
    w: BlkView<A, I>,
) -> bool {
    if offset >= reg::CONFIG {
        w == v
    } else if offset == reg::QUEUE_NOTIFY {
        if v.queue.ready && v.queue.num != 0 && v.job is None {
            let cfg = v.queue.config_spec();
            let start = BlkRun { mem: v.mem.mem(), last: v.queue.last_avail_idx, served: 0 };
            stopped(v, cfg, settled::<A>(cfg, start), w)
        } else {
            w == v
        }
    } else {
        &&& w == (BlkView {
            regs: regs::regs_written(v.regs, offset, val),
            queue: if regs::is_reset(offset, val) {
                regs::blank_queue()
            } else {
                regs::queue_programmed(v.queue, offset, val)
            },
            irq: w.irq,
            ..v
        })
        &&& if regs::acks_all(v.regs, offset, val) {
            v.irq.drives(false, &w.irq)
        } else {
            w.irq == v.irq
        }
    }
}

/// A request under way.
struct Request {
    head: u16,
    status_at: u64,
    kind: u32,
    sector: u64,
    written: u32,
    data: VecDeque<Descriptor>,
}

impl View for Request {
    type V = BlkReq;

    closed spec fn view(&self) -> BlkReq {
        BlkReq {
            head: self.head,
            status_at: self.status_at,
            kind: self.kind,
            sector: self.sector,
            written: self.written,
            data: self.data@,
        }
    }
}

/// A job that waits for the disk.
struct Job {
    cfg: QueueConfig,
    last: u16,
    served: u32,
    req: Request,
    op: DiskOp,
}

impl Job {
    /// A job is about a queue with room in it, and has not served all that it may.
    #[verifier::type_invariant]
    spec fn sound(&self) -> bool {
        self.cfg.size != 0 && self.served < JOB_LIMIT
    }
}

/// The block device.
pub struct VirtioBlkMmio<A, I> {
    regs: MmioRegs,
    queue: QueueState,
    capacity: u64,
    mem: A,
    irq: I,
    job: Option<Job>,
}

impl<A, I> View for VirtioBlkMmio<A, I> {
    type V = BlkView<A, I>;

    closed spec fn view(&self) -> BlkView<A, I> {
        BlkView {
            regs: self.regs,
            queue: self.queue,
            capacity: self.capacity,
            mem: self.mem,
            irq: self.irq,
            job: match self.job {
                None => None,
                Some(j) => Some(
                    BlkJobView {
                        cfg: j.cfg,
                        last: j.last,
                        served: j.served as int,
                        req: j.req@,
                        op: j.op@,
                    },
                ),
            },
        }
    }
}

/// Reads the request in the chain at `head`.
fn parse_request<A: GuestAccess>(mem: &A, vq: &VirtQueue, head: u16) -> (r: Option<Request>)
    ensures
        match r {
            Some(q) => request_at(mem.mem(), vq.config(), head) == Some(q@),
            None => request_at(mem.mem(), vq.config(), head) is None,
        },
{
    let chain = vq.chain(mem, head);
    if chain.len() < 2 {
        return None;
    }
    let b = match guest::read_guest(mem, chain[0].addr, 16) {
        Some(b) => b,
        None => {
            return None;
        },
    };
    let h = match BlkReqHeader::parse(&b) {
        Some(h) => h,
        None => {
            return None;
        },
    };
    let mut data: VecDeque<Descriptor> = VecDeque::new();
    let end: usize = chain.len() - 1;
    let mut i: usize = 1;
    assert(data@ =~= chain@.subrange(1, 1));
    while i < end
        invariant
            1 <= i <= end,
            end == chain@.len() - 1,
            data@ == chain@.subrange(1, i as int),
        decreases end - i,
    {
        data.push_back(chain[i]);
        i += 1;
        assert(data@ =~= chain@.subrange(1, i as int));
    }
    Some(
        Request {
            head,
            status_at: chain[end].addr,
            kind: h.req_type,
            sector: h.sector,
            written: 0,
            data,
        },
    )
}

/// What a request needs of the disk next, or the status that it ends with.
fn plan<A: GuestAccess>(mem: &A, req: &Request) -> (r: Result<DiskOp, u8>)
    ensures
        match r {
            Ok(op) => next_op(mem.mem(), req@) == Ok::<OpView, u8>(op@),
            Err(s) => next_op(mem.mem(), req@) == Err::<OpView, u8>(s),
        },
{
    match req.kind {
        VIRTIO_BLK_T_IN => {
            if req.data.len() == 0 {
                return Err(VIRTIO_BLK_S_OK);
            }
            let d = req.data[0];
            if !d.is_write_only() {
                Err(VIRTIO_BLK_S_IOERR)
            } else {
                Ok(DiskOp::Read { sector: req.sector, len: d.len as usize })
            }
        },
        VIRTIO_BLK_T_OUT => {
            if req.data.len() == 0 {
                return Err(VIRTIO_BLK_S_OK);
            }
            let d = req.data[0];
            match guest::read_guest(mem, d.addr, d.len as usize) {
                None => Err(VIRTIO_BLK_S_IOERR),
                Some(data) => Ok(DiskOp::Write { sector: req.sector, data }),
            }
        },
        VIRTIO_BLK_T_FLUSH => Ok(DiskOp::Flush),
        _ => Err(VIRTIO_BLK_S_UNSUPP),
    }
}

/// Ends a request with `status`.
fn complete<A: GuestAccess>(mem: &mut A, vq: &mut VirtQueue, req: &Request, status: u8)
    requires
        old(vq).config().size != 0,
    ensures
        *final(vq) == *old(vq),
        final(mem).mem() == ended::<A>(old(mem).mem(), old(vq).config(), req@, status),
{
    let one: [u8; 1] = [status];
    assert(one@ =~= seq![status]);
    let _ = guest::write_guest(mem, req.status_at, &one);
    let _ = vq.add_used(mem, req.head, req.written.wrapping_add(1));
}

/// Serves requests up to the first that needs the disk.
fn settle<A: GuestAccess>(mem: &mut A, vq: &mut VirtQueue, start: u32) -> (r: (
    u32,
    Option<(Request, DiskOp)>,
))
    requires
        old(vq).config().size != 0,
    ensures
        final(vq).config() == old(vq).config(),
        ({
            let goal = settled::<A>(
                old(vq).config(),
                BlkRun { mem: old(mem).mem(), last: old(vq).position(), served: start as int },
            );
            &&& goal.run == (BlkRun {
                mem: final(mem).mem(),
                last: final(vq).position(),
                served: r.0 as int,
            })
            &&& match r.1 {
                Some((req, op)) => goal.wait == Some((req@, op@)) && r.0 < JOB_LIMIT,
                None => goal.wait is None,
            }
        }),
{
    let ghost cfg = vq.config();
    let ghost goal = settled::<A>(
        cfg,
        BlkRun { mem: mem.mem(), last: vq.position(), served: start as int },
    );
    let mut served: u32 = start;
    while served < JOB_LIMIT
        invariant
            cfg.size != 0,
            vq.config() == cfg,
            cfg == old(vq).config(),
            goal == settled::<A>(
                cfg,
                BlkRun { mem: old(mem).mem(), last: old(vq).position(), served: start as int },
            ),
            goal == settled::<A>(
                cfg,
                BlkRun { mem: mem.mem(), last: vq.position(), served: served as int },
            ),
        decreases JOB_LIMIT - served,
    {
        let ghost before = BlkRun { mem: mem.mem(), last: vq.position(), served: served as int };
        let head: u16 = match vq.pop_avail(mem) {
            Some(h) => h,
            None => {
                return (served, None);
            },
        };
        let ghost popped = BlkRun { last: vq.position(), ..before };
        match parse_request(mem, vq, head) {
            None => {
                let _ = vq.add_used(mem, head, 0);
            },
            Some(req) => {
                match plan(mem, &req) {
                    Ok(op) => {
                        return (served, Some((req, op)));
                    },
                    Err(status) => {
                        complete(mem, vq, &req, status);
                        assert(completed::<A>(cfg, popped, req@, status) == (BlkRun {
                            mem: mem.mem(),
                            last: popped.last,
                            served: popped.served + 1,
                        }));
                    },
                }
            },
        }
        served += 1;
    }
    (served, None)
}

/// Applies the disk's reply to the request that waits for it: nothing where it goes on, else
/// the status that it ends with.
fn answer<A: GuestAccess>(mem: &mut A, req: &mut Request, reply: &DiskReply) -> (r: Option<u8>)
    ensures
        ({
            let (m, next) = answered::<A>(old(mem).mem(), old(req)@, *reply);
            &&& final(mem).mem() == m
            &&& match r {
                None => next == Ok::<BlkReq, u8>(final(req)@),
                Some(s) => next == Err::<BlkReq, u8>(s) && final(req)@ == old(req)@,
            }
        }),
{
    reveal(answered);
    if req.kind == VIRTIO_BLK_T_FLUSH {
        return match reply {
            DiskReply::Done => Some(VIRTIO_BLK_S_OK),
            _ => Some(VIRTIO_BLK_S_IOERR),
        };
    }
    if req.data.len() == 0 {
        return Some(VIRTIO_BLK_S_IOERR);
    }
    let d = req.data[0];
    let mut filled: u32 = 0;
    if req.kind == VIRTIO_BLK_T_IN {
        match reply {
            DiskReply::Data(b) => {
                if b.len() != d.len as usize {
                    return Some(VIRTIO_BLK_S_IOERR);
                }
                if !guest::write_guest(mem, d.addr, b.as_slice()) {
                    return Some(VIRTIO_BLK_S_IOERR);
                }
                filled = d.len;
            },
            _ => {
                return Some(VIRTIO_BLK_S_IOERR);
            },
        }
    } else {
        match reply {
            DiskReply::Done => {},
            _ => {
                return Some(VIRTIO_BLK_S_IOERR);
            },
        }
    }
    let ghost was = req.data@;
    req.written = req.written.wrapping_add(filled);
    req.sector = req.sector.wrapping_add(d.len as u64 / 512);
    let _ = req.data.pop_front();
    assert(req.data@ =~= was.skip(1));
    None
}

impl<A: GuestAccess, I: IrqLine> VirtioBlkMmio<A, I> {
    /// A device for a disk of `capacity` sectors.
    pub fn new(capacity: u64, mem: A, irq: I) -> (r: Self)
        ensures
            r@ == (BlkView {
                regs: regs::blank_regs(),
                queue: regs::blank_queue(),
                capacity,
                mem,
                irq,
                job: None,
            }),
    {
        VirtioBlkMmio {
            regs: MmioRegs::default(),
            queue: QueueState::default(),
            capacity,
            mem,
            irq,
            job: None,
        }
    }

    /// Keeps what a job needs to go on, or ends it.
    fn stop_at(&mut self, vq: VirtQueue, cfg: QueueConfig, served: u32, wait: Option<(Request, DiskOp)>)
        requires
            wait is Some ==> cfg.size != 0 && served < JOB_LIMIT,
        ensures
            match wait {
                Some((req, op)) => final(self)@ == (BlkView {
                    job: Some(
                        BlkJobView {
                            cfg,
                            last: vq.position(),
                            served: served as int,
                            req: req@,
                            op: op@,
                        },
                    ),
                    ..old(self)@
                }),
                None => {
                    let kept = BlkView {
                        queue: QueueState { last_avail_idx: vq.position(), ..old(self)@.queue },
                        job: None,
                        ..old(self)@
                    };
                    if served > 0 {
                        &&& old(self)@.irq.drives(true, &final(self)@.irq)
                        &&& final(self)@ == (BlkView {
                            regs: regs::regs_raised(old(self)@.regs),
                            irq: final(self)@.irq,
                            ..kept
                        })
                    } else {
                        final(self)@ == kept
                    }
                },
            },
    {
        match wait {
            Some((req, op)) => {
                self.job = Some(Job { cfg, last: vq.last_avail_idx(), served, req, op });
            },
            None => {
                self.job = None;
                self.queue.last_avail_idx = vq.last_avail_idx();
                if served > 0 {
                    self.regs.interrupt_status = self.regs.interrupt_status | INT_USED_RING;
                    self.irq.set(true);
                }
            },
        }
    }

    /// Starts a job on the request queue.
    fn process_queue(&mut self)
        ensures
            blk_written(old(self)@, reg::QUEUE_NOTIFY, 0, final(self)@),
    {
        if !self.queue.ready || self.queue.num == 0 || self.job.is_some() {
            return;
        }
        let cfg = self.queue.config();
        let mut vq = VirtQueue::new(cfg, self.queue.last_avail_idx);
        let (served, wait) = settle(&mut self.mem, &mut vq, 0);
        self.stop_at(vq, cfg, served, wait);
    }

    /// What the job under way waits for, if there is one.
    pub fn disk_op(&self) -> (r: Option<&DiskOp>)
        ensures
            match r {
                Some(op) => self@.job is Some && self@.job->0.op == op@,
                None => self@.job is None,
            },
    {
        match &self.job {
            Some(j) => Some(&j.op),
            None => None,
        }
    }

    /// Hands back what came of the disk operation that the job waits for, and goes on with the
    /// job. Without a job nothing happens.
    pub fn disk_done(&mut self, reply: DiskReply)
        ensures
            match old(self)@.job {
                None => final(self)@ == old(self)@,
                Some(j) => stopped(
                    BlkView { job: None, ..old(self)@ },
                    j.cfg,
                    resumed::<A>(
                        j.cfg,
                        BlkRun { mem: old(self)@.mem.mem(), last: j.last, served: j.served },
                        j.req,
                        reply,
                    ),
                    final(self)@,
                ),
            },
    {
        let taken = self.job.take();
        let job = match taken {
            Some(j) => j,
            None => {
                return;
            },
        };
        proof {
            use_type_invariant(&job);
        }
        let cfg = job.cfg;
        let mut req = job.req;
        let mut vq = VirtQueue::new(cfg, job.last);
        let mut served: u32 = job.served;
        let ghost run = BlkRun { mem: self.mem.mem(), last: job.last, served: served as int };
        let over = match answer(&mut self.mem, &mut req, &reply) {
            Some(status) => Some(status),
            None => match plan(&self.mem, &req) {
                Ok(op) => {
                    self.stop_at(vq, cfg, served, Some((req, op)));
                    return;
                },
                Err(status) => Some(status),
            },
        };
        if let Some(status) = over {
            let ghost now = BlkRun { mem: self.mem.mem(), ..run };
            complete(&mut self.mem, &mut vq, &req, status);
            assert(completed::<A>(cfg, now, req@, status) == (BlkRun {
                mem: self.mem.mem(),
                last: run.last,
                served: run.served + 1,
            }));
            served += 1;
            let (total, wait) = settle(&mut self.mem, &mut vq, served);
            self.stop_at(vq, cfg, total, wait);
        }
    }
}

impl<A: GuestAccess, I: IrqLine> Device for VirtioBlkMmio<A, I> {
    open spec fn reads(&self, offset: u64, before: Seq<u8>, post: &Self, after: Seq<u8>) -> bool {
        &&& *post == *self
        &&& after == if offset >= reg::CONFIG {
            regs::config_bytes(
                bytes::le64(self@.capacity),
                (offset - reg::CONFIG) as u64,
                before.len(),
            )
        } else {
            regs::reg_bytes(
                regs::reg_read(
                    self@.regs,
                    VIRTIO_ID_BLOCK,
                    VIRTIO_F_VERSION_1,
                    self@.queue.ready,
                    offset,
                ),
                before.len(),
            )
        }
    }

    open spec fn writes(&self, offset: u64, data: Seq<u8>, post: &Self) -> bool {
        blk_written(self@, offset, regs::reg_val(data), post@)
    }

    fn read(&mut self, offset: u64, data: &mut [u8]) {
        if offset >= reg::CONFIG {
            let config = bytes::to_le64(self.capacity);
            regs::fill_config(data, &config, offset - reg::CONFIG);
            return;
        }
        let val: u32 = self.regs.read(
            VIRTIO_ID_BLOCK,
            VIRTIO_F_VERSION_1,
            self.queue.ready,
            offset,
        );
        regs::fill_val(data, val);
    }

    fn write(&mut self, offset: u64, data: &[u8]) {
        if offset >= reg::CONFIG {
            return;
        }
        let val: u32 = regs::decode_val(data);
        if offset == reg::QUEUE_NOTIFY {
            self.process_queue();
            return;
        }
        if offset == reg::STATUS && val == 0 {
            self.queue = QueueState::default();
        } else {
            self.queue.program(offset, val);
        }
        self.regs.write(offset, val);
        if offset == reg::INTERRUPT_ACK && self.regs.interrupt_status == 0 {
            self.irq.set(false);
        }
    }
}

} // verus!
