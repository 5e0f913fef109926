//! What the block device does for a driver, from the driver's own bytes: a notification starts
//! on what waits, the disk is asked for what the driver asked, and what the disk gave and how it
//! ended is found where the driver looks for it.

use vstd::prelude::*;

use super::blk_drain;
use super::blk_laws;
use super::guest::{GuestAccess, GuestMem};
use super::mmio;
use super::mmio::{BlkReq, BlkRun, BlkStop, BlkView, DiskOp, DiskReply, VirtioBlkMmio};
use super::queue;
use super::queue::QueueConfig;
use super::regs;
use super::regs::QueueState;
use super::ring_laws;
use crate::devices::device::{Device, IrqLine};

verus! {

/// Whether the disk's reply may take the device from `v` to `w`.
pub open spec fn replied<A: GuestAccess, I: IrqLine>(
    v: BlkView<A, I>,
    reply: DiskReply,
    w: BlkView<A, I>,
) -> bool {
    match v.job {
        None => w == v,
        Some(j) => mmio::stopped(
            BlkView { job: None, ..v },
            j.cfg,
            mmio::resumed::<A>(
                j.cfg,
                BlkRun { mem: v.mem.mem(), last: j.last, served: j.served },
                j.req,
                reply,
            ),
            w,
        ),
    }
}

/// Whether the disk's replies, one after the other, may take the device from `v` to `w`.
pub open spec fn replied_all<A: GuestAccess, I: IrqLine>(
    v: BlkView<A, I>,
    replies: Seq<DiskReply>,
    w: BlkView<A, I>,
) -> bool
    decreases replies.len(),
{
    if replies.len() == 0 {
        w == v
    } else {
        exists|mid: BlkView<A, I>|
            #[trigger] replied(v, replies[0], mid) && replied_all(mid, replies.skip(1), w)
    }
}

/// Handing the disk's reply to the device is what these laws speak of, and what the device says
/// that it needs of the disk is what its job waits for.
pub proof fn disk_calls<A: GuestAccess, I: IrqLine>(
    reply: DiskReply,
    d: VirtioBlkMmio<A, I>,
    op: Option<&DiskOp>,
)
    requires
        call_ensures(VirtioBlkMmio::<A, I>::disk_op, (&d,), op),
    ensures
        forall|s: &mut VirtioBlkMmio<A, I>| #[trigger]
            call_ensures(VirtioBlkMmio::<A, I>::disk_done, (s, reply), ()) ==> replied(
                (*s)@,
                reply,
                (*final(s))@,
            ),
        match d@.job {
            Some(j) => op matches Some(o) && o@ == j.op,
            None => op is None,
        },
{
}

/// A job that waits, as it stands.
spec fn stop_of<A: GuestAccess, I: IrqLine>(v: BlkView<A, I>) -> BlkStop {
    let j = v.job->0;
    BlkStop {
        run: BlkRun { mem: v.mem.mem(), last: j.last, served: j.served },
        wait: Some((j.req, j.op)),
    }
}

/// A job that has had all its replies has left the device as the job says.
#[verifier::rlimit(60)]
#[verifier::spinoff_prover]
proof fn replies_run_job<A: GuestAccess, I: IrqLine>(
    v: BlkView<A, I>,
    replies: Seq<DiskReply>,
    w: BlkView<A, I>,
    cfg: QueueConfig,
)
    requires
        v.job matches Some(j) && j.cfg == cfg,
        replied_all(v, replies, w),
        blk_laws::job_run::<A>(cfg, stop_of(v), replies).wait is None,
        v.job->0.served >= 0,
    ensures
        ({
            let end = blk_laws::job_run::<A>(cfg, stop_of(v), replies).run;
            &&& w.job is None
            &&& w.mem.mem() == end.mem
            &&& w.queue == (QueueState { last_avail_idx: end.last, ..v.queue })
            &&& w.capacity == v.capacity
            &&& end.served > 0 ==> v.irq.drives(true, &w.irq) && w.regs == regs::regs_raised(
                v.regs,
            )
        }),
    decreases replies.len(),
{
    if replies.len() > 0 {
        let mid = choose|mid: BlkView<A, I>|
            #[trigger] replied(v, replies[0], mid) && replied_all(mid, replies.skip(1), w);
        let j = v.job->0;
        let next = mmio::resumed::<A>(
            cfg,
            BlkRun { mem: v.mem.mem(), last: j.last, served: j.served },
            j.req,
            replies[0],
        );
        let end = blk_laws::job_run::<A>(cfg, stop_of(v), replies);
        assert(end == blk_laws::job_run::<A>(cfg, next, replies.skip(1)));
        if next.wait is Some {
            assert(stop_of(mid) == next);
            served_grows::<A>(cfg, stop_of(v).run, j.req, replies[0]);
            replies_run_job(mid, replies.skip(1), w, cfg);
        } else {
            assert(end == next);
            nothing_waits(mid, replies.skip(1), w);
        }
    }
}

/// A job never serves fewer than it did.
proof fn served_grows<A: GuestAccess>(cfg: QueueConfig, run: BlkRun, req: BlkReq, reply: DiskReply)
    ensures
        mmio::resumed::<A>(cfg, run, req, reply).run.served >= run.served,
{
    let (m, next) = mmio::answered::<A>(run.mem, req, reply);
    let now = BlkRun { mem: m, ..run };
    match next {
        Err(status) => blk_laws::job_drains::<A>(
            cfg,
            mmio::completed::<A>(cfg, now, req, status),
        ),
        Ok(more) => if let Err(status) = mmio::next_op(m, more) {
            blk_laws::job_drains::<A>(cfg, mmio::completed::<A>(cfg, now, more, status));
        },
    }
}

/// Without a job a reply changes nothing.
proof fn nothing_waits<A: GuestAccess, I: IrqLine>(
    v: BlkView<A, I>,
    replies: Seq<DiskReply>,
    w: BlkView<A, I>,
)
    requires
        v.job is None,
        replied_all(v, replies, w),
    ensures
        w == v,
    decreases replies.len(),
{
    if replies.len() > 0 {
        let mid = choose|mid: BlkView<A, I>|
            #[trigger] replied(v, replies[0], mid) && replied_all(mid, replies.skip(1), w);
        nothing_waits(mid, replies.skip(1), w);
    }
}

/// Any write to the notification register of a device without a job, whose queue is ready,
/// starts on what waits: with anything waiting the device then waits for the disk, or has served
/// all that waited and interrupts the guest.
#[verifier::rlimit(60)]
#[verifier::spinoff_prover]
pub proof fn notification_starts<A: GuestAccess, I: IrqLine>(
    d: VirtioBlkMmio<A, I>,
    data: Seq<u8>,
    p: VirtioBlkMmio<A, I>,
)
    requires
        d.writes(0x50, data, &p),
        d@.job is None,
        d@.queue.ready,
        ring_laws::laid_out(d@.mem.mem(), d@.queue),
        ring_laws::waiting(d@.mem.mem(), d@.queue) > 0,
    ensures
        ({
            let m = d@.mem.mem();
            let q = d@.queue;
            ||| p@.job is Some
            ||| {
                &&& ring_laws::used_at(p@.mem.mem(), q) == (ring_laws::used_at(m, q)
                    + ring_laws::waiting(m, q)) % 0x1_0000
                &&& ring_laws::used_at(p@.mem.mem(), q) != ring_laws::used_at(m, q)
                &&& p@.queue.last_avail_idx == ring_laws::driver_at(m, q)
                &&& d@.irq.drives(true, &p@.irq)
                &&& p@.regs.interrupt_status % 2 == 1
            }
        }),
{
    if p@.job is None {
        assert(replied_all(p@, seq![], p@));
        job_is_done(d, data, p@, seq![], p@);
    }
}

/// A job that a notification started and that has had its replies leaves nothing waiting: the
/// used ring has moved on by all that waited, the device stands where the driver does, and the
/// guest is interrupted.
#[verifier::rlimit(60)]
#[verifier::spinoff_prover]
proof fn job_is_done<A: GuestAccess, I: IrqLine>(
    d: VirtioBlkMmio<A, I>,
    data: Seq<u8>,
    p: BlkView<A, I>,
    replies: Seq<DiskReply>,
    w: BlkView<A, I>,
)
    requires
        mmio::blk_written(d@, 0x50, regs::reg_val(data), p),
        d@.job is None,
        d@.queue.ready,
        ring_laws::laid_out(d@.mem.mem(), d@.queue),
        ring_laws::waiting(d@.mem.mem(), d@.queue) > 0,
        replied_all(p, replies, w),
        p.job is Some ==> replies.len() >= d@.queue.num * ring_laws::waiting(
            d@.mem.mem(),
            d@.queue,
        ),
    ensures
        ({
            let m = d@.mem.mem();
            let q = d@.queue;
            let k = ring_laws::waiting(m, q);
            &&& w.job is None
            &&& ring_laws::used_at(w.mem.mem(), q) == (ring_laws::used_at(m, q) + k) % 0x1_0000
            &&& ring_laws::used_at(w.mem.mem(), q) != ring_laws::used_at(m, q)
            &&& w.queue.last_avail_idx == ring_laws::driver_at(m, q)
            &&& d@.irq.drives(true, &w.irq)
            &&& w.regs.interrupt_status % 2 == 1
        }),
{
    reveal(ring_laws::laid_out);
    let m = d@.mem.mem();
    let q = d@.queue;
    let cfg = q.config_spec();
    let k = ring_laws::waiting(m, q);
    let start = blk_laws::at_start(m, q.last_avail_idx);
    let asked = mmio::settled::<A>(cfg, start);
    ring_laws::laid_out_is_tidy(m, q);
    assert(q.num > 0);
    assert(start == BlkRun { mem: m, last: q.last_avail_idx, served: 0 });
    assert(mmio::stopped(d@, cfg, asked, p));
    assert(0 <= ring_laws::used_at(m, q) < 0x1_0000 && 0 <= ring_laws::driver_at(m, q) < 0x1_0000);
    let s = d@.regs.interrupt_status;
    assert((s | 1u32) % 2 == 1) by (bit_vector);
    reveal(blk_drain::moved);
    if p.job is Some {
        blk_drain::job_serves_all::<A>(m, cfg, q.last_avail_idx, replies);
        blk_laws::job_drains::<A>(cfg, start);
        assert(stop_of(p) == asked);
        replies_run_job(p, replies, w, cfg);
        let end = blk_laws::job_run::<A>(cfg, asked, replies).run;
        used_in_words(m, end.mem, q, k);
    } else {
        nothing_waits(p, replies, w);
        blk_drain::settled_carries::<A>(cfg, start);
        queue::pop_counts_down(asked.run.mem, cfg, asked.run.last);
        blk_drain::tidy_kept(m, asked.run.mem, cfg);
        used_in_words(m, asked.run.mem, q, k);
    }
}

/// The used ring's index, as a word.
proof fn used_in_words(m: GuestMem, r: GuestMem, q: QueueState, k: int)
    requires
        ring_laws::laid_out(m, q),
        0 < k < 0x1_0000,
        queue::used_index(r, q.config_spec()) == Some(
            ((queue::used_index(m, q.config_spec())->0 + k) % 0x1_0000) as u16,
        ),
    ensures
        ring_laws::used_at(r, q) == (ring_laws::used_at(m, q) + k) % 0x1_0000,
        ring_laws::used_at(r, q) != ring_laws::used_at(m, q),
{
    reveal(ring_laws::laid_out);
    ring_laws::laid_out_is_tidy(m, q);
    assert(queue::at(q.used, 2) == q.used + 2);
    ring_laws::reads_give_words(r, queue::at(q.used, 2));
    assert(0 <= ring_laws::used_at(r, q) < 0x1_0000);
    assert(0 <= ring_laws::used_at(m, q) < 0x1_0000);
}

/// Whatever the disk answers, a job that a notification started serves all that waited, after
/// at most as many replies as the queue has descriptors for each: then nothing waits, the used
/// ring has moved on by as many, and the guest is interrupted.
pub proof fn notification_serves_all<A: GuestAccess, I: IrqLine>(
    d: VirtioBlkMmio<A, I>,
    data: Seq<u8>,
    p: VirtioBlkMmio<A, I>,
    replies: Seq<DiskReply>,
    w: VirtioBlkMmio<A, I>,
)
    requires
        d.writes(0x50, data, &p),
        d@.job is None,
        d@.queue.ready,
        ring_laws::laid_out(d@.mem.mem(), d@.queue),
        ring_laws::waiting(d@.mem.mem(), d@.queue) > 0,
        replied_all(p@, replies, w@),
        replies.len() >= d@.queue.num * ring_laws::waiting(d@.mem.mem(), d@.queue),
    ensures
        w@.job is None,
        ring_laws::used_at(w@.mem.mem(), d@.queue) == (ring_laws::used_at(
            d@.mem.mem(),
            d@.queue,
        ) + ring_laws::waiting(d@.mem.mem(), d@.queue)) % 0x1_0000,
        w@.queue.last_avail_idx == ring_laws::driver_at(d@.mem.mem(), d@.queue),
        d@.irq.drives(true, &w@.irq),
        w@.regs.interrupt_status % 2 == 1,
{
    job_is_done(d, data, p@, replies, w@);
}

/// A queue that is not ready, or a job under way, is not started on.
pub proof fn notification_is_passed_over<A: GuestAccess, I: IrqLine>(
    d: VirtioBlkMmio<A, I>,
    data: Seq<u8>,
    p: VirtioBlkMmio<A, I>,
)
    requires
        d.writes(0x50, data, &p),
        d@.job is Some || !d@.queue.ready,
    ensures
        p@ == d@,
{
}

/// A number as a driver writes it to a register, least significant byte first.
pub open spec fn register(n: int) -> Seq<u8> {
    seq![
        (n % 0x100) as u8,
        (n / 0x100 % 0x100) as u8,
        (n / 0x1_0000 % 0x100) as u8,
        (n / 0x100_0000 % 0x100) as u8,
    ]
}

/// A register write carries the number that its bytes make.
pub proof fn register_carries(n: int)
    requires
        0 <= n < 0x1_0000_0000,
    ensures
        regs::reg_val(register(n)) == n,
{
    let b = register(n);
    let t = Seq::new(4, |i: int| if i < b.len() { b[i] } else { 0 });
    assert(t =~= b);
    assert(n == n % 0x100 + 0x100 * (n / 0x100 % 0x100) + 0x1_0000 * (n / 0x1_0000 % 0x100)
        + 0x100_0000 * (n / 0x100_0000 % 0x100));
}

/// What a driver writes to set a queue up: its size, the two halves of its three addresses, and
/// that it is ready.
pub open spec fn queue_set_up(num: int, desc: int, avail: int, used: int) -> Seq<(u64, int)> {
    seq![
        (0x38u64, num),
        (0x80u64, desc % 0x1_0000_0000),
        (0x84u64, desc / 0x1_0000_0000),
        (0x90u64, avail % 0x1_0000_0000),
        (0x94u64, avail / 0x1_0000_0000),
        (0xa0u64, used % 0x1_0000_0000),
        (0xa4u64, used / 0x1_0000_0000),
        (0x44u64, 1int),
    ]
}

/// Whether register writes, one after the other, may take the device from `d` to `p`.
pub open spec fn written_all<A: GuestAccess, I: IrqLine>(
    d: VirtioBlkMmio<A, I>,
    writes: Seq<(u64, int)>,
    p: VirtioBlkMmio<A, I>,
) -> bool
    decreases writes.len(),
{
    if writes.len() == 0 {
        p@ == d@
    } else {
        exists|mid: VirtioBlkMmio<A, I>|
            #[trigger] mid.writes(writes.last().0, register(writes.last().1), &p) && written_all(
                d,
                writes.drop_last(),
                mid,
            )
    }
}

/// One register write below the notification register, or above it, to the queue's registers.
proof fn queue_register_written<A: GuestAccess, I: IrqLine>(
    d: VirtioBlkMmio<A, I>,
    offset: u64,
    n: int,
    p: VirtioBlkMmio<A, I>,
)
    requires
        d.writes(offset, register(n), &p),
        0 <= n < 0x1_0000_0000,
        offset == 0x38 || offset == 0x44 || offset == 0x80 || offset == 0x84 || offset == 0x90
            || offset == 0x94 || offset == 0xa0 || offset == 0xa4,
    ensures
        p@ == (BlkView { queue: regs::queue_programmed(d@.queue, offset, n as u32), ..d@ }),
{
    register_carries(n);
}

/// A driver that sets a queue up finds the device with the queue that it meant, ready, and
/// otherwise as it was.
#[verifier::rlimit(40)]
pub proof fn driver_sets_queue_up<A: GuestAccess, I: IrqLine>(
    d: VirtioBlkMmio<A, I>,
    num: u16,
    desc: u64,
    avail: u64,
    used: u64,
    p: VirtioBlkMmio<A, I>,
)
    requires
        written_all(d, queue_set_up(num as int, desc as int, avail as int, used as int), p),
    ensures
        p@ == (BlkView {
            queue: QueueState {
                num,
                ready: true,
                desc,
                avail,
                used,
                last_avail_idx: d@.queue.last_avail_idx,
            },
            ..d@
        }),
{
    let all = queue_set_up(num as int, desc as int, avail as int, used as int);
    let s7 = all.drop_last();
    let s6 = s7.drop_last();
    let s5 = s6.drop_last();
    let s4 = s5.drop_last();
    let s3 = s4.drop_last();
    let s2 = s3.drop_last();
    let s1 = s2.drop_last();
    let s0 = s1.drop_last();
    assert(s0.len() == 0);
    let d7 = last_write(d, all, p);
    let d6 = last_write(d, s7, d7);
    let d5 = last_write(d, s6, d6);
    let d4 = last_write(d, s5, d5);
    let d3 = last_write(d, s4, d4);
    let d2 = last_write(d, s3, d3);
    let d1 = last_write(d, s2, d2);
    let d0 = last_write(d, s1, d1);
    assert(d0@ == d@);
    queue_register_written(d0, 0x38, num as int, d1);
    queue_register_written(d1, 0x80, desc as int % 0x1_0000_0000, d2);
    queue_register_written(d2, 0x84, desc as int / 0x1_0000_0000, d3);
    queue_register_written(d3, 0x90, avail as int % 0x1_0000_0000, d4);
    queue_register_written(d4, 0x94, avail as int / 0x1_0000_0000, d5);
    queue_register_written(d5, 0xa0, used as int % 0x1_0000_0000, d6);
    queue_register_written(d6, 0xa4, used as int / 0x1_0000_0000, d7);
    queue_register_written(d7, 0x44, 1, p);
    regs::programming_law(d@.queue, num, desc, avail, used);
}

/// The last of several writes.
proof fn last_write<A: GuestAccess, I: IrqLine>(
    d: VirtioBlkMmio<A, I>,
    writes: Seq<(u64, int)>,
    p: VirtioBlkMmio<A, I>,
) -> (mid: VirtioBlkMmio<A, I>)
    requires
        writes.len() > 0,
        written_all(d, writes, p),
    ensures
        mid.writes(writes.last().0, register(writes.last().1), &p),
        written_all(d, writes.drop_last(), mid),
{
    choose|mid: VirtioBlkMmio<A, I>|
        #[trigger] mid.writes(writes.last().0, register(writes.last().1), &p) && written_all(
            d,
            writes.drop_last(),
            mid,
        )
}

/// A device says how large a queue it takes, and serves a queue of any size up to that: once the
/// driver has set such a queue up, a notification with anything waiting starts on it.
#[verifier::rlimit(60)]
#[verifier::spinoff_prover]
pub proof fn queue_of_any_offered_size_is_served<A: GuestAccess, I: IrqLine>(
    d: VirtioBlkMmio<A, I>,
    e: VirtioBlkMmio<A, I>,
    offered: Seq<u8>,
    num: u16,
    desc: u64,
    avail: u64,
    used: u64,
    mid: VirtioBlkMmio<A, I>,
    p: VirtioBlkMmio<A, I>,
)
    requires
        d.reads(0x34, seq![0u8, 0u8, 0u8, 0u8], &e, offered),
        1 <= num <= offered[0] + 0x100 * offered[1] + 0x1_0000 * offered[2] + 0x100_0000
            * offered[3],
        d@.job is None,
        written_all(d, queue_set_up(num as int, desc as int, avail as int, used as int), mid),
        ring_laws::laid_out(d@.mem.mem(), mid@.queue),
        ring_laws::waiting(d@.mem.mem(), mid@.queue) > 0,
        mid.writes(0x50, register(0), &p),
    ensures
        offered == seq![0u8, 1u8, 0u8, 0u8],
        num <= 256,
        p@.job is Some || ring_laws::used_at(p@.mem.mem(), mid@.queue) != ring_laws::used_at(
            d@.mem.mem(),
            mid@.queue,
        ),
{
    assert(offered =~= seq![0u8, 1u8, 0u8, 0u8]);
    driver_sets_queue_up(d, num, desc, avail, used, mid);
    notification_starts(mid, register(0), p);
}

} // verus!
