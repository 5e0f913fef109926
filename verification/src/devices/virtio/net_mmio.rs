//! A network card over virtio-mmio, with two queues: on queue 0 the driver posts empty
//! buffers to receive into, on queue 1 it posts full ones to transmit.
//!
//! Every frame travels behind a twelve-byte header. No offload is negotiated, so the header
//! is stripped on the way out and a plain one is put in front on the way in.

use vstd::prelude::*;

use super::guest;
use super::guest::{GuestAccess, GuestMem};
use super::mmio_regs as reg;
use super::net;
use super::net::{NetBackend, VirtioNetHdr, VIRTIO_NET_HDR_LEN};
use super::queue;
use super::queue::{Descriptor, QueueConfig, VirtQueue};
use super::regs;
use super::regs::{MmioRegs, QueueState, INT_USED_RING, VIRTIO_F_VERSION_1};
use super::VIRTIO_ID_NET;
use crate::bytes;
use crate::devices::device::{Device, IrqLine};

verus! {

/// Feature bit 5: the configuration space holds a fixed hardware address.
pub const VIRTIO_NET_F_MAC: u64 = 0x20;

/// Feature bit 16: the configuration space holds a link status.
pub const VIRTIO_NET_F_STATUS: u64 = 0x1_0000;

/// Link status: up.
pub const VIRTIO_NET_S_LINK_UP: u16 = 1;

/// The queue on which the guest receives.
pub const RX_QUEUE: u32 = 0;

/// The queue on which the guest transmits.
pub const TX_QUEUE: u32 = 1;

/// Gathering a frame stops once more than this has come together.
pub const MAX_FRAME: usize = 2048;

/// The most chains that one notification serves: as many as a ring index can tell apart.
pub const TX_BATCH: u32 = 0x1_0000;

/// The features that the card offers.
pub open spec fn net_features() -> u64 {
    (VIRTIO_F_VERSION_1 + VIRTIO_NET_F_MAC + VIRTIO_NET_F_STATUS) as u64
}

/// The configuration space: the hardware address, then the link status.
pub open spec fn net_config(mac: Seq<u8>) -> Seq<u8> {
    mac + bytes::le16(VIRTIO_NET_S_LINK_UP)
}

/// What the device-readable buffers of a chain hold together, behind `acc`: a buffer that
/// cannot be read is left out, and gathering stops behind the first that makes it too long.
pub open spec fn gather(m: GuestMem, chain: Seq<Descriptor>, acc: Seq<u8>) -> Seq<u8>
    decreases chain.len(),
{
    if chain.len() == 0 {
        acc
    } else {
        let d = chain[0];
        if d.write_only() {
            gather(m, chain.skip(1), acc)
        } else {
            let got = match guest::read_run(m, d.addr, d.len as int) {
                Some(b) => acc + b,
                None => acc,
            };
            if got.len() > MAX_FRAME {
                got
            } else {
                gather(m, chain.skip(1), got)
            }
        }
    }
}

/// The frame in a gathered buffer: what follows the header, where something does.
pub open spec fn strip(buf: Seq<u8>) -> Option<Seq<u8>> {
    if buf.len() > VIRTIO_NET_HDR_LEN {
        Some(buf.skip(VIRTIO_NET_HDR_LEN as int))
    } else {
        None
    }
}

/// The frame that the chain at `head` carries, if any.
pub open spec fn tx_frame(m: GuestMem, cfg: QueueConfig, head: u16) -> Option<Seq<u8>> {
    strip(gather(m, queue::chain_from(m, cfg.desc_table, head, cfg.size as nat), seq![]))
}

/// What serving a transmit queue comes to.
pub ghost struct TxRun {
    /// The memory, with every served chain recorded as used.
    pub mem: GuestMem,
    /// The place in the available ring.
    pub last: u16,
    /// How many chains were served.
    pub served: nat,
    /// The frames handed to the backend, in order.
    pub frames: Seq<Seq<u8>>,
}

/// Serves up to `fuel` chains from a device at `last`, each in turn: its frame goes out, then
/// the chain is recorded as used with nothing written to it.
pub open spec fn tx_run<A: GuestAccess>(m: GuestMem, cfg: QueueConfig, last: u16, fuel: nat) -> TxRun
    decreases fuel,
{
    if fuel == 0 {
        TxRun { mem: m, last, served: 0, frames: seq![] }
    } else {
        match queue::next_head(m, cfg, last) {
            None => TxRun { mem: m, last, served: 0, frames: seq![] },
            Some(head) => {
                let m1 = queue::used_step::<A>(m, cfg, head, 0).0;
                let rest = tx_run::<A>(m1, cfg, queue::next_index(last), (fuel - 1) as nat);
                TxRun {
                    mem: rest.mem,
                    last: rest.last,
                    served: rest.served + 1,
                    frames: match tx_frame(m, cfg, head) {
                        Some(f) => seq![f] + rest.frames,
                        None => rest.frames,
                    },
                }
            },
        }
    }
}

/// Whether a backend may go from `pre` to `post` over sending `frames`, in order.
pub open spec fn sent_all<N: NetBackend>(pre: N, frames: Seq<Seq<u8>>, post: N) -> bool
    decreases frames.len(),
{
    if frames.len() == 0 {
        post == pre
    } else {
        exists|mid: N|
            sent_all(pre, frames.drop_last(), mid) && #[trigger] mid.transmits(frames.last(), &post)
    }
}

/// What is put into the guest's buffers for a frame: a plain header, then the frame.
pub open spec fn rx_payload(frame: Seq<u8>) -> Seq<u8> {
    net::hdr_bytes(net::plain_hdr()) + frame
}

/// Spreads `payload` from `off` on over the device-writable buffers of a chain, each filled
/// before the next, up to one that refuses it: what that leaves of the memory, and how far
/// it came.
pub open spec fn scatter<A: GuestAccess>(
    m: GuestMem,
    chain: Seq<Descriptor>,
    payload: Seq<u8>,
    off: int,
) -> (GuestMem, int)
    decreases chain.len(),
{
    if chain.len() == 0 {
        (m, off)
    } else {
        let d = chain[0];
        if !d.write_only() {
            scatter::<A>(m, chain.skip(1), payload, off)
        } else if off >= payload.len() {
            (m, off)
        } else {
            let n = if d.len < payload.len() - off {
                d.len as int
            } else {
                payload.len() - off
            };
            let w = guest::write_run::<A>(m, d.addr as int, payload.subrange(off, off + n));
            if w.1 {
                scatter::<A>(w.0, chain.skip(1), payload, off + n)
            } else {
                (w.0, off)
            }
        }
    }
}

/// The memory after a frame went into the chain at `head`, and the chain was recorded as
/// used with the number of bytes that were put into it.
pub open spec fn rx_fill<A: GuestAccess>(
    m: GuestMem,
    cfg: QueueConfig,
    head: u16,
    frame: Seq<u8>,
) -> GuestMem {
    let chain = queue::chain_from(m, cfg.desc_table, head, cfg.size as nat);
    let put = scatter::<A>(m, chain, rx_payload(frame), 0);
    queue::used_step::<A>(put.0, cfg, head, (put.1 % 0x1_0000_0000) as u32).0
}

/// The state of the card.
pub ghost struct NetView<N, A, I> {
    pub regs: MmioRegs,
    pub rx: QueueState,
    pub tx: QueueState,
    pub backend: N,
    pub mem: A,
    pub irq: I,
    pub mac: Seq<u8>,
    /// A frame that came in while the guest had no buffer for it.
    pub held: Option<Seq<u8>>,
}

/// Whether the device may serve a queue: the driver has made it ready, and it has room.
pub open spec fn serviceable(q: QueueState) -> bool {
    q.ready && q.num != 0
}

/// The queue numbered `i` after a register write.
pub open spec fn queue_after(r: MmioRegs, i: u32, q: QueueState, offset: u64, val: u32) -> QueueState {
    if regs::is_reset(offset, val) {
        regs::blank_queue()
    } else if r.queue_sel == i {
        regs::queue_programmed(q, offset, val)
    } else {
        q
    }
}

/// Whether a notification of the transmit queue may take the card from `v` to `w`: the queue
/// is served, the frames go out in order, and the interrupt is raised if a chain was served.
pub open spec fn tx_served<N: NetBackend, A: GuestAccess, I: IrqLine>(
    v: NetView<N, A, I>,
    w: NetView<N, A, I>,
) -> bool {
    let run = tx_run::<A>(
        v.mem.mem(),
        v.tx.config_spec(),
        v.tx.last_avail_idx,
        TX_BATCH as nat,
    );
    if !serviceable(v.tx) {
        w == v
    } else {
        &&& w.mem.mem() == run.mem
        &&& w.tx == QueueState { last_avail_idx: run.last, ..v.tx }
        &&& w.rx == v.rx
        &&& w.mac == v.mac
        &&& w.held == v.held
        &&& sent_all(v.backend, run.frames, w.backend)
        &&& if run.served > 0 {
            &&& w.regs == regs::regs_raised(v.regs)
            &&& v.irq.drives(true, &w.irq)
        } else {
            &&& w.regs == v.regs
            &&& w.irq == v.irq
        }
    }
}

/// Whether a register write may take the card from `v` to `w`.
pub open spec fn net_written<N: NetBackend, A: GuestAccess, I: IrqLine>(
    v: NetView<N, A, I>,
    offset: u64,
    val: u32,
    w: NetView<N, A, I>,
) -> bool {
    if offset >= reg::CONFIG {
        w == v
    } else if offset == reg::QUEUE_NOTIFY {
        if val == TX_QUEUE {
            tx_served(v, w)
        } else {
            w == v
        }
    } else {
        &&& w == (NetView {
            regs: regs::regs_written(v.regs, offset, val),
            rx: queue_after(v.regs, RX_QUEUE, v.rx, offset, val),
            tx: queue_after(v.regs, TX_QUEUE, v.tx, offset, val),
            irq: w.irq,
            ..v
        })
        &&& if regs::acks_all(v.regs, offset, val) {
            v.irq.drives(false, &w.irq)
        } else {
            w.irq == v.irq
        }
    }
}

/// Whether a receive buffer is there for a frame.
pub open spec fn rx_open<N, A: GuestAccess, I>(v: NetView<N, A, I>) -> bool {
    serviceable(v.rx) && queue::next_head(
        v.mem.mem(),
        v.rx.config_spec(),
        v.rx.last_avail_idx,
    ) is Some
}

/// Whether delivering a frame may take the card from `v` to `w`: the frame goes into the next
/// receive buffer, and the interrupt is raised. Without a buffer nothing changes.
pub open spec fn rx_delivered<N: NetBackend, A: GuestAccess, I: IrqLine>(
    v: NetView<N, A, I>,
    frame: Seq<u8>,
    w: NetView<N, A, I>,
) -> bool {
    if rx_open(v) {
        let head = queue::next_head(
            v.mem.mem(),
            v.rx.config_spec(),
            v.rx.last_avail_idx,
        )->0;
        &&& w.mem.mem() == rx_fill::<A>(v.mem.mem(), v.rx.config_spec(), head, frame)
        &&& v.irq.drives(true, &w.irq)
        &&& w == (NetView {
            regs: regs::regs_raised(v.regs),
            rx: QueueState { last_avail_idx: queue::next_index(v.rx.last_avail_idx), ..v.rx },
            mem: w.mem,
            irq: w.irq,
            ..v
        })
    } else {
        w == v
    }
}

/// Whether a poll may take the card from `v` to `w` and answer `r`. A frame that is held back
/// goes first, and the host is asked for none while it is. A frame is delivered where the
/// guest has a buffer for it, and held back otherwise.
pub open spec fn polled<N: NetBackend, A: GuestAccess, I: IrqLine>(
    v: NetView<N, A, I>,
    w: NetView<N, A, I>,
    r: std::io::Result<bool>,
) -> bool {
    match v.held {
        Some(frame) => {
            &&& r == Ok::<bool, std::io::Error>(rx_open(v))
            &&& rx_delivered(
                NetView { held: None, ..v },
                frame,
                NetView { held: None, ..w },
            )
            &&& w.held == if rx_open(v) {
                None
            } else {
                Some(frame)
            }
        },
        None => exists|got: std::io::Result<Option<Vec<u8>>>|
            {
                &&& #[trigger] v.backend.receives(got, &w.backend)
                &&& match got {
                    Ok(Some(frame)) => {
                        &&& r == Ok::<bool, std::io::Error>(rx_open(v))
                        &&& rx_delivered(
                            NetView { backend: w.backend, ..v },
                            frame@,
                            NetView { held: None, ..w },
                        )
                        &&& w.held == if rx_open(v) {
                            None
                        } else {
                            Some(frame@)
                        }
                    },
                    Ok(None) => {
                        &&& r == Ok::<bool, std::io::Error>(false)
                        &&& w == (NetView { backend: w.backend, ..v })
                    },
                    Err(e) => {
                        &&& r == Err::<bool, std::io::Error>(e)
                        &&& w == (NetView { backend: w.backend, ..v })
                    },
                }
            },
    }
}

/// The network card.
pub struct VirtioNetMmio<N, A, I> {
    regs: MmioRegs,
    rx: QueueState,
    tx: QueueState,
    backend: N,
    mem: A,
    irq: I,
    mac: [u8; 6],
    pending_rx: Option<Vec<u8>>,
}

impl<N, A, I> View for VirtioNetMmio<N, A, I> {
    type V = NetView<N, A, I>;

    closed spec fn view(&self) -> NetView<N, A, I> {
        NetView {
            regs: self.regs,
            rx: self.rx,
            tx: self.tx,
            backend: self.backend,
            mem: self.mem,
            irq: self.irq,
            mac: self.mac@,
            held: match self.pending_rx {
                Some(f) => Some(f@),
                None => None,
            },
        }
    }
}

/// Gathers the device-readable buffers of a chain.
fn gather_chain<A: GuestAccess>(mem: &A, chain: &Vec<Descriptor>) -> (r: Vec<u8>)
    ensures
        r@ == gather(mem.mem(), chain@, seq![]),
{
    let ghost m = mem.mem();
    let mut buf: Vec<u8> = Vec::new();
    let mut i: usize = 0;
    assert(chain@.skip(0) =~= chain@);
    assert(buf@ =~= seq![]);
    while i < chain.len()
        invariant
            i <= chain@.len(),
            m == mem.mem(),
            gather(m, chain@.skip(i as int), buf@) == gather(m, chain@, seq![]),
        decreases chain@.len() - i,
    {
        let ghost rest = chain@.skip(i as int);
        assert(rest.skip(1) =~= chain@.skip(i + 1));
        let d = chain[i];
        i += 1;
        if d.is_write_only() {
            continue;
        }
        match guest::read_guest(mem, d.addr, d.len as usize) {
            Some(b) => {
                bytes::push_bytes(&mut buf, &b);
            },
            None => {},
        }
        if buf.len() > MAX_FRAME {
            return buf;
        }
    }
    buf
}

/// Spreads a payload over the device-writable buffers of a chain, and says how far it came.
fn scatter_chain<A: GuestAccess>(mem: &mut A, chain: &Vec<Descriptor>, payload: &Vec<u8>) -> (r: usize)
    ensures
        (final(mem).mem(), r as int) == scatter::<A>(old(mem).mem(), chain@, payload@, 0),
        r <= payload@.len(),
{
    let ghost goal = scatter::<A>(mem.mem(), chain@, payload@, 0);
    let mut off: usize = 0;
    let mut i: usize = 0;
    assert(chain@.skip(0) =~= chain@);
    while i < chain.len()
        invariant
            i <= chain@.len(),
            off <= payload@.len(),
            goal == scatter::<A>(old(mem).mem(), chain@, payload@, 0),
            goal == scatter::<A>(mem.mem(), chain@.skip(i as int), payload@, off as int),
        decreases chain@.len() - i,
    {
        let ghost rest = chain@.skip(i as int);
        assert(rest.skip(1) =~= chain@.skip(i + 1));
        let d = chain[i];
        i += 1;
        if !d.is_write_only() {
            continue;
        }
        if off >= payload.len() {
            return off;
        }
        let left: usize = payload.len() - off;
        let n: usize = if (d.len as usize) < left {
            d.len as usize
        } else {
            left
        };
        let part = vstd::slice::slice_subrange(payload.as_slice(), off, off + n);
        if !guest::write_guest(mem, d.addr, part) {
            return off;
        }
        off += n;
    }
    off
}

impl<N: NetBackend, A: GuestAccess, I: IrqLine> VirtioNetMmio<N, A, I> {
    pub fn new(backend: N, mem: A, irq: I, mac: [u8; 6]) -> (r: Self)
        ensures
            r@ == (NetView {
                regs: regs::blank_regs(),
                rx: regs::blank_queue(),
                tx: regs::blank_queue(),
                backend,
                mem,
                irq,
                mac: mac@,
                held: None,
            }),
    {
        VirtioNetMmio {
            regs: MmioRegs::default(),
            rx: QueueState::default(),
            tx: QueueState::default(),
            backend,
            mem,
            irq,
            mac,
            pending_rx: None,
        }
    }

    /// Marks a used buffer and asserts the line. The line is level-triggered: it stays
    /// asserted until the guest has acknowledged every pending bit.
    fn raise_irq(&mut self)
        ensures
            old(self)@.irq.drives(true, &final(self)@.irq),
            final(self)@ == (NetView {
                regs: regs::regs_raised(old(self)@.regs),
                irq: final(self)@.irq,
                ..old(self)@
            }),
    {
        self.regs.interrupt_status = self.regs.interrupt_status | INT_USED_RING;
        self.irq.set(true);
    }

    /// Drains the transmit queue, sending each frame to the backend.
    fn process_tx(&mut self)
        ensures
            tx_served(old(self)@, final(self)@),
    {
        if !self.tx.ready || self.tx.num == 0 {
            return;
        }
        let cfg = self.tx.config();
        let ghost v = self@;
        let ghost m0 = self.mem.mem();
        let ghost goal = tx_run::<A>(m0, cfg, self.tx.last_avail_idx, TX_BATCH as nat);
        let ghost mut sent: Seq<Seq<u8>> = seq![];
        let mut vq = VirtQueue::new(cfg, self.tx.last_avail_idx);
        let mut served: u32 = 0;
        assert(goal.frames =~= sent + goal.frames);
        while served < TX_BATCH
            invariant
                served <= TX_BATCH,
                cfg.size != 0,
                cfg == v.tx.config_spec(),
                vq.config() == cfg,
                goal == tx_run::<A>(m0, cfg, v.tx.last_avail_idx, TX_BATCH as nat),
                ({
                    let rest = tx_run::<A>(
                        self.mem.mem(),
                        cfg,
                        vq.position(),
                        (TX_BATCH - served) as nat,
                    );
                    &&& goal.mem == rest.mem
                    &&& goal.last == rest.last
                    &&& goal.served == served + rest.served
                    &&& goal.frames == sent + rest.frames
                }),
                sent_all(v.backend, sent, self.backend),
                self@ == (NetView { backend: self.backend, mem: self.mem, ..v }),
            ensures
                goal.mem == self.mem.mem(),
                goal.last == vq.position(),
                goal.served == served,
                goal.frames == sent,
                sent_all(v.backend, sent, self.backend),
                self@ == (NetView { backend: self.backend, mem: self.mem, ..v }),
            decreases TX_BATCH - served,
        {
            let head: u16 = match vq.pop_avail(&self.mem) {
                Some(h) => h,
                None => {
                    assert(goal.frames =~= sent);
                    break;
                },
            };
            let chain = vq.chain(&self.mem, head);
            let buf = gather_chain(&self.mem, &chain);
            if buf.len() > VIRTIO_NET_HDR_LEN {
                let frame = vstd::slice::slice_subrange(
                    buf.as_slice(),
                    VIRTIO_NET_HDR_LEN,
                    buf.len(),
                );
                let ghost before = self.backend;
                let _ = self.backend.transmit(frame);
                proof {
                    assert(frame@ =~= buf@.skip(VIRTIO_NET_HDR_LEN as int));
                    let more = sent.push(frame@);
                    assert(more.drop_last() =~= sent);
                    assert(sent_all(v.backend, more.drop_last(), before) && before.transmits(
                        more.last(),
                        &self.backend,
                    ));
                    sent = more;
                }
            }
            let _ = vq.add_used(&mut self.mem, head, 0);
            served += 1;
            proof {
                let after = tx_run::<A>(
                    self.mem.mem(),
                    cfg,
                    vq.position(),
                    (TX_BATCH - served) as nat,
                );
                assert(goal.frames =~= sent + after.frames);
            }
        }
        self.tx.last_avail_idx = vq.last_avail_idx();
        if served > 0 {
            self.raise_irq();
        }
    }

    /// Polls for one inbound frame and delivers it, if the guest has a buffer for it. Answers
    /// whether a frame was delivered.
    ///
    /// A frame that came in while the guest had no buffer is held and tried again on the next
    /// poll, so a burst that overruns the guest's buffers is not lost.
    pub fn poll_rx_once(&mut self) -> (r: std::io::Result<bool>)
        ensures
            polled(old(self)@, final(self)@, r),
    {
        let ghost v = self@;
        let held = self.pending_rx.take();
        match held {
            Some(frame) => {
                assert(self@ == (NetView { held: None, ..v }));
                if self.deliver_rx(frame.as_slice()) {
                    return Ok(true);
                }
                self.pending_rx = Some(frame);
                Ok(false)
            },
            None => {
                let got = self.backend.receive();
                let ghost asked = got;
                assert(v.backend.receives(asked, &self@.backend));
                assert(self@ == (NetView { backend: self@.backend, ..v }));
                match got {
                    Ok(Some(frame)) => {
                        if self.deliver_rx(frame.as_slice()) {
                            Ok(true)
                        } else {
                            self.pending_rx = Some(frame);
                            Ok(false)
                        }
                    },
                    Ok(None) => Ok(false),
                    Err(e) => Err(e),
                }
            },
        }
    }

    /// Puts a frame behind a plain header into the next receive buffer and completes it.
    /// Answers whether there was a buffer.
    pub fn deliver_rx(&mut self, frame: &[u8]) -> (r: bool)
        ensures
            r == rx_open(old(self)@),
            rx_delivered(old(self)@, frame@, final(self)@),
    {
        if !self.rx.ready || self.rx.num == 0 {
            return false;
        }
        let mut vq = VirtQueue::new(self.rx.config(), self.rx.last_avail_idx);
        let head: u16 = match vq.pop_avail(&self.mem) {
            Some(h) => h,
            None => {
                return false;
            },
        };
        let chain = vq.chain(&self.mem, head);
        let hdr = net::encode_net_hdr(&VirtioNetHdr::default());
        let mut payload: Vec<u8> = Vec::new();
        bytes::push_bytes(&mut payload, &hdr);
        bytes::push_bytes(&mut payload, frame);
        assert(payload@ =~= rx_payload(frame@));
        let off: usize = scatter_chain(&mut self.mem, &chain, &payload);
        let written: u32 = (off as u64 % 0x1_0000_0000) as u32;
        let _ = vq.add_used(&mut self.mem, head, written);
        self.rx.last_avail_idx = vq.last_avail_idx();
        self.raise_irq();
        true
    }
}

impl<N: NetBackend, A: GuestAccess, I: IrqLine> Device for VirtioNetMmio<N, A, I> {
    open spec fn reads(&self, offset: u64, before: Seq<u8>, post: &Self, after: Seq<u8>) -> bool {
        let ready = if self@.regs.queue_sel == RX_QUEUE {
            self@.rx.ready
        } else {
            self@.regs.queue_sel == TX_QUEUE && self@.tx.ready
        };
        &&& *post == *self
        &&& after == if offset >= reg::CONFIG {
            regs::config_bytes(net_config(self@.mac), (offset - reg::CONFIG) as u64, before.len())
        } else {
            regs::reg_bytes(
                regs::reg_read(self@.regs, VIRTIO_ID_NET, net_features(), ready, offset),
                before.len(),
            )
        }
    }

    open spec fn writes(&self, offset: u64, data: Seq<u8>, post: &Self) -> bool {
        net_written(self@, offset, regs::reg_val(data), post@)
    }

    fn read(&mut self, offset: u64, data: &mut [u8]) {
        if offset >= reg::CONFIG {
            let up = bytes::to_le16(VIRTIO_NET_S_LINK_UP);
            let config: [u8; 8] = [
                self.mac[0],
                self.mac[1],
                self.mac[2],
                self.mac[3],
                self.mac[4],
                self.mac[5],
                up[0],
                up[1],
            ];
            assert(config@ =~= net_config(self@.mac));
            regs::fill_config(data, &config, offset - reg::CONFIG);
            return;
        }
        let ready: bool = if self.regs.queue_sel == RX_QUEUE {
            self.rx.ready
        } else {
            self.regs.queue_sel == TX_QUEUE && self.tx.ready
        };
        let features: u64 = VIRTIO_F_VERSION_1 + VIRTIO_NET_F_MAC + VIRTIO_NET_F_STATUS;
        let val: u32 = self.regs.read(VIRTIO_ID_NET, features, ready, offset);
        regs::fill_val(data, val);
    }

    fn write(&mut self, offset: u64, data: &[u8]) {
        if offset >= reg::CONFIG {
            return;
        }
        let val: u32 = regs::decode_val(data);
        if offset == reg::QUEUE_NOTIFY {
            if val == TX_QUEUE {
                self.process_tx();
            }
            return;
        }
        if offset == reg::STATUS && val == 0 {
            self.rx = QueueState::default();
            self.tx = QueueState::default();
        } else if self.regs.queue_sel == RX_QUEUE {
            self.rx.program(offset, val);
        } else if self.regs.queue_sel == TX_QUEUE {
            self.tx.program(offset, val);
        }
        self.regs.write(offset, val);
        if offset == reg::INTERRUPT_ACK && self.regs.interrupt_status == 0 {
            self.irq.set(false);
        }
    }
}

} // verus!
