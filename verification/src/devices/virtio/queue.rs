//! Split virtqueues: a descriptor table, an available ring (driver to device) and a used
//! ring (device to driver), all in guest memory and reached through an injected accessor.
//!
//! The guest chooses every address here, so address arithmetic wraps at 64 bits.

use vstd::prelude::*;

use super::guest;
use super::guest::{GuestAccess, GuestMem};
use crate::bytes;

verus! {

/// Another descriptor follows in the chain.
pub const VIRTQ_DESC_F_NEXT: u16 = 1;

/// The device may write the buffer, and only that.
pub const VIRTQ_DESC_F_WRITE: u16 = 2;

/// The buffer holds a table of descriptors.
pub const VIRTQ_DESC_F_INDIRECT: u16 = 4;

/// One 16-byte descriptor.
#[derive(Debug, Clone, Copy, Default)]
pub struct Descriptor {
    pub addr: u64,
    pub len: u32,
    pub flags: u16,
    pub next: u16,
}

impl Descriptor {
    /// The flag for a buffer that the device writes.
    pub open spec fn write_only(self) -> bool {
        self.flags & VIRTQ_DESC_F_WRITE != 0
    }

    /// The flag for a chain that goes on.
    pub open spec fn chained(self) -> bool {
        self.flags & VIRTQ_DESC_F_NEXT != 0
    }

    pub fn is_write_only(&self) -> (r: bool)
        ensures
            r == self.write_only(),
    {
        self.flags & VIRTQ_DESC_F_WRITE != 0
    }

    pub fn has_next(&self) -> (r: bool)
        ensures
            r == self.chained(),
    {
        self.flags & VIRTQ_DESC_F_NEXT != 0
    }
}

/// Where a queue stands in guest memory, as the driver set it through the transport.
#[derive(Debug, Clone, Copy, Default)]
pub struct QueueConfig {
    pub size: u16,
    pub desc_table: u64,
    pub avail_ring: u64,
    pub used_ring: u64,
    pub ready: bool,
}

/// The address `off` bytes behind `base`, wrapping at 64 bits.
pub open spec fn at(base: u64, off: int) -> u64 {
    ((base + off) % guest::address_end()) as u64
}

/// The address `off` bytes behind `base`, wrapping at 64 bits.
fn offset(base: u64, off: u64) -> (r: u64)
    ensures
        r == at(base, off as int),
{
    base.wrapping_add(off)
}

/// Descriptor `idx` of the table at `table`, where all of it can be reached.
pub open spec fn desc_at(m: GuestMem, table: u64, idx: u16) -> Option<Descriptor> {
    let base = at(table, 16 * idx);
    match (
        guest::read64(m, base),
        guest::read32(m, at(base, 8)),
        guest::read16(m, at(base, 12)),
        guest::read16(m, at(base, 14)),
    ) {
        (Some(addr), Some(len), Some(flags), Some(next)) => Some(
            Descriptor { addr, len, flags, next },
        ),
        _ => None,
    }
}

/// The chain that starts at descriptor `idx`, cut after `fuel` descriptors and before the
/// first that cannot be read.
pub open spec fn chain_from(m: GuestMem, table: u64, idx: u16, fuel: nat) -> Seq<Descriptor>
    decreases fuel,
{
    if fuel == 0 {
        seq![]
    } else {
        match desc_at(m, table, idx) {
            None => seq![],
            Some(d) => if d.chained() {
                seq![d] + chain_from(m, table, d.next, (fuel - 1) as nat)
            } else {
                seq![d]
            },
        }
    }
}

/// The driver's index in the available ring.
pub open spec fn avail_index(m: GuestMem, cfg: QueueConfig) -> Option<u16> {
    guest::read16(m, at(cfg.avail_ring, 2))
}

/// Whether the driver has made a chain available that a device at `last` has not taken.
pub open spec fn pending(m: GuestMem, cfg: QueueConfig, last: u16) -> bool {
    avail_index(m, cfg) matches Some(idx) && idx != last
}

/// How many chains the driver has made available that a device at `last` has not taken.
#[verifier::opaque]
pub open spec fn pending_count(m: GuestMem, cfg: QueueConfig, last: u16) -> int {
    match avail_index(m, cfg) {
        Some(idx) => (idx - last) % 0x1_0000,
        None => 0,
    }
}

/// The head that the next pop gives to a device at `last`.
pub open spec fn next_head(m: GuestMem, cfg: QueueConfig, last: u16) -> Option<u16> {
    if pending(m, cfg, last) {
        guest::read16(m, at(cfg.avail_ring, 4 + 2 * (last as int % cfg.size as int)))
    } else {
        None
    }
}

/// The index one further, wrapping at 16 bits.
pub open spec fn next_index(last: u16) -> u16 {
    ((last + 1) % 0x1_0000) as u16
}

/// The used-ring index.
pub open spec fn used_index(m: GuestMem, cfg: QueueConfig) -> Option<u16> {
    guest::read16(m, at(cfg.used_ring, 2))
}

/// The address of the used-ring element that the entry numbered `idx` takes.
pub open spec fn used_elem(cfg: QueueConfig, idx: u16) -> u64 {
    at(cfg.used_ring, 4 + 8 * (idx as int % cfg.size as int))
}

/// What recording a completed chain leaves of the memory, and whether all of it was
/// accepted: the element's two words, then the index, up to the first that is refused.
#[verifier::opaque]
pub open spec fn used_step<A: GuestAccess>(
    m: GuestMem,
    cfg: QueueConfig,
    head: u16,
    len: u32,
) -> (GuestMem, bool) {
    match used_index(m, cfg) {
        None => (m, false),
        Some(idx) => {
            let elem = used_elem(cfg, idx);
            let m1 = guest::store::<A>(m, elem, bytes::le32(head as u32));
            let m2 = guest::store::<A>(m1, at(elem, 4), bytes::le32(len));
            let m3 = guest::store::<A>(m2, at(cfg.used_ring, 2), bytes::le16(next_index(idx)));
            if !guest::mapped(m, elem as int, 4) {
                (m1, false)
            } else if !guest::mapped(m1, at(elem, 4) as int, 4) {
                (m2, false)
            } else {
                (m3, guest::mapped(m2, at(cfg.used_ring, 2) as int, 2))
            }
        },
    }
}

/// A configured virtqueue and the device's place in its available ring.
pub struct VirtQueue {
    cfg: QueueConfig,
    /// The next available-ring index that has not been taken.
    last_avail_idx: u16,
}

impl VirtQueue {
    /// Where the queue stands.
    pub closed spec fn config(&self) -> QueueConfig {
        self.cfg
    }

    /// The next available-ring index that has not been taken.
    pub closed spec fn position(&self) -> u16 {
        self.last_avail_idx
    }

    pub fn new(cfg: QueueConfig, last_avail_idx: u16) -> (r: Self)
        ensures
            r.config() == cfg,
            r.position() == last_avail_idx,
    {
        VirtQueue { cfg, last_avail_idx }
    }

    pub fn last_avail_idx(&self) -> (r: u16)
        ensures
            r == self.position(),
    {
        self.last_avail_idx
    }

    /// Reads descriptor `idx` from the descriptor table.
    pub fn descriptor<A: GuestAccess>(&self, mem: &A, idx: u16) -> (r: Option<Descriptor>)
        ensures
            r == desc_at(mem.mem(), self.config().desc_table, idx),
    {
        let base: u64 = offset(self.cfg.desc_table, (idx as u64) * 16);
        let addr: u64 = match mem.read_u64(base) {
            Some(v) => v,
            None => {
                return None;
            },
        };
        let len: u32 = match mem.read_u32(offset(base, 8)) {
            Some(v) => v,
            None => {
                return None;
            },
        };
        let flags: u16 = match mem.read_u16(offset(base, 12)) {
            Some(v) => v,
            None => {
                return None;
            },
        };
        match mem.read_u16(offset(base, 14)) {
            Some(next) => Some(Descriptor { addr, len, flags, next }),
            None => None,
        }
    }

    /// The driver's current available-ring index.
    pub fn avail_idx<A: GuestAccess>(&self, mem: &A) -> (r: Option<u16>)
        ensures
            r == avail_index(mem.mem(), self.config()),
    {
        mem.read_u16(offset(self.cfg.avail_ring, 2))
    }

    /// Takes the next available chain and gives its head index, if there is one.
    pub fn pop_avail<A: GuestAccess>(&mut self, mem: &A) -> (r: Option<u16>)
        requires
            old(self).config().size != 0 || !pending(
                mem.mem(),
                old(self).config(),
                old(self).position(),
            ),
        ensures
            r == next_head(mem.mem(), old(self).config(), old(self).position()),
            final(self).config() == old(self).config(),
            final(self).position() == if r is Some {
                next_index(old(self).position())
            } else {
                old(self).position()
            },
    {
        let idx: u16 = match self.avail_idx(mem) {
            Some(i) => i,
            None => {
                return None;
            },
        };
        if self.last_avail_idx == idx {
            return None;
        }
        let slot: u16 = self.last_avail_idx % self.cfg.size;
        match mem.read_u16(offset(self.cfg.avail_ring, 4 + (slot as u64) * 2)) {
            Some(head) => {
                self.last_avail_idx = self.last_avail_idx.wrapping_add(1);
                Some(head)
            },
            None => None,
        }
    }

    /// Walks the chain that starts at `head`. The walk is bounded by the queue's size, so a
    /// ring that loops does not hold it.
    pub fn chain<A: GuestAccess>(&self, mem: &A, head: u16) -> (r: Vec<Descriptor>)
        ensures
            r@ == chain_from(
                mem.mem(),
                self.config().desc_table,
                head,
                self.config().size as nat,
            ),
    {
        let ghost m = mem.mem();
        let ghost goal = chain_from(m, self.cfg.desc_table, head, self.cfg.size as nat);
        let mut out: Vec<Descriptor> = Vec::new();
        let mut idx: u16 = head;
        let mut left: u16 = self.cfg.size;
        assert(goal =~= out@ + goal);
        while left > 0
            invariant
                m == mem.mem(),
                goal == chain_from(m, self.cfg.desc_table, head, self.cfg.size as nat),
                goal == out@ + chain_from(m, self.cfg.desc_table, idx, left as nat),
            decreases left,
        {
            match self.descriptor(mem, idx) {
                Some(d) => {
                    let more: bool = d.has_next();
                    out.push(d);
                    if !more {
                        assert(out@ =~= goal);
                        return out;
                    }
                    idx = d.next;
                    left -= 1;
                    assert(goal =~= out@ + chain_from(m, self.cfg.desc_table, idx, left as nat));
                },
                None => {
                    assert(out@ =~= goal);
                    return out;
                },
            }
        }
        assert(out@ =~= goal);
        out
    }

    /// Records a completed chain in the used ring and advances the ring's index.
    pub fn add_used<A: GuestAccess>(&mut self, mem: &mut A, head: u16, len: u32) -> (r: Option<()>)
        requires
            old(self).config().size != 0 || used_index(old(mem).mem(), old(self).config()) is None,
        ensures
            *final(self) == *old(self),
            (final(mem).mem(), r is Some) == used_step::<A>(
                old(mem).mem(),
                old(self).config(),
                head,
                len,
            ),
    {
        reveal(used_step);
        let idx: u16 = match mem.read_u16(offset(self.cfg.used_ring, 2)) {
            Some(i) => i,
            None => {
                return None;
            },
        };
        let slot: u16 = idx % self.cfg.size;
        let elem: u64 = offset(self.cfg.used_ring, 4 + (slot as u64) * 8);
        if mem.write_u32(elem, head as u32).is_none() {
            return None;
        }
        if mem.write_u32(offset(elem, 4), len).is_none() {
            return None;
        }
        mem.write_u16(offset(self.cfg.used_ring, 2), idx.wrapping_add(1))
    }
}

/// Nothing is pending exactly where the count of pending chains is zero, and a pop that
/// gives a head lowers the count by one: a ring of `n` pending chains is drained by `n` pops.
pub proof fn pop_counts_down(m: GuestMem, cfg: QueueConfig, last: u16)
    ensures
        pending(m, cfg, last) <==> pending_count(m, cfg, last) > 0,
        pending(m, cfg, last) ==> pending_count(m, cfg, next_index(last)) == pending_count(
            m,
            cfg,
            last,
        ) - 1,
        0 <= pending_count(m, cfg, last) < 0x1_0000,
        avail_index(m, cfg) is None ==> pending_count(m, cfg, last) == 0,
{
    reveal(pending_count);
}

/// How many chains are pending depends on the driver's index alone.
pub proof fn pending_same(m: GuestMem, r: GuestMem, cfg: QueueConfig, last: u16)
    requires
        avail_index(r, cfg) == avail_index(m, cfg),
    ensures
        pending_count(r, cfg, last) == pending_count(m, cfg, last),
        pending(r, cfg, last) == pending(m, cfg, last),
{
    reveal(pending_count);
}

/// A chain never holds more descriptors than the bound of its walk, and every descriptor
/// before the last says that another follows.
pub proof fn chain_bounded(m: GuestMem, table: u64, idx: u16, fuel: nat)
    ensures
        chain_from(m, table, idx, fuel).len() <= fuel,
        forall|i: int|
            0 <= i < chain_from(m, table, idx, fuel).len() - 1 ==> (#[trigger] chain_from(
                m,
                table,
                idx,
                fuel,
            )[i]).chained(),
    decreases fuel,
{
    if fuel > 0 {
        if let Some(d) = desc_at(m, table, idx) {
            if d.chained() {
                chain_bounded(m, table, d.next, (fuel - 1) as nat);
                let rest = chain_from(m, table, d.next, (fuel - 1) as nat);
                assert forall|i: int| 0 <= i < (seq![d] + rest).len() - 1 implies (#[trigger] (seq![d] + rest)[i]).chained() by {
                    if i > 0 {
                        assert((seq![d] + rest)[i] == rest[i - 1]);
                    }
                }
            }
        }
    }
}

/// A used ring of `size` elements that lies in reachable memory, without wrapping.
pub open spec fn used_ring_reachable(m: GuestMem, cfg: QueueConfig) -> bool {
    &&& cfg.size != 0
    &&& guest::mapped(m, cfg.used_ring as int, 4 + 8 * cfg.size)
}

/// The element of a used ring that lies in memory without wrapping stands inside it.
pub proof fn used_elem_inside(cfg: QueueConfig, idx: u16)
    requires
        cfg.size != 0,
        cfg.used_ring + 4 + 8 * cfg.size <= guest::address_end(),
    ensures
        cfg.used_ring + 4 <= used_elem(cfg, idx),
        used_elem(cfg, idx) + 8 <= cfg.used_ring + 4 + 8 * cfg.size,
        at(used_elem(cfg, idx), 4) == used_elem(cfg, idx) + 4,
        at(cfg.used_ring, 2) == cfg.used_ring + 2,
{
    let slot = idx as int % cfg.size as int;
    assert(0 <= slot < cfg.size);
    assert(used_elem(cfg, idx) == cfg.used_ring + 4 + 8 * slot);
}

/// Recording a completed chain in a reachable used ring is accepted. The ring's index then
/// reads one more, the element that the old index selects reads back the head and the
/// length, and no byte outside those two places changes.
#[verifier::rlimit(60)]
#[verifier::spinoff_prover]
pub proof fn used_step_law<A: GuestAccess>(m: GuestMem, cfg: QueueConfig, head: u16, len: u32)
    requires
        used_ring_reachable(m, cfg),
    ensures
        ({
            let (r, ok) = used_step::<A>(m, cfg, head, len);
            let idx = used_index(m, cfg)->0;
            let elem = used_elem(cfg, idx);
            &&& ok
            &&& used_index(m, cfg) is Some
            &&& used_index(r, cfg) == Some(next_index(idx))
            &&& guest::read32(r, elem) == Some(head as u32)
            &&& guest::read32(r, at(elem, 4)) == Some(len)
            &&& r.dom() == m.dom()
            &&& forall|a: int|
                m.dom().contains(a) && !(elem <= a < elem + 8) && !(cfg.used_ring + 2 <= a
                    < cfg.used_ring + 4) ==> #[trigger] r[a] == m[a]
        }),
{
    reveal(used_step);
    let u = cfg.used_ring as int;
    assert(guest::mapped(m, u + 2, 2));
    let idx = used_index(m, cfg)->0;
    let slot = idx as int % cfg.size as int;
    assert(0 <= slot < cfg.size);
    let elem = used_elem(cfg, idx);
    assert(elem == u + 4 + 8 * slot);
    assert(guest::mapped(m, elem as int, 4));
    assert(guest::mapped(m, elem + 4, 4));
    assert(at(elem, 4) == elem + 4);
    let b1 = bytes::le32(head as u32);
    let b2 = bytes::le32(len);
    let b3 = bytes::le16(next_index(idx));
    let m1 = guest::store::<A>(m, elem, b1);
    guest::store_law::<A>(m, elem, b1);
    let m2 = guest::store::<A>(m1, at(elem, 4), b2);
    guest::store_law::<A>(m1, at(elem, 4), b2);
    assert(guest::mapped(m1, elem + 4, 4));
    let m3 = guest::store::<A>(m2, at(cfg.used_ring, 2), b3);
    guest::store_law::<A>(m2, at(cfg.used_ring, 2), b3);
    assert(guest::mapped(m2, u + 2, 2));
    bytes::le32_roundtrip(head as u32);
    bytes::le32_roundtrip(len);
    bytes::le16_roundtrip(next_index(idx));
    assert(guest::mapped(m3, u + 2, 2));
    assert(guest::mapped(m3, elem as int, 4));
    assert(guest::mapped(m3, elem + 4, 4));
    assert(guest::load(m3, u + 2, 2) =~= b3);
    assert(guest::load(m3, elem as int, 4) =~= b1);
    assert(guest::load(m3, elem + 4, 4) =~= b2);
}

} // verus!
