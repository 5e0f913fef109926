//! A queue as the driver lays it out in memory, byte by byte, and that the device takes it so.

use vstd::prelude::*;

use super::blk_drain;
use super::guest;
use super::guest::{GuestAccess, GuestMem};
use super::net_laws;
use super::queue;
use super::queue::{Descriptor, QueueConfig, VirtQueue};
use super::regs::QueueState;

verus! {

/// Whether `n` bytes from `a` on are there.
pub open spec fn lies(m: GuestMem, a: int, n: int) -> bool {
    &&& 0 <= a
    &&& a + n <= 0x1_0000_0000_0000_0000
    &&& forall|x: int| a <= x < a + n ==> #[trigger] m.dom().contains(x)
}

/// Whether `n` bytes from `a` on are there, a single one with a neighbour.
pub open spec fn in_reach(m: GuestMem, a: int, n: int) -> bool {
    lies(m, a, n) && (n == 1 ==> lies(m, a, 2) || lies(m, a - 1, 2))
}

/// The number that the two bytes at `a` make.
pub open spec fn word16(m: GuestMem, a: int) -> int {
    m[a] + 0x100 * m[a + 1]
}

/// The number that the four bytes at `a` make.
pub open spec fn word32(m: GuestMem, a: int) -> int {
    m[a] + 0x100 * m[a + 1] + 0x1_0000 * m[a + 2] + 0x100_0000 * m[a + 3]
}

/// The number that the eight bytes at `a` make.
pub open spec fn word64(m: GuestMem, a: int) -> int {
    word32(m, a) + 0x1_0000_0000 * word32(m, a + 4)
}

/// A buffer that the driver posted.
pub ghost struct Buffer {
    pub addr: int,
    pub len: int,
    /// Whether the device is to write it, rather than to read it.
    pub writable: bool,
}

/// How far the driver has come in the available ring.
pub open spec fn driver_at(m: GuestMem, q: QueueState) -> int {
    word16(m, q.avail + 2)
}

/// How far the device has come in the used ring.
pub open spec fn used_at(m: GuestMem, q: QueueState) -> int {
    word16(m, q.used + 2)
}

/// How many chains wait for the device.
pub open spec fn waiting(m: GuestMem, q: QueueState) -> int {
    (driver_at(m, q) - q.last_avail_idx) % 0x1_0000
}

/// The descriptor that the `i`th waiting chain starts with.
pub open spec fn head_at(m: GuestMem, q: QueueState, i: int) -> int {
    word16(m, q.avail + 4 + 2 * ((q.last_avail_idx + i) % 0x1_0000 % q.num as int))
}

/// Where descriptor `idx` stands.
pub open spec fn descriptor_at(q: QueueState, idx: int) -> int {
    q.desc + 16 * idx
}

/// The buffer of descriptor `idx`.
pub open spec fn buffer_at(m: GuestMem, q: QueueState, idx: int) -> Buffer {
    let d = descriptor_at(q, idx);
    Buffer {
        addr: word64(m, d),
        len: word32(m, d + 8),
        writable: word16(m, d + 12) / 2 % 2 == 1,
    }
}

/// Whether another descriptor follows `idx` in its chain, and which.
pub open spec fn following(m: GuestMem, q: QueueState, idx: int) -> Option<int> {
    let d = descriptor_at(q, idx);
    if word16(m, d + 12) % 2 == 1 {
        Some(word16(m, d + 14))
    } else {
        None
    }
}

/// The buffers of the chain from descriptor `idx` on, at most `fuel` of them.
pub open spec fn buffers(m: GuestMem, q: QueueState, idx: int, fuel: nat) -> Seq<Buffer>
    decreases fuel,
{
    if fuel == 0 {
        seq![]
    } else {
        match following(m, q, idx) {
            Some(next) => seq![buffer_at(m, q, idx)] + buffers(m, q, next, (fuel - 1) as nat),
            None => seq![buffer_at(m, q, idx)],
        }
    }
}

/// The buffers of the `i`th waiting chain.
pub open spec fn chain_at(m: GuestMem, q: QueueState, i: int) -> Seq<Buffer> {
    buffers(m, q, head_at(m, q, i), q.num as nat)
}

/// Whether `n` bytes from `a` on and `k` bytes from `b` on have none in common.
pub open spec fn disjoint(a: int, n: int, b: int, k: int) -> bool {
    a + n <= b || b + k <= a
}

/// Whether `n` bytes from `a` on are no part of the queue itself.
pub open spec fn off_queue(q: QueueState, a: int, n: int) -> bool {
    &&& disjoint(a, n, q.avail as int, 4 + 2 * q.num)
    &&& disjoint(a, n, q.used as int, 4 + 8 * q.num)
    &&& disjoint(a, n, q.desc as int, 16 * q.num)
}

/// Whether descriptor `idx` is followed by one of the table, and its buffer, or the byte at its
/// address, is no part of the queue.
pub open spec fn descriptor_sound(m: GuestMem, q: QueueState, idx: int) -> bool {
    let b = buffer_at(m, q, idx);
    &&& following(m, q, idx) matches Some(next) ==> next < q.num
    &&& off_queue(
        q,
        b.addr,
        if b.len == 0 {
            1
        } else {
            b.len
        },
    )
}

/// A queue of the driver: its three parts are there and lie apart, every slot of the available
/// ring names a descriptor, and every descriptor stays within the table.
#[verifier::opaque]
pub open spec fn laid_out(m: GuestMem, q: QueueState) -> bool {
    &&& q.num > 0
    &&& lies(m, q.avail as int, 4 + 2 * q.num)
    &&& lies(m, q.used as int, 4 + 8 * q.num)
    &&& lies(m, q.desc as int, 16 * q.num)
    &&& disjoint(q.avail as int, 4 + 2 * q.num, q.used as int, 4 + 8 * q.num)
    &&& disjoint(q.desc as int, 16 * q.num, q.avail as int, 4 + 2 * q.num)
    &&& disjoint(q.desc as int, 16 * q.num, q.used as int, 4 + 8 * q.num)
    &&& forall|i: int| 0 <= #[trigger] head_at(m, q, i) < q.num
    &&& forall|idx: int| 0 <= idx < q.num ==> #[trigger] descriptor_sound(m, q, idx)
}

/// What a queue of the driver has at least.
pub proof fn laid_out_parts(m: GuestMem, q: QueueState, i: int)
    requires
        laid_out(m, q),
    ensures
        q.num > 0,
        lies(m, q.avail as int, 4 + 2 * q.num),
        lies(m, q.used as int, 4 + 8 * q.num),
        lies(m, q.desc as int, 16 * q.num),
        disjoint(q.avail as int, 4 + 2 * q.num, q.used as int, 4 + 8 * q.num),
        0 <= head_at(m, q, i) < q.num,
{
    reveal(laid_out);
}

/// Whether descriptors say what buffers say.
pub open spec fn same_buffers(chain: Seq<Descriptor>, bufs: Seq<Buffer>) -> bool {
    &&& chain.len() == bufs.len()
    &&& forall|i: int|
        0 <= i < bufs.len() ==> {
            &&& (#[trigger] chain[i]).addr == bufs[i].addr
            &&& chain[i].len == bufs[i].len
            &&& chain[i].write_only() == bufs[i].writable
        }
}

/// What is there can be reached.
pub proof fn reach_is_presence(m: GuestMem, a: int, n: int)
    ensures
        guest::mapped(m, a, n) <==> lies(m, a, n),
        guest::reachable(m, a, n) <==> in_reach(m, a, n),
{
}

/// A read of the device gives the number that the bytes make, where they are there.
pub proof fn reads_give_words(m: GuestMem, a: u64)
    ensures
        lies(m, a as int, 2) ==> guest::read16(m, a) == Some(word16(m, a as int) as u16),
        lies(m, a as int, 4) ==> guest::read32(m, a) == Some(word32(m, a as int) as u32),
        lies(m, a as int, 8) ==> guest::read64(m, a) == Some(word64(m, a as int) as u64),
        !lies(m, a as int, 2) ==> guest::read16(m, a) is None,
        !lies(m, a as int, 4) ==> guest::read32(m, a) is None,
        !lies(m, a as int, 8) ==> guest::read64(m, a) is None,
{
    reach_is_presence(m, a as int, 2);
    reach_is_presence(m, a as int, 4);
    reach_is_presence(m, a as int, 8);
    let b = guest::load(m, a as int, 8);
    assert(forall|i: int| 0 <= i < 4 ==> b.skip(4)[i] == m[a + 4 + i]);
}

/// The words of memory are what their widths allow.
proof fn word_bounds(m: GuestMem, a: int)
    ensures
        0 <= word16(m, a) < 0x1_0000,
        0 <= word32(m, a) < 0x1_0000_0000,
        0 <= word64(m, a) < 0x1_0000_0000_0000_0000,
{
}

/// The flags of a descriptor, bit by bit.
proof fn flag_bits(f: u16)
    ensures
        f & 1 != 0 <==> f % 2 == 1,
        f & 2 != 0 <==> f / 2 % 2 == 1,
{
    assert((f & 1 != 0 <==> f % 2 == 1) && (f & 2 != 0 <==> f / 2 % 2 == 1)) by (bit_vector);
}

/// A descriptor of a table that is there is read as it stands: address, length, flags and the
/// one that follows.
#[verifier::rlimit(60)]
#[verifier::spinoff_prover]
pub proof fn descriptor_is_read(m: GuestMem, q: QueueState, idx: u16)
    requires
        lies(m, q.desc as int, 16 * q.num),
        idx < q.num,
    ensures
        queue::desc_at(m, q.desc, idx) matches Some(d) && {
            let b = buffer_at(m, q, idx as int);
            &&& d.addr == b.addr
            &&& d.len == b.len
            &&& d.write_only() == b.writable
            &&& d.chained() <==> following(m, q, idx as int) is Some
            &&& following(m, q, idx as int) matches Some(next) ==> d.next == next
        },
{
    let base = queue::at(q.desc, 16 * idx);
    assert(base == descriptor_at(q, idx as int));
    assert(queue::at(base, 8) == base + 8);
    assert(queue::at(base, 12) == base + 12);
    assert(queue::at(base, 14) == base + 14);
    assert(lies(m, base as int, 8) && lies(m, base + 8, 4) && lies(m, base + 12, 2) && lies(
        m,
        base + 14,
        2,
    ));
    reads_give_words(m, base);
    reads_give_words(m, queue::at(base, 8));
    reads_give_words(m, queue::at(base, 12));
    reads_give_words(m, queue::at(base, 14));
    word_bounds(m, base as int);
    word_bounds(m, base + 8);
    word_bounds(m, base + 12);
    word_bounds(m, base + 14);
    flag_bits(word16(m, base + 12) as u16);
}

/// What a descriptor says of its buffer: the lowest bit of its flags that another follows, the
/// next one that the device may write to it.
pub proof fn flags_are_told(d: Descriptor, more: bool, writable: bool)
    requires
        call_ensures(Descriptor::has_next, (&d,), more),
        call_ensures(Descriptor::is_write_only, (&d,), writable),
    ensures
        more <==> d.flags % 2 == 1,
        writable <==> d.flags / 2 % 2 == 1,
{
    let f = d.flags;
    assert((f & 1 != 0 <==> f % 2 == 1) && (f & 2 != 0 <==> f / 2 % 2 == 1)) by (bit_vector);
}

/// A chain of a table that is there is walked as it stands.
#[verifier::rlimit(60)]
#[verifier::spinoff_prover]
pub proof fn chain_is_walked(m: GuestMem, q: QueueState, idx: u16, fuel: nat)
    requires
        lies(m, q.desc as int, 16 * q.num),
        idx < q.num,
        forall|i: int|
            0 <= i < q.num ==> (#[trigger] following(m, q, i) matches Some(next) ==> next < q.num),
    ensures
        same_buffers(queue::chain_from(m, q.desc, idx, fuel), buffers(m, q, idx as int, fuel)),
    decreases fuel,
{
    if fuel > 0 {
        descriptor_is_read(m, q, idx);
        let d = queue::desc_at(m, q.desc, idx)->0;
        if let Some(next) = following(m, q, idx as int) {
            chain_is_walked(m, q, d.next, (fuel - 1) as nat);
            let rest = queue::chain_from(m, q.desc, d.next, (fuel - 1) as nat);
            let bufs = buffers(m, q, next, (fuel - 1) as nat);
            assert forall|i: int| 0 <= i < bufs.len() + 1 implies ({
                let c = #[trigger] (seq![d] + rest)[i];
                let b = (seq![buffer_at(m, q, idx as int)] + bufs)[i];
                &&& c.addr == b.addr
                &&& c.len == b.len
                &&& c.write_only() == b.writable
            }) by {
                if i > 0 {
                    assert((seq![d] + rest)[i] == rest[i - 1]);
                }
            }
        }
    }
}

/// How far one index is behind another, once it has come `j` on.
proof fn distance(idx: int, last: int, j: int)
    requires
        0 <= idx < 0x1_0000,
        0 <= last < 0x1_0000,
        0 <= j <= (idx - last) % 0x1_0000,
    ensures
        (idx - (last + j) % 0x1_0000) % 0x1_0000 == (idx - last) % 0x1_0000 - j,
        idx == (last + j) % 0x1_0000 <==> j == (idx - last) % 0x1_0000,
{
}

/// A chain that waits is the next that the device takes, and from the slot that its place in
/// the ring gives; none is taken where none waits.
#[verifier::rlimit(60)]
#[verifier::spinoff_prover]
pub proof fn next_is_taken(m: GuestMem, q: QueueState, j: int)
    requires
        q.num > 0,
        lies(m, q.avail as int, 4 + 2 * q.num),
        0 <= j <= waiting(m, q),
    ensures
        ({
            let last = ((q.last_avail_idx + j) % 0x1_0000) as u16;
            &&& queue::avail_index(m, q.config_spec()) == Some(driver_at(m, q) as u16)
            &&& queue::pending_count(m, q.config_spec(), last) == waiting(m, q) - j
            &&& queue::next_head(m, q.config_spec(), last) == if j < waiting(m, q) {
                Some(head_at(m, q, j) as u16)
            } else {
                None
            }
        }),
{
    let cfg = q.config_spec();
    let last = ((q.last_avail_idx + j) % 0x1_0000) as u16;
    driver_is_read(m, q);
    word_bounds(m, q.avail + 2);
    distance(driver_at(m, q), q.last_avail_idx as int, j);
    assert(queue::pending_count(m, cfg, last) == waiting(m, q) - j) by {
        reveal(queue::pending_count);
    }
    slot_is_read(m, q, last);
}

/// The driver's index is read where it stands.
proof fn driver_is_read(m: GuestMem, q: QueueState)
    requires
        lies(m, q.avail as int, 4 + 2 * q.num),
    ensures
        queue::avail_index(m, q.config_spec()) == Some(driver_at(m, q) as u16),
{
    assert(queue::at(q.avail, 2) == q.avail + 2);
    assert(lies(m, q.avail + 2, 2));
    reads_give_words(m, queue::at(q.avail, 2));
}

/// A slot of the available ring is read where it stands.
proof fn slot_is_read(m: GuestMem, q: QueueState, last: u16)
    requires
        q.num > 0,
        lies(m, q.avail as int, 4 + 2 * q.num),
    ensures
        guest::read16(m, queue::at(q.avail, 4 + 2 * (last as int % q.num as int))) == Some(
            word16(m, q.avail + 4 + 2 * (last as int % q.num as int)) as u16,
        ),
{
    let slot = last as int % q.num as int;
    assert(0 <= slot < q.num);
    net_laws::avail_slot_inside(q.config_spec(), last);
    let at = queue::at(q.avail, 4 + 2 * slot);
    assert(at == q.avail + 4 + 2 * slot);
    assert(lies(m, at as int, 2));
    reads_give_words(m, at);
}

/// A queue that the driver laid out is one that the device can serve to the end.
#[verifier::rlimit(60)]
#[verifier::spinoff_prover]
pub proof fn laid_out_is_tidy(m: GuestMem, q: QueueState)
    requires
        laid_out(m, q),
    ensures
        blk_drain::tidy(m, q.config_spec()),
        queue::used_index(m, q.config_spec()) == Some(used_at(m, q) as u16),
        queue::avail_index(m, q.config_spec()) == Some(driver_at(m, q) as u16),
        queue::pending_count(m, q.config_spec(), q.last_avail_idx) == waiting(m, q),
{
    reveal(laid_out);
    reveal(blk_drain::tidy);
    let cfg = q.config_spec();
    reach_is_presence(m, q.avail as int, 4 + 2 * q.num);
    reach_is_presence(m, q.used as int, 4 + 8 * q.num);
    reach_is_presence(m, q.desc as int, 16 * q.num);
    assert(queue::at(cfg.used_ring, 2) == q.used + 2);
    assert(lies(m, q.used + 2, 2));
    reads_give_words(m, queue::at(cfg.used_ring, 2));
    next_is_taken(m, q, 0);
    assert forall|last: u16| #[trigger] blk_drain::sound_slot(m, cfg, last) by {
        let i = last - q.last_avail_idx;
        assert((q.last_avail_idx + i) % 0x1_0000 == last);
        let slot = last as int % q.num as int;
        net_laws::avail_slot_inside(cfg, last);
        let at = queue::at(cfg.avail_ring, 4 + 2 * slot);
        assert(at == q.avail + 4 + 2 * slot);
        assert(lies(m, at as int, 2));
        reads_give_words(m, at);
        assert(head_at(m, q, i) == word16(m, at as int));
    }
    assert forall|idx: u16| idx < cfg.size implies #[trigger] blk_drain::sound_descriptor(
        m,
        cfg,
        idx,
    ) by {
        assert(descriptor_sound(m, q, idx as int));
        descriptor_is_read(m, q, idx);
    }
}

/// The `i`th waiting chain as the device walks it.
pub proof fn waiting_chain_is_walked(m: GuestMem, q: QueueState, i: int)
    requires
        laid_out(m, q),
    ensures
        0 <= head_at(m, q, i) < q.num,
        same_buffers(
            queue::chain_from(m, q.desc, head_at(m, q, i) as u16, q.num as nat),
            chain_at(m, q, i),
        ),
{
    reveal(laid_out);
    assert forall|k: int| 0 <= k < q.num implies (#[trigger] following(m, q, k) matches Some(next)
        ==> next < q.num) by {
        assert(descriptor_sound(m, q, k));
    }
    assert(0 <= head_at(m, q, i) < q.num);
    chain_is_walked(m, q, head_at(m, q, i) as u16, q.num as nat);
}

/// A chain that the device is done with is named in the used ring, at the slot that the ring's
/// index gives, with the number of bytes written into it; then the index is one more. Nothing
/// else changes.
#[verifier::rlimit(60)]
#[verifier::spinoff_prover]
pub proof fn used_entry_is_left<A: GuestAccess>(m: GuestMem, q: QueueState, head: u16, len: u32)
    requires
        q.num > 0,
        lies(m, q.used as int, 4 + 8 * q.num),
    ensures
        ({
            let r = queue::used_step::<A>(m, q.config_spec(), head, len).0;
            let slot = q.used + 4 + 8 * (used_at(m, q) % q.num as int);
            &&& r.dom() == m.dom()
            &&& word32(r, slot) == head
            &&& word32(r, slot + 4) == len
            &&& used_at(r, q) == (used_at(m, q) + 1) % 0x1_0000
            &&& forall|a: int|
                m.dom().contains(a) && !(slot <= a < slot + 8) && !(q.used + 2 <= a < q.used + 4)
                    ==> #[trigger] r[a] == m[a]
            &&& forall|a: int|
                m.dom().contains(a) && !(q.used <= a < q.used + 4 + 8 * q.num)
                    ==> #[trigger] r[a] == m[a]
        }),
{
    let cfg = q.config_spec();
    reach_is_presence(m, q.used as int, 4 + 8 * q.num);
    queue::used_step_law::<A>(m, cfg, head, len);
    let r = queue::used_step::<A>(m, cfg, head, len).0;
    assert(queue::at(cfg.used_ring, 2) == q.used + 2);
    assert(lies(m, q.used + 2, 2));
    reads_give_words(m, queue::at(cfg.used_ring, 2));
    word_bounds(m, q.used + 2);
    let idx = queue::used_index(m, cfg)->0;
    queue::used_elem_inside(cfg, idx);
    let elem = queue::used_elem(cfg, idx);
    let slot = q.used + 4 + 8 * (used_at(m, q) % q.num as int);
    assert(elem == slot);
    assert(lies(r, elem as int, 4) && lies(r, elem + 4, 4) && lies(r, q.used + 2, 2));
    reads_give_words(r, elem);
    reads_give_words(r, queue::at(elem, 4));
    reads_give_words(r, queue::at(cfg.used_ring, 2));
    word_bounds(r, elem as int);
    word_bounds(r, elem + 4);
    word_bounds(r, q.used + 2);
}

/// A virtqueue as a queue of the driver.
pub open spec fn queue_of(v: VirtQueue) -> QueueState {
    QueueState {
        num: v.config().size,
        ready: true,
        desc: v.config().desc_table,
        avail: v.config().avail_ring,
        used: v.config().used_ring,
        last_avail_idx: v.position(),
    }
}

/// Taking from a virtqueue gives the heads in the order of the available ring, one for each chain
/// that waits, and nothing where none does.
#[verifier::rlimit(60)]
#[verifier::spinoff_prover]
pub proof fn taking_follows_ring<A: GuestAccess>(mem: A, r: Option<u16>)
    ensures
        forall|s: &mut VirtQueue| #[trigger]
            call_ensures(VirtQueue::pop_avail::<A>, (s, &mem), r) && (*s).config().size > 0 && lies(
                mem.mem(),
                (*s).config().avail_ring as int,
                4 + 2 * (*s).config().size,
            ) ==> {
                let q = queue_of(*s);
                &&& (*final(s)).config() == (*s).config()
                &&& waiting(mem.mem(), q) > 0 ==> r == Some(head_at(mem.mem(), q, 0) as u16)
                    && (*final(s)).position() == ((*s).position() + 1) % 0x1_0000
                &&& waiting(mem.mem(), q) == 0 ==> r is None && (*final(s)).position()
                    == (*s).position()
            },
{
    assert forall|s: &mut VirtQueue| #[trigger]
        call_ensures(VirtQueue::pop_avail::<A>, (s, &mem), r) && (*s).config().size > 0 && lies(
            mem.mem(),
            (*s).config().avail_ring as int,
            4 + 2 * (*s).config().size,
        ) implies {
        let q = queue_of(*s);
        &&& waiting(mem.mem(), q) > 0 ==> r == Some(head_at(mem.mem(), q, 0) as u16)
        &&& waiting(mem.mem(), q) == 0 ==> r is None
    } by {
        let q = queue_of(*s);
        let m = mem.mem();
        next_is_taken(m, q, 0);
        assert(((q.last_avail_idx + 0) % 0x1_0000) as u16 == q.last_avail_idx);
        let c = (*s).config();
        ring_config(m, c, q.config_spec(), q.last_avail_idx);
    }
}

/// Where a ring stands does not depend on whether it is ready.
proof fn ring_config(m: GuestMem, a: QueueConfig, b: QueueConfig, last: u16)
    requires
        a.size == b.size,
        a.desc_table == b.desc_table,
        a.avail_ring == b.avail_ring,
        a.used_ring == b.used_ring,
    ensures
        queue::next_head(m, a, last) == queue::next_head(m, b, last),
{
}

/// Walking a chain gives its buffers, in order.
pub proof fn walking_gives_buffers<A: GuestAccess>(
    v: VirtQueue,
    mem: A,
    head: u16,
    r: Vec<Descriptor>,
)
    requires
        call_ensures(VirtQueue::chain::<A>, (&v, &mem, head), r),
        lies(mem.mem(), v.config().desc_table as int, 16 * v.config().size),
        head < v.config().size,
        forall|i: int|
            0 <= i < v.config().size ==> (#[trigger] following(
                mem.mem(),
                queue_of(v),
                i,
            ) matches Some(next) ==> next < v.config().size),
    ensures
        same_buffers(r@, buffers(mem.mem(), queue_of(v), head as int, v.config().size as nat)),
{
    chain_is_walked(mem.mem(), queue_of(v), head, v.config().size as nat);
}

/// Giving a chain back leaves it in the used ring, with its length, one further.
#[verifier::rlimit(60)]
#[verifier::spinoff_prover]
pub proof fn giving_back_is_recorded<A: GuestAccess>(head: u16, len: u32, r: Option<()>)
    ensures
        forall|s: &mut VirtQueue, mem: &mut A| #[trigger]
            call_ensures(VirtQueue::add_used::<A>, (s, mem, head, len), r) && (*s).config().size > 0
                && lies((*mem).mem(), (*s).config().used_ring as int, 4 + 8 * (*s).config().size)
                ==> {
                let q = queue_of(*s);
                let m = (*mem).mem();
                let w = (*final(mem)).mem();
                let slot = q.used + 4 + 8 * (used_at(m, q) % q.num as int);
                &&& r is Some
                &&& *final(s) == *s
                &&& w.dom() == m.dom()
                &&& word32(w, slot) == head
                &&& word32(w, slot + 4) == len
                &&& used_at(w, q) == (used_at(m, q) + 1) % 0x1_0000
            },
{
    assert forall|s: &mut VirtQueue, mem: &mut A| #[trigger]
        call_ensures(VirtQueue::add_used::<A>, (s, mem, head, len), r) && (*s).config().size > 0
            && lies((*mem).mem(), (*s).config().used_ring as int, 4 + 8 * (*s).config().size)
        implies {
        let q = queue_of(*s);
        let m = (*mem).mem();
        let w = (*final(mem)).mem();
        let slot = q.used + 4 + 8 * (used_at(m, q) % q.num as int);
        &&& r is Some
        &&& w.dom() == m.dom()
        &&& word32(w, slot) == head
        &&& word32(w, slot + 4) == len
        &&& used_at(w, q) == (used_at(m, q) + 1) % 0x1_0000
    } by {
        let q = queue_of(*s);
        let m = (*mem).mem();
        let c = (*s).config();
        used_entry_is_left::<A>(m, q, head, len);
        used_config::<A>(m, c, q.config_spec(), head, len);
        reach_is_presence(m, q.used as int, 4 + 8 * q.num);
        queue::used_step_law::<A>(m, c, head, len);
    }
}

/// Where a used ring stands does not depend on whether it is ready.
proof fn used_config<A: GuestAccess>(
    m: GuestMem,
    a: QueueConfig,
    b: QueueConfig,
    head: u16,
    len: u32,
)
    requires
        a.size == b.size,
        a.desc_table == b.desc_table,
        a.avail_ring == b.avail_ring,
        a.used_ring == b.used_ring,
    ensures
        queue::used_step::<A>(m, a, head, len) == queue::used_step::<A>(m, b, head, len),
{
    reveal(queue::used_step);
}

/// A run of guest memory is read exactly where it is within reach, byte by byte; and a run is
/// written exactly there, every byte of it and no other.
#[verifier::rlimit(60)]
#[verifier::spinoff_prover]
pub proof fn runs_are_copied<A: GuestAccess>(gpa: u64, len: usize, b: &[u8], took: bool)
    ensures
        forall|mem: A, got: Option<Vec<u8>>| #[trigger]
            call_ensures(guest::read_guest::<A>, (&mem, gpa, len), got) ==> {
                &&& got is Some <==> in_reach(mem.mem(), gpa as int, len as int)
                &&& got matches Some(v) ==> v@.len() == len && forall|i: int|
                    0 <= i < len ==> v@[i] == mem.mem()[gpa + i]
            },
        forall|mem: &mut A| #[trigger]
            call_ensures(guest::write_guest::<A>, (mem, gpa, b), took) ==> {
                let m = (*mem).mem();
                let w = (*final(mem)).mem();
                &&& w.dom() == m.dom()
                &&& took <==> in_reach(m, gpa as int, b@.len() as int)
                &&& took ==> forall|a: int|
                    gpa <= a < gpa + b@.len() ==> #[trigger] w[a] == b@[a - gpa]
                &&& forall|a: int|
                    m.dom().contains(a) && !(gpa <= a < gpa + b@.len()) ==> #[trigger] w[a] == m[a]
            },
{
    assert forall|mem: &mut A| #[trigger]
        call_ensures(guest::write_guest::<A>, (mem, gpa, b), took) implies {
        let m = (*mem).mem();
        let w = (*final(mem)).mem();
        &&& w.dom() == m.dom()
        &&& took <==> in_reach(m, gpa as int, b@.len() as int)
        &&& took ==> forall|a: int|
            gpa <= a < gpa + b@.len() ==> #[trigger] w[a] == b@[a - gpa]
        &&& forall|a: int|
            m.dom().contains(a) && !(gpa <= a < gpa + b@.len()) ==> #[trigger] w[a] == m[a]
    } by {
        let m = (*mem).mem();
        let w = (*final(mem)).mem();
        guest::write_run_law::<A>(m, gpa as int, b@);
        reach_is_presence(m, gpa as int, b@.len() as int);
        if took {
            assert forall|a: int| gpa <= a < gpa + b@.len() implies #[trigger] w[a] == b@[a
                - gpa] by {
                assert(m.dom().contains(a));
            }
        }
    }
    assert forall|mem: A, got: Option<Vec<u8>>| #[trigger]
        call_ensures(guest::read_guest::<A>, (&mem, gpa, len), got) implies (got is Some
        <==> in_reach(mem.mem(), gpa as int, len as int)) by {
        reach_is_presence(mem.mem(), gpa as int, len as int);
    }
}

} // verus!
