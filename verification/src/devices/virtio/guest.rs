//! Guest physical memory as a device sees it: word accesses through an injected
//! accessor, and byte runs built from them.
//!
//! The contracts speak of the memory as a map from guest physical address to byte.
//! An address outside the map is one that the accessor refuses.

use vstd::prelude::*;

use crate::bytes;

verus! {

/// Guest physical memory: the bytes at the addresses that can be reached.
pub type GuestMem = Map<int, u8>;

/// One past the last 64-bit address.
pub open spec fn address_end() -> int {
    0x1_0000_0000_0000_0000
}

/// Whether all of `[gpa, gpa + n)` can be reached.
pub open spec fn mapped(m: GuestMem, gpa: int, n: int) -> bool {
    &&& 0 <= gpa
    &&& gpa + n <= address_end()
    &&& forall|a: int| gpa <= a < gpa + n ==> #[trigger] m.dom().contains(a)
}

/// The `n` bytes at `gpa`.
pub open spec fn load(m: GuestMem, gpa: int, n: int) -> Seq<u8> {
    Seq::new(n as nat, |i: int| m[gpa + i])
}

/// `m` with `b` stored at `gpa`; addresses that cannot be reached stay so.
pub open spec fn overwrite(m: GuestMem, gpa: int, b: Seq<u8>) -> GuestMem {
    Map::new(
        |a: int| m.dom().contains(a),
        |a: int| if gpa <= a < gpa + b.len() { b[a - gpa] } else { m[a] },
    )
}

/// What a 16-bit read at `gpa` gives.
pub open spec fn read16(m: GuestMem, gpa: u64) -> Option<u16> {
    if mapped(m, gpa as int, 2) {
        Some(bytes::u16_of(load(m, gpa as int, 2)))
    } else {
        None
    }
}

/// What a 32-bit read at `gpa` gives.
pub open spec fn read32(m: GuestMem, gpa: u64) -> Option<u32> {
    if mapped(m, gpa as int, 4) {
        Some(bytes::u32_of(load(m, gpa as int, 4)))
    } else {
        None
    }
}

/// What a 64-bit read at `gpa` gives.
pub open spec fn read64(m: GuestMem, gpa: u64) -> Option<u64> {
    if mapped(m, gpa as int, 8) {
        Some(bytes::u64_of(load(m, gpa as int, 8)))
    } else {
        None
    }
}

/// Whether `r` can be what a store of `b` at `gpa` leaves of `m`: a store that is
/// accepted replaces exactly its bytes, and a refused one reaches no byte outside its run.
pub open spec fn store_within(m: GuestMem, gpa: u64, b: Seq<u8>, r: GuestMem) -> bool {
    &&& r.dom() == m.dom()
    &&& mapped(m, gpa as int, b.len() as int) ==> r == overwrite(m, gpa as int, b)
    &&& forall|a: int|
        m.dom().contains(a) && !(gpa <= a < gpa + b.len()) ==> #[trigger] r[a] == m[a]
}

/// How many of the `n` bytes from `gpa` on can be reached before the first that cannot.
pub open spec fn reach(m: GuestMem, gpa: int, n: nat) -> nat
    decreases n,
{
    if n == 0 || !m.dom().contains(gpa) {
        0
    } else {
        1 + reach(m, gpa + 1, (n - 1) as nat)
    }
}

/// The memory that a store of `b` at `gpa` leaves, accepted or refused. A refused one leaves
/// the bytes that come before the first address out of reach, where `prefix` says so, or else
/// nothing.
pub open spec fn store_as(prefix: bool, m: GuestMem, gpa: u64, b: Seq<u8>) -> GuestMem {
    if mapped(m, gpa as int, b.len() as int) {
        overwrite(m, gpa as int, b)
    } else if prefix {
        overwrite(m, gpa as int, b.take(reach(m, gpa as int, b.len()) as int))
    } else {
        m
    }
}

/// A run can be reached whole exactly where each of its addresses can.
pub proof fn reach_law(m: GuestMem, gpa: int, n: nat)
    ensures
        reach(m, gpa, n) <= n,
        reach(m, gpa, n) == n <==> (forall|a: int|
            gpa <= a < gpa + n ==> #[trigger] m.dom().contains(a)),
    decreases n,
{
    if n > 0 && m.dom().contains(gpa) {
        reach_law(m, gpa + 1, (n - 1) as nat);
        if reach(m, gpa, n) == n {
            assert forall|a: int| gpa <= a < gpa + n implies #[trigger] m.dom().contains(a) by {
                if a > gpa {
                    assert(gpa + 1 <= a < gpa + 1 + (n - 1));
                }
            }
        }
    }
}

/// Guest-physical-memory accessor, little-endian words, injected so that a device can
/// reach descriptors, rings and buffers without depending on how guest RAM is backed.
pub trait GuestAccess: Sized {
    /// The memory as this accessor reaches it. Nothing is known of it but what an implementer
    /// says.
    open spec fn mem(&self) -> GuestMem {
        arbitrary()
    }

    /// Whether a refused store leaves the bytes that come before the first address out of reach.
    /// Unless an implementer says otherwise, it leaves nothing.
    open spec fn stores_prefix() -> bool {
        false
    }

    fn read_u16(&self, gpa: u64) -> (r: Option<u16>)
        ensures
            r == read16(self.mem(), gpa),
    ;

    fn read_u32(&self, gpa: u64) -> (r: Option<u32>)
        ensures
            r == read32(self.mem(), gpa),
    ;

    fn read_u64(&self, gpa: u64) -> (r: Option<u64>)
        ensures
            r == read64(self.mem(), gpa),
    ;

    fn write_u16(&mut self, gpa: u64, v: u16) -> (r: Option<()>)
        ensures
            r is Some <==> mapped(old(self).mem(), gpa as int, 2),
            final(self).mem() == store_as(Self::stores_prefix(), old(self).mem(), gpa, bytes::le16(v)),
    ;

    fn write_u32(&mut self, gpa: u64, v: u32) -> (r: Option<()>)
        ensures
            r is Some <==> mapped(old(self).mem(), gpa as int, 4),
            final(self).mem() == store_as(Self::stores_prefix(), old(self).mem(), gpa, bytes::le32(v)),
    ;
}

/// The memory that a store of `b` at `gpa` leaves, accepted or refused, through an accessor of
/// that kind.
pub open spec fn store<A: GuestAccess>(m: GuestMem, gpa: u64, b: Seq<u8>) -> GuestMem {
    store_as(A::stores_prefix(), m, gpa, b)
}

/// An accepted store replaces its bytes; a refused one stays within its run.
pub proof fn store_law<A: GuestAccess>(m: GuestMem, gpa: u64, b: Seq<u8>)
    ensures
        store_within(m, gpa, b, store::<A>(m, gpa, b)),
{
    reach_law(m, gpa as int, b.len());
    assert(store::<A>(m, gpa, b).dom() =~= m.dom());
}

/// Whether the byte at `a` can be reached through words: by the one that starts with it or by
/// the one that ends with it.
pub open spec fn byte_reachable(m: GuestMem, a: int) -> bool {
    mapped(m, a, 2) || mapped(m, a - 1, 2)
}

/// Whether the `n` bytes at `gpa` can be reached through words. All of them can be reached; a
/// single one needs a neighbour to make a word with.
pub open spec fn reachable(m: GuestMem, gpa: int, n: int) -> bool {
    mapped(m, gpa, n) && (n == 1 ==> byte_reachable(m, gpa))
}

/// What a read of `n` bytes at `gpa` gives: the bytes, where they can be reached.
pub open spec fn read_run(m: GuestMem, gpa: u64, n: int) -> Option<Seq<u8>> {
    if reachable(m, gpa as int, n) {
        Some(load(m, gpa as int, n))
    } else {
        None
    }
}

/// What a write of `b` at `gpa` leaves, and whether it was accepted: words of four bytes, then
/// one of two, then a last byte alone, up to the first that is refused.
pub open spec fn write_run<A: GuestAccess>(m: GuestMem, gpa: int, b: Seq<u8>) -> (GuestMem, bool)
    decreases b.len(),
{
    if b.len() == 0 {
        (m, true)
    } else if gpa >= address_end() {
        (m, false)
    } else if b.len() >= 4 {
        let m1 = store::<A>(m, gpa as u64, b.take(4));
        if mapped(m, gpa, 4) {
            write_run::<A>(m1, gpa + 4, b.skip(4))
        } else {
            (m1, false)
        }
    } else if b.len() >= 2 {
        let m1 = store::<A>(m, gpa as u64, b.take(2));
        if mapped(m, gpa, 2) {
            write_run::<A>(m1, gpa + 2, b.skip(2))
        } else {
            (m1, false)
        }
    } else if reachable(m, gpa, 1) {
        (overwrite(m, gpa, b), true)
    } else {
        (m, false)
    }
}

/// A run can be reached wherever the same addresses can.
pub proof fn reachable_same(m: GuestMem, r: GuestMem, gpa: int, n: int)
    requires
        r.dom() == m.dom(),
    ensures
        reachable(r, gpa, n) == reachable(m, gpa, n),
        mapped(r, gpa, n) == mapped(m, gpa, n),
{
    assert(mapped(r, gpa, n) == mapped(m, gpa, n));
    assert(mapped(r, gpa, 2) == mapped(m, gpa, 2));
    assert(mapped(r, gpa - 1, 2) == mapped(m, gpa - 1, 2));
}

/// A part of a run that can be reached can be reached, from its start on.
pub proof fn reachable_part(m: GuestMem, gpa: int, n: int, k: int)
    requires
        reachable(m, gpa, n),
        0 <= k <= n,
    ensures
        reachable(m, gpa, k),
{
    assert(k < n ==> mapped(m, gpa, k));
    if k == 1 && n > 1 {
        assert(mapped(m, gpa, 2));
    }
}

/// A write of a byte run is accepted exactly where the run can be reached, and then stores the
/// bytes. Accepted or not, it keeps which addresses can be reached and every byte outside the
/// run.
pub proof fn write_run_law<A: GuestAccess>(m: GuestMem, gpa: int, b: Seq<u8>)
    requires
        0 <= gpa,
    ensures
        write_run::<A>(m, gpa, b).0.dom() == m.dom(),
        write_run::<A>(m, gpa, b).1 <==> b.len() == 0 || reachable(m, gpa, b.len() as int),
        b.len() > 0 && write_run::<A>(m, gpa, b).1 ==> write_run::<A>(m, gpa, b).0 == overwrite(
            m,
            gpa,
            b,
        ),
        forall|a: int|
            m.dom().contains(a) && !(gpa <= a < gpa + b.len()) ==> #[trigger] write_run::<A>(
                m,
                gpa,
                b,
            ).0[a] == m[a],
    decreases b.len(),
{
    let r = write_run::<A>(m, gpa, b);
    let n = b.len() as int;
    if b.len() == 0 {
    } else if gpa >= address_end() {
    } else if b.len() >= 2 {
        let k: int = if b.len() >= 4 {
            4
        } else {
            2
        };
        let w = b.take(k);
        let rest = b.skip(k);
        store_law::<A>(m, gpa as u64, w);
        let m1 = store::<A>(m, gpa as u64, w);
        if mapped(m, gpa, k) {
            write_run_law::<A>(m1, gpa + k, rest);
            assert(r == write_run::<A>(m1, gpa + k, rest));
            if r.1 {
                assert forall|a: int| gpa <= a < gpa + n implies #[trigger] m.dom().contains(a) by {
                    if a >= gpa + k {
                        assert(rest.len() > 0);
                        assert(m1.dom().contains(a));
                    }
                }
                assert(r.0 =~= overwrite(m, gpa, b));
            } else if reachable(m, gpa, n) {
                assert(mapped(m1, gpa + k, rest.len() as int));
                if rest.len() == 1 {
                    assert(mapped(m1, gpa + k - 1, 2));
                }
            }
        } else if mapped(m, gpa, n) {
            assert(mapped(m, gpa, k));
        }
    } else {
        assert(overwrite(m, gpa, b).dom() =~= m.dom());
    }
}

/// Bytes stored at reachable addresses are what a load there gives back.
pub proof fn overwrite_load(m: GuestMem, gpa: int, b: Seq<u8>)
    requires
        mapped(m, gpa, b.len() as int),
    ensures
        load(overwrite(m, gpa, b), gpa, b.len() as int) == b,
{
    assert(load(overwrite(m, gpa, b), gpa, b.len() as int) =~= b);
}

/// What a 16-bit read gives depends on its two bytes alone.
pub proof fn read16_same(m: GuestMem, r: GuestMem, gpa: u64)
    requires
        r.dom() == m.dom(),
        forall|a: int| gpa <= a < gpa + 2 ==> #[trigger] r[a] == m[a],
    ensures
        read16(r, gpa) == read16(m, gpa),
{
    assert(load(r, gpa as int, 2) =~= load(m, gpa as int, 2));
}

/// What a 32-bit read gives depends on its four bytes alone.
pub proof fn read32_same(m: GuestMem, r: GuestMem, gpa: u64)
    requires
        r.dom() == m.dom(),
        forall|a: int| gpa <= a < gpa + 4 ==> #[trigger] r[a] == m[a],
    ensures
        read32(r, gpa) == read32(m, gpa),
{
    assert(load(r, gpa as int, 4) =~= load(m, gpa as int, 4));
}

/// What a 64-bit read gives depends on its eight bytes alone.
pub proof fn read64_same(m: GuestMem, r: GuestMem, gpa: u64)
    requires
        r.dom() == m.dom(),
        forall|a: int| gpa <= a < gpa + 8 ==> #[trigger] r[a] == m[a],
    ensures
        read64(r, gpa) == read64(m, gpa),
{
    assert(load(r, gpa as int, 8) =~= load(m, gpa as int, 8));
}

/// What was written as a byte run is what a read of that run gives back.
pub proof fn write_then_read<A: GuestAccess>(m: GuestMem, gpa: u64, b: Seq<u8>)
    requires
        reachable(m, gpa as int, b.len() as int),
    ensures
        write_run::<A>(m, gpa as int, b).1,
        read_run(write_run::<A>(m, gpa as int, b).0, gpa, b.len() as int) == Some(b),
{
    let r = write_run::<A>(m, gpa as int, b);
    write_run_law::<A>(m, gpa as int, b);
    assert(mapped(r.0, gpa as int, b.len() as int));
    if b.len() == 1 {
        assert(mapped(m, gpa as int, 2) ==> mapped(r.0, gpa as int, 2));
        assert(mapped(m, gpa - 1, 2) ==> mapped(r.0, gpa - 1, 2));
    }
    assert(load(r.0, gpa as int, b.len() as int) =~= b);
}

/// A part of a run that can be reached can be reached.
proof fn mapped_part(m: GuestMem, gpa: int, n: int, off: int, k: int)
    requires
        mapped(m, gpa, n),
        0 <= off,
        off + k <= n,
    ensures
        mapped(m, gpa + off, k),
{
}

/// A run and the bytes behind it make a longer run.
proof fn load_extends(m: GuestMem, gpa: int, done: int, k: int)
    requires
        0 <= done,
        0 <= k,
        mapped(m, gpa, done),
        mapped(m, gpa + done, k),
    ensures
        mapped(m, gpa, done + k),
        load(m, gpa, done) + load(m, gpa + done, k) == load(m, gpa, done + k),
{
    assert forall|a: int| gpa <= a < gpa + done + k implies #[trigger] m.dom().contains(a) by {}
    assert(load(m, gpa, done) + load(m, gpa + done, k) =~= load(m, gpa, done + k));
}

/// Reads the byte at `at` through a word.
fn read_byte<A: GuestAccess>(mem: &A, at: u64) -> (r: Option<u8>)
    ensures
        r == if reachable(mem.mem(), at as int, 1) {
            Some(mem.mem()[at as int])
        } else {
            None
        },
{
    let ghost m = mem.mem();
    if let Some(v) = mem.read_u16(at) {
        proof {
            bytes::u16_roundtrip(load(m, at as int, 2));
            assert(m.dom().contains(at as int));
            assert(mapped(m, at as int, 1));
        }
        return Some((v % 0x100) as u8);
    }
    if at == 0 {
        return None;
    }
    match mem.read_u16(at - 1) {
        Some(v) => {
            proof {
                bytes::u16_roundtrip(load(m, at - 1, 2));
                assert(m.dom().contains(at as int));
                assert(mapped(m, at as int, 1));
            }
            Some((v / 0x100) as u8)
        },
        None => None,
    }
}

/// Writes the byte at `at` through a word, and keeps the other byte of that word.
fn write_byte<A: GuestAccess>(mem: &mut A, at: u64, b: u8) -> (r: bool)
    ensures
        r == reachable(old(mem).mem(), at as int, 1),
        final(mem).mem() == if r {
            overwrite(old(mem).mem(), at as int, seq![b])
        } else {
            old(mem).mem()
        },
{
    let ghost m = mem.mem();
    if let Some(v) = mem.read_u16(at) {
        let w: u16 = v / 0x100 * 0x100 + b as u16;
        proof {
            bytes::u16_roundtrip(load(m, at as int, 2));
            assert(m.dom().contains(at as int));
            assert(mapped(m, at as int, 1));
            assert(bytes::le16(w) =~= seq![b, m[at + 1]]);
            assert(overwrite(m, at as int, bytes::le16(w)) =~= overwrite(m, at as int, seq![b]));
        }
        return mem.write_u16(at, w).is_some();
    }
    if at == 0 {
        return false;
    }
    match mem.read_u16(at - 1) {
        Some(v) => {
            let w: u16 = v % 0x100 + b as u16 * 0x100;
            proof {
                bytes::u16_roundtrip(load(m, at - 1, 2));
                assert(m.dom().contains(at as int));
                assert(mapped(m, at as int, 1));
                assert(bytes::le16(w) =~= seq![m[at - 1], b]);
                assert(overwrite(m, at - 1, bytes::le16(w)) =~= overwrite(m, at as int, seq![b]));
            }
            mem.write_u16(at - 1, w).is_some()
        },
        None => false,
    }
}

/// Reads `len` bytes at `gpa`, or nothing where one of them is out of reach.
#[verifier::rlimit(40)]
#[verifier::spinoff_prover]
pub fn read_guest<A: GuestAccess>(mem: &A, gpa: u64, len: usize) -> (r: Option<Vec<u8>>)
    ensures
        read_run(mem.mem(), gpa, len as int) matches Some(b) ==> r is Some && r->0@ == b,
        read_run(mem.mem(), gpa, len as int) is None ==> r is None,
{
    let ghost m = mem.mem();
    let mut out: Vec<u8> = Vec::new();
    assert(out@ =~= load(m, gpa as int, 0));
    while len - out.len() >= 4
        invariant
            m == mem.mem(),
            out@.len() <= len,
            out@.len() % 4 == 0,
            mapped(m, gpa as int, out@.len() as int),
            out@ == load(m, gpa as int, out@.len() as int),
        decreases len - out@.len(),
    {
        let ghost done = out@.len() as int;
        let at: u64 = match gpa.checked_add(out.len() as u64) {
            Some(a) => a,
            None => {
                assert(!mapped(m, gpa as int, len as int));
                return None;
            },
        };
        match mem.read_u32(at) {
            Some(v) => {
                let w = bytes::to_le32(v);
                proof {
                    bytes::u32_roundtrip(load(m, at as int, 4));
                    assert(w@ == load(m, at as int, 4));
                    load_extends(m, gpa as int, done, 4);
                }
                bytes::push_bytes(&mut out, &w);
            },
            None => {
                proof {
                    if mapped(m, gpa as int, len as int) {
                        mapped_part(m, gpa as int, len as int, done, 4);
                    }
                }
                return None;
            },
        }
    }
    if len - out.len() >= 2 {
        let ghost done = out@.len() as int;
        let at: u64 = match gpa.checked_add(out.len() as u64) {
            Some(a) => a,
            None => {
                assert(!mapped(m, gpa as int, len as int));
                return None;
            },
        };
        match mem.read_u16(at) {
            Some(v) => {
                let w = bytes::to_le16(v);
                proof {
                    bytes::u16_roundtrip(load(m, at as int, 2));
                    assert(w@ == load(m, at as int, 2));
                    load_extends(m, gpa as int, done, 2);
                }
                bytes::push_bytes(&mut out, &w);
            },
            None => {
                proof {
                    if mapped(m, gpa as int, len as int) {
                        mapped_part(m, gpa as int, len as int, done, 2);
                    }
                }
                return None;
            },
        }
    }
    if out.len() < len {
        let ghost done = out@.len() as int;
        let at: u64 = match gpa.checked_add(out.len() as u64) {
            Some(a) => a,
            None => {
                assert(!mapped(m, gpa as int, len as int));
                return None;
            },
        };
        proof {
            if reachable(m, gpa as int, len as int) {
                last_reachable(m, gpa as int, len as int);
            }
        }
        match read_byte(mem, at) {
            Some(b) => {
                let ghost before = out@;
                out.push(b);
                proof {
                    load_extends(m, gpa as int, done, 1);
                    assert(out@ =~= before + load(m, at as int, 1));
                    assert(out@.len() == len);
                    if len == 1 {
                        assert(at == gpa);
                    }
                    assert(reachable(m, gpa as int, len as int));
                }
            },
            None => {
                return None;
            },
        }
    }
    assert(reachable(m, gpa as int, len as int));
    Some(out)
}

/// The last byte of a run that can be reached can be reached alone.
proof fn last_reachable(m: GuestMem, gpa: int, n: int)
    requires
        reachable(m, gpa, n),
        n >= 1,
    ensures
        reachable(m, gpa + n - 1, 1),
{
    mapped_part(m, gpa, n, n - 1, 1);
    if n > 1 {
        mapped_part(m, gpa, n, n - 2, 2);
    }
}

/// Writes `buf` at `gpa` in words, and a last byte alone; false where one of them is refused.
pub fn write_guest<A: GuestAccess>(mem: &mut A, gpa: u64, buf: &[u8]) -> (r: bool)
    ensures
        (final(mem).mem(), r) == write_run::<A>(old(mem).mem(), gpa as int, buf@),
{
    let ghost goal = write_run::<A>(old(mem).mem(), gpa as int, buf@);
    let mut i: usize = 0;
    assert(buf@.skip(0) =~= buf@);
    while buf.len() - i >= 4
        invariant
            i <= buf@.len(),
            goal == write_run::<A>(old(mem).mem(), gpa as int, buf@),
            goal == write_run::<A>(mem.mem(), gpa + i, buf@.skip(i as int)),
        decreases buf@.len() - i,
    {
        let ghost rest = buf@.skip(i as int);
        let at: u64 = match gpa.checked_add(i as u64) {
            Some(a) => a,
            None => {
                return false;
            },
        };
        let w: [u8; 4] = [buf[i], buf[i + 1], buf[i + 2], buf[i + 3]];
        let v: u32 = bytes::from_le32(&w);
        proof {
            bytes::u32_roundtrip(w@);
            assert(w@ =~= rest.take(4));
            assert(rest.skip(4) =~= buf@.skip(i + 4));
        }
        if mem.write_u32(at, v).is_none() {
            return false;
        }
        i += 4;
    }
    if buf.len() - i >= 2 {
        let ghost rest = buf@.skip(i as int);
        let at: u64 = match gpa.checked_add(i as u64) {
            Some(a) => a,
            None => {
                return false;
            },
        };
        let w: [u8; 2] = [buf[i], buf[i + 1]];
        let v: u16 = bytes::from_le16(&w);
        proof {
            bytes::u16_roundtrip(w@);
            assert(w@ =~= rest.take(2));
            assert(rest.skip(2) =~= buf@.skip(i + 2));
        }
        if mem.write_u16(at, v).is_none() {
            return false;
        }
        i += 2;
    }
    assert(goal == write_run::<A>(mem.mem(), gpa + i, buf@.skip(i as int)));
    if i < buf.len() {
        let ghost rest = buf@.skip(i as int);
        assert(rest =~= seq![buf@[i as int]]);
        return match gpa.checked_add(i as u64) {
            Some(at) => write_byte(mem, at, buf[i]),
            None => false,
        };
    }
    true
}

} // verus!
