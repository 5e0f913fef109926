//! Guest RAM, mapped in this process, and the tables that a processor finds in it when it
//! starts in long mode.
//!
//! Contracts speak of the bytes of guest RAM as they stand during a call. The memory is
//! reached through one [`GuestRam`] alone while they hold: no processor runs on it, and
//! nothing else writes it.

use vstd::prelude::*;
use vm_memory::{Bytes, GuestAddress, GuestMemory, GuestMemoryMmap};

use super::traits::HypervisorError;
use crate::boot::linux::GuestWrite;
use crate::bytes;
use crate::devices::virtio::guest;
use crate::devices::virtio::guest::{GuestAccess, GuestMem};
use crate::text;

verus! {

/// Guest memory as `vm_memory` maps it.
#[verifier::external_type_specification]
#[verifier::external_body]
#[verifier::reject_recursive_types(B)]
pub struct ExGuestMemoryMmap<B>(vm_memory::GuestMemoryMmap<B>);

/// Why guest memory was not mapped.
#[verifier::external_type_specification]
#[verifier::external_body]
pub struct ExMmapError(vm_memory::mmap::Error);

/// The bytes of a guest memory: the addresses of its regions and what they hold. A region is
/// never empty, as an empty mapping is refused, and never reaches the last 64-bit address.
pub uninterp spec fn ram_bytes(m: vm_memory::GuestMemoryMmap) -> Map<int, u8>;

/// Where the bytes of a guest memory stand in this process: the host address of each address
/// that can be reached. A mapping does not move as long as it exists.
pub uninterp spec fn ram_places(m: vm_memory::GuestMemoryMmap) -> Map<int, u64>;

/// Whether an access to `n` bytes at `gpa` is accepted: all of them can be reached, or, of an
/// empty run, the address.
pub open spec fn accepted(m: GuestMem, gpa: u64, n: nat) -> bool {
    if n == 0 {
        m.dom().contains(gpa as int)
    } else {
        guest::reach(m, gpa as int, n) == n
    }
}

/// What a store of `b` at `gpa` leaves: the bytes that come before the first address that
/// cannot be reached are stored, also where the store as a whole is refused.
pub open spec fn stored(m: GuestMem, gpa: u64, b: Seq<u8>) -> GuestMem {
    guest::overwrite(m, gpa as int, b.take(guest::reach(m, gpa as int, b.len()) as int))
}

/// Why an access to `n` bytes at `gpa` was refused, `done` of which could be reached.
pub open spec fn access_words(gpa: u64, n: nat, done: nat) -> Seq<char> {
    if done == 0 {
        "Guest memory error: invalid guest address "@ + text::dec(gpa as nat)
    } else {
        "Guest memory error: only used "@ + text::dec(done) + " bytes in "@ + text::dec(n)
            + " long buffer"@
    }
}

/// Why an access to `n` bytes of `m` at `gpa` was refused.
pub open spec fn access_fault(m: GuestMem, gpa: u64, n: nat) -> Seq<char> {
    access_words(gpa, n, guest::reach(m, gpa as int, n))
}

/// `vm_memory::GuestMemoryMmap::from_ranges` with one range: where it succeeds, exactly the
/// addresses of that range can be reached, and they end before the last 64-bit address. What
/// fresh memory holds, and when mapping it fails, is the operating system's.
#[verifier::external_body]
fn map_ram(base: u64, size: usize) -> (r: Result<GuestMemoryMmap, vm_memory::mmap::Error>)
    ensures
        r matches Ok(m) ==> {
            &&& 0 < size
            &&& base + size <= u64::MAX
            &&& forall|a: int| #[trigger] ram_bytes(m).dom().contains(a) <==> base <= a < base + size
        },
{
    GuestMemoryMmap::from_ranges(&[(GuestAddress(base), size)])
}

/// `vm_memory::GuestMemory::find_region`: a region is found exactly at the addresses that can
/// be reached.
#[verifier::external_body]
fn region_at(m: &GuestMemoryMmap, gpa: u64) -> (r: bool)
    ensures
        r == ram_bytes(*m).dom().contains(gpa as int),
{
    m.find_region(GuestAddress(gpa)).is_some()
}

/// `vm_memory::GuestMemory::get_host_address`: succeeds exactly at the addresses that can be
/// reached, and gives where in this process that byte stands. Its error, as text, names the
/// address. Where a mapping stands is the operating system's choice.
#[verifier::external_body]
fn host_address(m: &GuestMemoryMmap, gpa: u64) -> (r: Result<u64, String>)
    ensures
        r is Ok <==> ram_bytes(*m).dom().contains(gpa as int),
        r matches Ok(a) ==> a == ram_places(*m)[gpa as int],
        r matches Err(e) ==> e@ == access_words(gpa, 0, 0),
{
    m.get_host_address(GuestAddress(gpa)).map(|p| p as u64).map_err(|e| e.to_string())
}

/// `vm_memory::Bytes::write_slice` on guest memory: succeeds where the whole run can be
/// reached, and stores what comes before the first address that cannot. No byte moves. Its
/// error, as text, names the address where none could be reached, and else how many were.
#[verifier::external_body]
fn ram_write(m: &mut GuestMemoryMmap, gpa: u64, b: &[u8]) -> (r: Result<(), String>)
    ensures
        r is Ok <==> accepted(ram_bytes(*old(m)), gpa, b@.len()),
        r matches Err(e) ==> e@ == access_fault(ram_bytes(*old(m)), gpa, b@.len()),
        ram_bytes(*final(m)) == stored(ram_bytes(*old(m)), gpa, b@),
        ram_places(*final(m)) == ram_places(*old(m)),
    no_unwind
{
    m.write_slice(b, GuestAddress(gpa)).map_err(|e| e.to_string())
}

/// `vm_memory::Bytes::read_slice` on guest memory: succeeds where the whole run can be
/// reached, and then fills the buffer with it. Its error, as text, is that of a refused store.
#[verifier::external_body]
fn ram_read(m: &GuestMemoryMmap, gpa: u64, buf: &mut [u8]) -> (r: Result<(), String>)
    ensures
        r is Ok <==> accepted(ram_bytes(*m), gpa, old(buf)@.len()),
        r matches Err(e) ==> e@ == access_fault(ram_bytes(*m), gpa, old(buf)@.len()),
        r is Ok ==> final(buf)@ == guest::load(ram_bytes(*m), gpa as int, old(buf)@.len() as int),
        final(buf)@.len() == old(buf)@.len(),
{
    m.read_slice(buf, GuestAddress(gpa)).map_err(|e| e.to_string())
}

/// The text that `vm_memory::mmap::Error` displays. Nothing is stated of it: it holds that of
/// the operating system's error.
#[verifier::external_body]
fn mmap_error_text(e: &vm_memory::mmap::Error) -> String {
    e.to_string()
}

/// One contiguous region of guest RAM and the host address behind it.
#[derive(Debug, Clone, Copy)]
pub struct MemoryRegion {
    pub slot: u32,
    pub guest_phys_addr: u64,
    pub size: u64,
    pub host_addr: u64,
}

/// Guest RAM and the regions to register with the hypervisor.
pub struct GuestRam {
    inner: GuestMemoryMmap,
    regions: Vec<MemoryRegion>,
}

/// The sizes of all regions together.
pub open spec fn size_sum(regions: Seq<MemoryRegion>) -> int
    decreases regions.len(),
{
    if regions.len() == 0 {
        0
    } else {
        size_sum(regions.drop_last()) + regions.last().size
    }
}

/// Whether `e` says that an access was refused: what was tried, where, and `why`.
pub open spec fn refusal(e: HypervisorError, op: Seq<char>, gpa: u64, why: Seq<char>) -> bool {
    e matches HypervisorError::Memory(t) && t@ == op + " @ "@ + text::hex(gpa as nat) + ": "@ + why
}

/// A refused store in words.
pub open spec fn refusal_words(gpa: u64, why: Seq<char>) -> Seq<char> {
    "guest memory error: "@ + ("write"@ + " @ "@ + text::hex(gpa as nat) + ": "@ + why)
}

/// Names a refused access.
fn refused(op: &str, gpa: u64, why: &str) -> (r: HypervisorError)
    ensures
        refusal(r, op@, gpa, why@),
{
    let head = text::join3(op, " @ ", text::hex_text(gpa).as_str());
    HypervisorError::Memory(text::join3(head.as_str(), ": ", why))
}

/// Runs of bytes stored one after the other, up to the first that is refused: what that
/// leaves, and whether all were accepted.
pub open spec fn stored_list(m: GuestMem, list: Seq<(u64, Seq<u8>)>) -> (GuestMem, bool)
    decreases list.len(),
{
    if list.len() == 0 {
        (m, true)
    } else {
        let m1 = stored(m, list[0].0, list[0].1);
        if accepted(m, list[0].0, list[0].1.len()) {
            stored_list(m1, list.skip(1))
        } else {
            (m1, false)
        }
    }
}

/// The first store of a list that is refused when they are done one after the other: its
/// address, and why.
pub open spec fn first_refused(m: GuestMem, list: Seq<(u64, Seq<u8>)>) -> (u64, Seq<char>)
    decreases list.len(),
{
    if list.len() == 0 {
        (0, seq![])
    } else if accepted(m, list[0].0, list[0].1.len()) {
        first_refused(stored(m, list[0].0, list[0].1), list.skip(1))
    } else {
        (list[0].0, access_fault(m, list[0].0, list[0].1.len()))
    }
}

/// Whether `e` says which store of a list was refused, and why.
pub open spec fn list_refusal(e: HypervisorError, m: GuestMem, list: Seq<(u64, Seq<u8>)>) -> bool {
    refusal(e, "write"@, first_refused(m, list).0, first_refused(m, list).1)
}

/// A segment descriptor: the limit's 20 bits, the base's 32, the access byte and the four
/// granularity bits, each where the processor looks for it.
pub open spec fn descriptor(flags: u16, base: u32, limit: u32) -> u64 {
    (limit as int % 0x1_0000 + base as int % 0x100_0000 * 0x1_0000 + flags as int % 0x100
        * 0x100_0000_0000 + limit as int / 0x1_0000 % 0x10 * 0x1_0000_0000_0000 + flags as int
        / 0x1000 * 0x10_0000_0000_0000 + base as int / 0x100_0000 * 0x100_0000_0000_0000) as u64
}

/// The boot GDT: nothing, flat 64-bit code, flat data.
pub open spec fn gdt_bytes() -> Seq<u8> {
    bytes::le64(0) + bytes::le64(descriptor(0xa09b, 0, 0xf_ffff)) + bytes::le64(
        descriptor(0xc093, 0, 0xf_ffff),
    )
}

/// The first `n` entries of a page directory of 2 MiB pages, each at its own address: present,
/// writable, large.
pub open spec fn large_pages(n: nat) -> Seq<u8>
    decreases n,
{
    if n == 0 {
        seq![]
    } else {
        large_pages((n - 1) as nat) + bytes::le64(((n - 1) * 0x20_0000 + 0x83) as u64)
    }
}

/// What the identity page tables store: an entry of the topmost table that leads to the next,
/// one of that which leads to the page directory, and the directory.
pub open spec fn identity_stores(pml4: u64, pdpte: u64, pde: u64) -> Seq<(u64, Seq<u8>)> {
    seq![
        (pml4, bytes::le64(pdpte | 3)),
        (pdpte, bytes::le64(pde | 3)),
        (pde, large_pages(512)),
    ]
}

/// Encodes a segment descriptor.
fn gdt_entry(flags: u16, base: u32, limit: u32) -> (r: u64)
    ensures
        r == descriptor(flags, base, limit),
{
    let limit_low: u64 = limit as u64 % 0x1_0000;
    let base_low: u64 = base as u64 % 0x100_0000 * 0x1_0000;
    let access: u64 = flags as u64 % 0x100 * 0x100_0000_0000;
    let limit_high: u64 = limit as u64 / 0x1_0000 % 0x10 * 0x1_0000_0000_0000;
    let granularity: u64 = flags as u64 / 0x1000 * 0x10_0000_0000_0000;
    let base_high: u64 = base as u64 / 0x100_0000 * 0x100_0000_0000_0000;
    limit_low + base_low + access + limit_high + granularity + base_high
}

impl GuestRam {
    /// No address of guest RAM reaches the last 64-bit one.
    #[verifier::type_invariant]
    spec fn addressable(&self) -> bool {
        forall|a: int| #[trigger]
            ram_bytes(self.inner).dom().contains(a) ==> 0 <= a < u64::MAX
    }

    /// The bytes of guest RAM.
    pub closed spec fn ram(&self) -> GuestMem {
        ram_bytes(self.inner)
    }

    /// Where the bytes of guest RAM stand in this process.
    pub closed spec fn places(&self) -> Map<int, u64> {
        ram_places(self.inner)
    }

    /// The regions to register.
    pub closed spec fn region_list(&self) -> Seq<MemoryRegion> {
        self.regions@
    }

    /// Maps one region of `size` bytes at guest address `base_gpa`, for memory slot `slot`.
    /// Whether the operating system grants it is its own affair.
    pub fn new_single(base_gpa: u64, size: usize, slot: u32) -> (r: Result<Self, HypervisorError>)
        ensures
            match r {
                Ok(ram) => {
                    &&& 0 < size
                    &&& base_gpa + size <= u64::MAX
                    &&& forall|a: int| #[trigger]
                        ram.ram().dom().contains(a) <==> base_gpa <= a < base_gpa + size
                    &&& ram.region_list().len() == 1
                    &&& ram.region_list()[0].slot == slot
                    &&& ram.region_list()[0].guest_phys_addr == base_gpa
                    &&& ram.region_list()[0].size == size
                    &&& ram.region_list()[0].host_addr == ram.places()[base_gpa as int]
                },
                Err(HypervisorError::Memory(t)) => exists|why: Seq<char>|
                    t@ == #[trigger] ("mmap guest RAM: "@ + why),
                Err(_) => false,
            },
    {
        match map_ram(base_gpa, size) {
            Ok(inner) => {
                assert(ram_bytes(inner).dom().contains(base_gpa as int));
                Self::over(inner, base_gpa, size, slot)
            },
            Err(e) => {
                let why = mmap_error_text(&e);
                let err = Self::not_mapped(why.as_str());
                assert(err->Memory_0@ == "mmap guest RAM: "@ + why@);
                Err(err)
            },
        }
    }

    /// The error of a mapping that was refused, given why.
    pub fn not_mapped(why: &str) -> (r: HypervisorError)
        ensures
            r matches HypervisorError::Memory(t) && t@ == "mmap guest RAM: "@ + why@,
    {
        HypervisorError::Memory(text::join2("mmap guest RAM: ", why))
    }

    /// Guest RAM over memory that was mapped: one region of `size` bytes at `base_gpa`, for
    /// memory slot `slot`, with the host address of its first byte. Memory that has no byte there
    /// is refused.
    pub fn over(inner: GuestMemoryMmap, base_gpa: u64, size: usize, slot: u32) -> (r: Result<
        Self,
        HypervisorError,
    >)
        requires
            forall|a: int| #[trigger]
                ram_bytes(inner).dom().contains(a) ==> 0 <= a < u64::MAX,
        ensures
            match r {
                Ok(ram) => {
                    &&& ram_bytes(inner).dom().contains(base_gpa as int)
                    &&& ram.ram() == ram_bytes(inner)
                    &&& ram.places() == ram_places(inner)
                    &&& ram.region_list() == seq![
                        MemoryRegion {
                            slot,
                            guest_phys_addr: base_gpa,
                            size: size as u64,
                            host_addr: ram_places(inner)[base_gpa as int],
                        },
                    ]
                },
                Err(HypervisorError::Memory(t)) => !ram_bytes(inner).dom().contains(base_gpa as int)
                    && t@ == "region vanished after creation"@,
                Err(_) => false,
            },
    {
        if !region_at(&inner, base_gpa) {
            return Err(HypervisorError::Memory(text::plain("region vanished after creation")));
        }
        let host_addr: u64 = match host_address(&inner, base_gpa) {
            Ok(a) => a,
            Err(e) => {
                return Err(HypervisorError::Memory(text::join2("host addr: ", e.as_str())));
            },
        };
        let mut regions: Vec<MemoryRegion> = Vec::new();
        regions.push(
            MemoryRegion { slot, guest_phys_addr: base_gpa, size: size as u64, host_addr },
        );
        assert(regions@ =~= seq![
            MemoryRegion { slot, guest_phys_addr: base_gpa, size: size as u64, host_addr },
        ]);
        Ok(GuestRam { inner, regions })
    }

    /// The regions to register with the hypervisor.
    pub fn regions(&self) -> (r: &[MemoryRegion])
        ensures
            r@ == self.region_list(),
    {
        self.regions.as_slice()
    }

    /// The mapped memory.
    pub fn inner(&self) -> (r: &GuestMemoryMmap)
        ensures
            ram_bytes(*r) == self.ram(),
            ram_places(*r) == self.places(),
    {
        &self.inner
    }

    /// The size of all regions together.
    pub fn total_size(&self) -> (r: u64)
        requires
            size_sum(self.region_list()) <= u64::MAX,
        ensures
            r == size_sum(self.region_list()),
    {
        let mut total: u64 = 0;
        let mut i: usize = 0;
        while i < self.regions.len()
            invariant
                i <= self.regions@.len(),
                total == size_sum(self.regions@.take(i as int)),
                size_sum(self.regions@) <= u64::MAX,
            decreases self.regions@.len() - i,
        {
            proof {
                assert(self.regions@.take(i + 1).drop_last() =~= self.regions@.take(i as int));
                size_sum_grows(self.regions@, i + 1);
            }
            total += self.regions[i].size;
            i += 1;
        }
        assert(self.regions@.take(self.regions@.len() as int) =~= self.regions@);
        total
    }

    /// Stores `b` at `gpa`.
    pub fn write_slice(&mut self, gpa: u64, b: &[u8]) -> (r: Result<(), HypervisorError>)
        ensures
            r is Ok <==> accepted(old(self).ram(), gpa, b@.len()),
            r matches Err(e) ==> refusal(
                e,
                "write"@,
                gpa,
                access_fault(old(self).ram(), gpa, b@.len()),
            ),
            final(self).ram() == stored(old(self).ram(), gpa, b@),
            final(self).region_list() == old(self).region_list(),
            final(self).places() == old(self).places(),
    {
        proof {
            use_type_invariant(&*self);
        }
        match ram_write(&mut self.inner, gpa, b) {
            Ok(()) => Ok(()),
            Err(e) => Err(refused("write", gpa, e.as_str())),
        }
    }

    /// Reads `len` bytes at `gpa`.
    pub fn read_vec(&self, gpa: u64, len: usize) -> (r: Result<Vec<u8>, HypervisorError>)
        ensures
            match r {
                Ok(v) => accepted(self.ram(), gpa, len as nat) && v@ == guest::load(
                    self.ram(),
                    gpa as int,
                    len as int,
                ),
                Err(e) => !accepted(self.ram(), gpa, len as nat) && refusal(
                    e,
                    "read"@,
                    gpa,
                    access_fault(self.ram(), gpa, len as nat),
                ),
            },
    {
        let mut buf: Vec<u8> = bytes::zero_vec(len);
        match ram_read(&self.inner, gpa, &mut buf) {
            Ok(()) => Ok(buf),
            Err(e) => Err(refused("read", gpa, e.as_str())),
        }
    }

    /// Stores the boot GDT: null, flat 64-bit code (selector 0x08), flat data (selector 0x10).
    pub fn write_boot_gdt(&mut self, gdt_addr: u64) -> (r: Result<(), HypervisorError>)
        ensures
            (final(self).ram(), r is Ok) == stored_list(
                old(self).ram(),
                seq![(gdt_addr, gdt_bytes())],
            ),
            r matches Err(e) ==> list_refusal(
                e,
                old(self).ram(),
                seq![(gdt_addr, gdt_bytes())],
            ),
            final(self).region_list() == old(self).region_list(),
            final(self).places() == old(self).places(),
    {
        let code: u64 = gdt_entry(0xa09b, 0, 0xf_ffff);
        let data: u64 = gdt_entry(0xc093, 0, 0xf_ffff);
        let mut buf: Vec<u8> = Vec::new();
        bytes::push_bytes(&mut buf, &bytes::to_le64(0));
        bytes::push_bytes(&mut buf, &bytes::to_le64(code));
        bytes::push_bytes(&mut buf, &bytes::to_le64(data));
        assert(buf@ =~= gdt_bytes());
        proof {
            let list = seq![(gdt_addr, gdt_bytes())];
            reveal_with_fuel(stored_list, 2);
            reveal_with_fuel(first_refused, 2);
            assert(list.skip(1) =~= seq![]);
        }
        self.write_slice(gdt_addr, &buf)
    }

    /// Stores page tables that map the first GiB to itself with 2 MiB pages.
    pub fn write_identity_page_tables(&mut self, pml4: u64, pdpte: u64, pde: u64) -> (r: Result<
        (),
        HypervisorError,
    >)
        ensures
            (final(self).ram(), r is Ok) == stored_list(
                old(self).ram(),
                identity_stores(pml4, pdpte, pde),
            ),
            r matches Err(e) ==> list_refusal(
                e,
                old(self).ram(),
                identity_stores(pml4, pdpte, pde),
            ),
            final(self).region_list() == old(self).region_list(),
            final(self).places() == old(self).places(),
    {
        proof {
            let list = identity_stores(pml4, pdpte, pde);
            reveal_with_fuel(stored_list, 4);
            reveal_with_fuel(first_refused, 4);
            assert(list.skip(1) =~= list.drop_first());
            assert(list.skip(1)[0] == list[1]);
            assert(list.skip(1).skip(1)[0] == list[2]);
            assert(list.skip(1).skip(1).skip(1) =~= seq![]);
        }
        match self.write_slice(pml4, &bytes::to_le64(pdpte | 3)) {
            Ok(()) => {},
            Err(e) => {
                return Err(e);
            },
        }
        match self.write_slice(pdpte, &bytes::to_le64(pde | 3)) {
            Ok(()) => {},
            Err(e) => {
                return Err(e);
            },
        }
        let mut buf: Vec<u8> = Vec::new();
        let mut i: u64 = 0;
        assert(buf@ =~= large_pages(0));
        while i < 512
            invariant
                i <= 512,
                buf@ == large_pages(i as nat),
            decreases 512 - i,
        {
            let entry: u64 = i * 0x20_0000 + 0x83;
            bytes::push_bytes(&mut buf, &bytes::to_le64(entry));
            i += 1;
        }
        self.write_slice(pde, &buf)
    }
}

/// A sum of sizes is never negative.
proof fn size_sum_positive(regions: Seq<MemoryRegion>)
    ensures
        0 <= size_sum(regions),
    decreases regions.len(),
{
    if regions.len() > 0 {
        size_sum_positive(regions.drop_last());
    }
}

/// A sum of sizes only grows.
proof fn size_sum_grows(regions: Seq<MemoryRegion>, k: int)
    requires
        0 <= k <= regions.len(),
    ensures
        0 <= size_sum(regions.take(k)) <= size_sum(regions),
    decreases regions.len() - k,
{
    size_sum_positive(regions.take(k));
    if k < regions.len() {
        size_sum_grows(regions, k + 1);
        assert(regions.take(k + 1).drop_last() =~= regions.take(k));
    } else {
        assert(regions.take(k) =~= regions);
    }
}

/// What a store leaves is what any accessor that keeps the prefix of a refused one leaves.
proof fn stored_law(m: GuestMem, gpa: u64, b: Seq<u8>)
    ensures
        stored(m, gpa, b) == guest::store_as(true, m, gpa, b),
{
    guest::reach_law(m, gpa as int, b.len());
    if guest::mapped(m, gpa as int, b.len() as int) {
        assert(b.take(b.len() as int) =~= b);
    }
}

/// In memory that 64-bit addresses reach, a run that is not empty is accepted exactly where
/// all of it is mapped.
pub proof fn accepted_law(m: GuestMem, gpa: u64, n: nat)
    requires
        n > 0,
        forall|a: int| #[trigger] m.dom().contains(a) ==> 0 <= a < u64::MAX,
    ensures
        accepted(m, gpa, n) <==> guest::mapped(m, gpa as int, n as int),
{
    guest::reach_law(m, gpa as int, n);
    if accepted(m, gpa, n) {
        assert(m.dom().contains(gpa + n - 1));
    }
}

impl GuestAccess for GuestRam {
    open spec fn mem(&self) -> GuestMem {
        self.ram()
    }

    open spec fn stores_prefix() -> bool {
        true
    }

    fn read_u16(&self, gpa: u64) -> (r: Option<u16>) {
        proof {
            use_type_invariant(self);
            accepted_law(self.ram(), gpa, 2);
        }
        match self.read_vec(gpa, 2) {
            Ok(b) => Some(bytes::from_le16(&b)),
            Err(_) => None,
        }
    }

    fn read_u32(&self, gpa: u64) -> (r: Option<u32>) {
        proof {
            use_type_invariant(self);
            accepted_law(self.ram(), gpa, 4);
        }
        match self.read_vec(gpa, 4) {
            Ok(b) => Some(bytes::from_le32(&b)),
            Err(_) => None,
        }
    }

    fn read_u64(&self, gpa: u64) -> (r: Option<u64>) {
        proof {
            use_type_invariant(self);
            accepted_law(self.ram(), gpa, 8);
        }
        match self.read_vec(gpa, 8) {
            Ok(b) => Some(bytes::from_le64(&b)),
            Err(_) => None,
        }
    }

    fn write_u16(&mut self, gpa: u64, v: u16) -> (r: Option<()>)
        ensures
            final(self).region_list() == old(self).region_list(),
            final(self).places() == old(self).places(),
    {
        proof {
            use_type_invariant(&*self);
            accepted_law(self.ram(), gpa, 2);
            stored_law(self.ram(), gpa, bytes::le16(v));
        }
        match self.write_slice(gpa, &bytes::to_le16(v)) {
            Ok(()) => Some(()),
            Err(_) => None,
        }
    }

    fn write_u32(&mut self, gpa: u64, v: u32) -> (r: Option<()>)
        ensures
            final(self).region_list() == old(self).region_list(),
            final(self).places() == old(self).places(),
    {
        proof {
            use_type_invariant(&*self);
            accepted_law(self.ram(), gpa, 4);
            stored_law(self.ram(), gpa, bytes::le32(v));
        }
        match self.write_slice(gpa, &bytes::to_le32(v)) {
            Ok(()) => Some(()),
            Err(_) => None,
        }
    }
}

impl GuestWrite for GuestRam {
    open spec fn stores(&self, gpa: u64, b: Seq<u8>, r: Result<(), String>, post: &Self) -> bool {
        &&& r is Ok <==> accepted(self.ram(), gpa, b.len())
        &&& r matches Err(t) ==> t@ == refusal_words(
            gpa,
            access_fault(self.ram(), gpa, b.len()),
        )
        &&& post.ram() == stored(self.ram(), gpa, b)
        &&& post.region_list() == self.region_list()
        &&& post.places() == self.places()
    }

    fn write(&mut self, gpa: u64, b: &[u8]) -> (r: Result<(), String>) {
        match self.write_slice(gpa, b) {
            Ok(()) => Ok(()),
            Err(e) => Err(e.message()),
        }
    }
}

} // verus!
