//! What a virtual processor starts with and sees, bit by bit, and what guest memory gives back.

use vstd::prelude::*;

use super::cpuid;
use super::cpuid::CpuidEntry;
use super::memory::GuestRam;
use super::traits::{HypervisorError, LongModeEntry, VcpuExit};
use super::vcpu;
use super::vcpu::{GeneralRegs, PendingRead, Segment, SpecialRegs};
use crate::devices::virtio::guest;

verus! {

/// Whether bit `b` of `x` is set.
pub open spec fn bit(x: u64, b: u64) -> bool {
    (x >> b) & 1 == 1
}

/// Whether `s` is a segment of all memory, present, of the highest privilege and counted in
/// pages.
pub open spec fn flat(s: Segment) -> bool {
    &&& s.base == 0
    &&& s.limit == 0xffff_ffff
    &&& s.present == 1
    &&& s.dpl == 0
    &&& s.s == 1
    &&& s.g == 1
    &&& s.unusable == 0
}

/// A kernel is entered in 64-bit mode: protection, paging and address extension are on, long mode
/// is enabled and active, and no other control bit changed; code is flat and 64-bit and by the
/// second descriptor of the boot table, data flat and by the third; the page tables and the
/// descriptor table are those of the entry.
pub proof fn long_mode_is_entered(was: SpecialRegs, entry: LongModeEntry, r: SpecialRegs, b: u64)
    requires
        call_ensures(vcpu::long_mode_special, (was, entry), r),
        b < 64,
    ensures
        bit(r.cr0, b) <==> bit(was.cr0, b) || b == 0 || b == 1 || b == 4 || b == 31,
        bit(r.cr4, b) <==> bit(was.cr4, b) || b == 5,
        bit(r.efer, b) <==> bit(was.efer, b) || b == 8 || b == 10,
        r.cr3 == entry.pml4_addr,
        r.gdt_base == entry.gdt_addr,
        r.gdt_limit == 23,
        flat(r.cs) && flat(r.ds) && flat(r.es) && flat(r.fs) && flat(r.gs) && flat(r.ss),
        r.cs.selector == 8 && r.cs.l == 1 && r.cs.db == 0 && r.cs.type_ == 11,
        r.ds.selector == 16 && r.ds.l == 0 && r.ds.db == 1 && r.ds.type_ == 3,
        r.es == r.ds && r.fs == r.ds && r.gs == r.ds && r.ss == r.ds,
{
    let (x, y, z) = (was.cr0, was.cr4, was.efer);
    assert(((x | 0x8000_0013u64) >> b) & 1 == 1 <==> (x >> b) & 1 == 1 || b == 0 || b == 1 || b == 4
        || b == 31) by (bit_vector)
        requires
            b < 64,
    ;
    assert(((y | 0x20u64) >> b) & 1 == 1 <==> (y >> b) & 1 == 1 || b == 5) by (bit_vector)
        requires
            b < 64,
    ;
    assert(((z | 0x500u64) >> b) & 1 == 1 <==> (z >> b) & 1 == 1 || b == 8 || b == 10)
        by (bit_vector)
        requires
            b < 64,
    ;
}

/// A kernel is entered at its entry point, with the place of its boot parameters, on its stack,
/// with interrupts off.
pub proof fn kernel_is_entered(entry: LongModeEntry, r: GeneralRegs)
    requires
        call_ensures(vcpu::long_mode_general, (entry,), r),
    ensures
        r.rip == entry.entry_point,
        r.rsi == entry.boot_params,
        r.rsp == entry.stack_top && r.rbp == entry.stack_top,
        r.rflags == 2,
{
}

/// A guest in real mode starts at its entry point: the code segment's base and the offset come
/// to it, the offset fits sixteen bits, and everything but code, offset and flags is as it was.
pub proof fn real_mode_is_entered(
    was: SpecialRegs,
    general: GeneralRegs,
    entry_point: u64,
    s: SpecialRegs,
    g: GeneralRegs,
)
    requires
        call_ensures(vcpu::real_mode_special, (was, entry_point), s),
        call_ensures(vcpu::real_mode_general, (general, entry_point), g),
    ensures
        s.cs.base + g.rip == entry_point,
        g.rip < 0x1_0000,
        s.cs.base % 0x1_0000 == 0,
        entry_point < 0x10_0000 ==> s.cs.selector * 16 == s.cs.base,
        g.rflags == 2,
        g == (GeneralRegs { rip: g.rip, rflags: g.rflags, ..general }),
        s == (SpecialRegs {
            cs: Segment { base: s.cs.base, selector: s.cs.selector, ..was.cs },
            ..was
        }),
{
    vcpu::real_mode_entry(entry_point);
}

/// An answer is taken exactly where a read waits for it and for as many bytes.
pub proof fn answers_must_fit(
    exit: &VcpuExit,
    pending: PendingRead,
    got: usize,
    r: Result<(), HypervisorError>,
)
    requires
        call_ensures(vcpu::pending_after, (exit,), pending),
        call_ensures(vcpu::check_completion, (pending, got), r),
    ensures
        r is Ok <==> match *exit {
            VcpuExit::MmioRead { addr: _, len } => got == len,
            VcpuExit::IoIn { port: _, len } => got == len,
            _ => false,
        },
{
}

/// The interface must be version 12, and a clock whose frequency is not known counts at two
/// gigahertz.
pub proof fn host_is_checked(found: i32, r: Result<(), HypervisorError>, khz: u32, pinned: u32)
    requires
        call_ensures(vcpu::check_api_version, (found,), r),
        call_ensures(vcpu::pinned_tsc_khz, (khz,), pinned),
    ensures
        r is Ok <==> found == 12,
        khz > 0 ==> pinned == khz,
        khz == 0 ==> pinned == 2_000_000,
{
}

/// Whether a leaf is one of the two that tell of the hypervisor.
pub open spec fn of_hypervisor(e: CpuidEntry) -> bool {
    e.function == 0x4000_0000 || e.function == 0x4000_0001
}

/// Whether `g` is the leaf `e` as a guest may see it: the same, but for the deadline timer in
/// the features of the processor.
pub open spec fn shown(e: CpuidEntry, g: CpuidEntry) -> bool {
    &&& g.function == e.function && g.index == e.index && g.flags == e.flags
    &&& g.eax == e.eax && g.ebx == e.ebx && g.edx == e.edx && g.padding == e.padding
    &&& !(e.function == 1 && e.index == 0) ==> g.ecx == e.ecx
    &&& e.function == 1 && e.index == 0 ==> forall|b: u32|
        b < 32 ==> (#[trigger] bit(g.ecx as u64, b as u64) <==> bit(e.ecx as u64, b as u64) && b
            != 24)
}

/// How many leaves of a list do not tell of the hypervisor.
pub open spec fn others(s: Seq<CpuidEntry>) -> int
    decreases s.len(),
{
    if s.len() == 0 {
        0
    } else {
        others(s.drop_last()) + if of_hypervisor(s.last()) {
            0int
        } else {
            1
        }
    }
}

/// The guest sees every leaf that the host supports and that does not tell of a hypervisor, in
/// order, without the deadline timer; then the name "KVMKVMKVM" and the three clock features.
#[verifier::rlimit(60)]
#[verifier::spinoff_prover]
pub proof fn guest_sees_host_leaves(list: &Vec<CpuidEntry>, r: Vec<CpuidEntry>, i: int)
    requires
        call_ensures(cpuid::paravirt_leaves, (list,), r),
        0 <= i < list@.len(),
    ensures
        r@.len() == others(list@) + 2,
        !of_hypervisor(list@[i]) ==> 0 <= others(list@.take(i)) < r@.len() - 2 && shown(
            list@[i],
            r@[others(list@.take(i))],
        ),
        ({
            let name = r@[r@.len() - 2];
            let clock = r@[r@.len() - 1];
            &&& name.function == 0x4000_0000
            &&& name.eax == 0x4000_0001
            &&& crate::bytes::le32(name.ebx) + crate::bytes::le32(name.ecx) + crate::bytes::le32(
                name.edx,
            ) == seq![
                0x4bu8,
                0x56u8,
                0x4du8,
                0x4bu8,
                0x56u8,
                0x4du8,
                0x4bu8,
                0x56u8,
                0x4du8,
                0u8,
                0u8,
                0u8,
            ]
            &&& clock.function == 0x4000_0001
            &&& forall|b: u32|
                b < 32 ==> (#[trigger] bit(clock.eax as u64, b as u64) <==> b == 0 || b == 3 || b
                    == 24)
        }),
{
    kept_are_shown(list@, i);
    let name = r@[r@.len() - 2];
    assert(crate::bytes::le32(0x4b4d_564b) + crate::bytes::le32(0x564b_4d56) + crate::bytes::le32(
        0x4d,
    ) =~= seq![
        0x4bu8,
        0x56u8,
        0x4du8,
        0x4bu8,
        0x56u8,
        0x4du8,
        0x4bu8,
        0x56u8,
        0x4du8,
        0u8,
        0u8,
        0u8,
    ]);
    let clock = r@[r@.len() - 1];
    assert forall|b: u32| b < 32 implies (#[trigger] bit(clock.eax as u64, b as u64) <==> b == 0 || b
        == 3 || b == 24) by {
        let c = b as u64;
        assert((0x0100_0009u64 >> c) & 1 == 1 <==> c == 0 || c == 3 || c == 24) by (bit_vector)
            requires
                c < 32,
        ;
    }
}

/// What is kept of a list of leaves stands where those before it leave room.
proof fn kept_are_shown(s: Seq<CpuidEntry>, i: int)
    requires
        0 <= i < s.len(),
    ensures
        cpuid::kept_leaves(s).len() == others(s),
        0 <= others(s.take(i)) <= others(s),
        !of_hypervisor(s[i]) ==> others(s.take(i)) < others(s) && shown(
            s[i],
            cpuid::kept_leaves(s)[others(s.take(i))],
        ),
    decreases s.len(),
{
    let rest = s.drop_last();
    if i < rest.len() {
        kept_are_shown(rest, i);
        assert(rest.take(i) =~= s.take(i));
        assert(rest[i] == s[i]);
    } else {
        assert(s.take(i) =~= rest);
        counted(rest);
        let e = s.last();
        let c = e.ecx;
        let k = cpuid::without_deadline(e);
        if e.function == 1 && e.index == 0 {
            assert forall|b: u32| b < 32 implies (#[trigger] bit(k.ecx as u64, b as u64) <==> bit(
                c as u64,
                b as u64,
            ) && b != 24) by {
                assert((((c & !0x0100_0000u32) as u64) >> (b as u64)) & 1 == 1 <==> ((c as u64) >> (
                b as u64)) & 1 == 1 && b != 24) by (bit_vector)
                    requires
                        b < 32,
                ;
            }
        }
    }
}

/// As many leaves are kept as do not tell of the hypervisor.
proof fn counted(s: Seq<CpuidEntry>)
    ensures
        cpuid::kept_leaves(s).len() == others(s),
        0 <= others(s),
    decreases s.len(),
{
    if s.len() > 0 {
        counted(s.drop_last());
    }
}

/// A table of leaves is refused only where it would hold more than eighty.
pub proof fn leaves_fit_table(
    t: &cpuid::CpuidTable,
    r: Result<cpuid::CpuidTable, HypervisorError>,
)
    requires
        call_ensures(cpuid::add_kvm_paravirt_leaves, (t,), r),
    ensures
        r is Ok <==> others(cpuid::table_leaves(*t)) + 2 <= 80,
        r matches Ok(g) ==> cpuid::guest_leaves(
            cpuid::table_leaves(*t),
            cpuid::table_leaves(g),
        ),
{
    counted(cpuid::table_leaves(*t));
}

/// What is stored in guest memory is read back from there, and nothing else changes; bytes that
/// are not there are refused, for reading and for writing.
#[verifier::rlimit(60)]
#[verifier::spinoff_prover]
pub proof fn memory_gives_back(gpa: u64, b: &[u8], r: Result<(), HypervisorError>)
    requires
        b@.len() > 0,
    ensures
        forall|s: &mut GuestRam| #[trigger]
            call_ensures(GuestRam::write_slice, (s, gpa, b), r) ==> {
                let m = (*s).ram();
                let w = (*final(s)).ram();
                &&& (*final(s)).region_list() == (*s).region_list()
                &&& w.dom() == m.dom()
                &&& r is Ok <==> forall|a: int|
                    gpa <= a < gpa + b@.len() ==> #[trigger] m.dom().contains(a)
                &&& r is Ok ==> forall|a: int|
                    gpa <= a < gpa + b@.len() ==> #[trigger] w[a] == b@[a - gpa]
                &&& forall|a: int|
                    m.dom().contains(a) && !(gpa <= a < gpa + b@.len()) ==> #[trigger] w[a] == m[a]
            },
        forall|ram: GuestRam, got: Result<Vec<u8>, HypervisorError>| #[trigger]
            call_ensures(GuestRam::read_vec, (&ram, gpa, b.len()), got) ==> {
                &&& got is Ok <==> forall|a: int|
                    gpa <= a < gpa + b@.len() ==> #[trigger] ram.ram().dom().contains(a)
                &&& got matches Ok(v) ==> v@.len() == b@.len() && forall|i: int|
                    0 <= i < b@.len() ==> v@[i] == ram.ram()[gpa + i]
            },
{
    assert forall|s: &mut GuestRam| #[trigger]
        call_ensures(GuestRam::write_slice, (s, gpa, b), r) implies {
        let m = (*s).ram();
        let w = (*final(s)).ram();
        &&& w.dom() == m.dom()
        &&& r is Ok <==> forall|a: int|
            gpa <= a < gpa + b@.len() ==> #[trigger] m.dom().contains(a)
        &&& r is Ok ==> forall|a: int|
            gpa <= a < gpa + b@.len() ==> #[trigger] w[a] == b@[a - gpa]
        &&& forall|a: int|
            m.dom().contains(a) && !(gpa <= a < gpa + b@.len()) ==> #[trigger] w[a] == m[a]
    } by {
        let m = (*s).ram();
        let w = (*final(s)).ram();
        guest::reach_law(m, gpa as int, b@.len());
        assert(w.dom() =~= m.dom());
        if r is Ok {
            assert forall|a: int| gpa <= a < gpa + b@.len() implies #[trigger] w[a] == b@[a
                - gpa] by {
                assert(m.dom().contains(a));
            }
        }
    }
    assert forall|ram: GuestRam, got: Result<Vec<u8>, HypervisorError>| #[trigger]
        call_ensures(GuestRam::read_vec, (&ram, gpa, b.len()), got) implies (got is Ok <==> forall|
        a: int,
    |
        gpa <= a < gpa + b@.len() ==> #[trigger] ram.ram().dom().contains(a)) by {
        guest::reach_law(ram.ram(), gpa as int, b@.len());
    }
}

/// Guest RAM that was mapped has the bytes of its one region and no others, and says where they
/// are; its size is the region's. A refused access names what was tried and where.
pub proof fn memory_is_one_region(
    base: u64,
    size: usize,
    slot: u32,
    r: Result<GuestRam, HypervisorError>,
    total: u64,
)
    requires
        call_ensures(GuestRam::new_single, (base, size, slot), r),
        r is Ok ==> call_ensures(GuestRam::total_size, (&r->Ok_0,), total),
    ensures
        r matches Ok(ram) ==> {
            &&& forall|a: int| #[trigger]
                ram.ram().dom().contains(a) <==> base <= a < base + size
            &&& ram.region_list().len() == 1
            &&& ram.region_list()[0].slot == slot
            &&& ram.region_list()[0].guest_phys_addr == base
            &&& ram.region_list()[0].size == size
            &&& ram.region_list()[0].host_addr == ram.places()[base as int]
            &&& total == size
        },
        r is Ok ==> size > 0,
        r matches Err(e) ==> (e matches HypervisorError::Memory(t) && exists|why: Seq<char>|
            t@ == #[trigger] ("mmap guest RAM: "@ + why)),
        forall|gpa: u64, b: &[u8], s: &mut GuestRam, w: Result<(), HypervisorError>| #[trigger]
            call_ensures(GuestRam::write_slice, (s, gpa, b), w) && w is Err ==> (
            w->Err_0 matches HypervisorError::Memory(t) && exists|why: Seq<char>|
                t@ == #[trigger] ("write"@ + " @ "@ + crate::text::hex(gpa as nat) + ": "@ + why)),
{
    reveal_with_fuel(super::memory::size_sum, 3);
    if let Ok(ram) = r {
        assert(ram.region_list().drop_last().len() == 0);
    }
}

} // verus!
