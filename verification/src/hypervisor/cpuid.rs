//! The CPUID leaves that a guest sees: those the host supports, changed so that the guest takes
//! its time from the hypervisor's clock and its ticks from the periodic timer.

use vstd::prelude::*;

use super::traits::HypervisorError;
use crate::text;

verus! {

/// The leaf that names the hypervisor.
pub const KVM_CPUID_SIGNATURE: u32 = 0x4000_0000;

/// The leaf of the hypervisor's features.
pub const KVM_CPUID_FEATURES: u32 = 0x4000_0001;

/// The clock, in its old and its new form, stable over processors: bits 0, 3 and 24.
pub const KVM_CLOCK_FEATURES: u32 = 0x0100_0009;

/// Bit 24 of ECX in leaf 1: the one-shot deadline timer.
pub const TSC_DEADLINE_BIT: u32 = 0x0100_0000;

/// How many leaves a table can hold.
pub const CPUID_MAX: usize = 80;

/// One leaf.
#[derive(Debug, Clone, Copy)]
pub struct CpuidEntry {
    pub function: u32,
    pub index: u32,
    pub flags: u32,
    pub eax: u32,
    pub ebx: u32,
    pub ecx: u32,
    pub edx: u32,
    pub padding: [u32; 3],
}

/// A table of leaves in the form that the hypervisor takes.
#[verifier::external_body]
pub struct CpuidTable {
    inner: kvm_bindings::CpuId,
}

/// The leaves of a table, in order.
pub uninterp spec fn table_leaves(t: CpuidTable) -> Seq<CpuidEntry>;

/// `kvm_bindings::CpuId::as_slice`: the leaves of the table, in order, each as a plain value.
#[verifier::external_body]
fn leaves_of(t: &CpuidTable) -> (r: Vec<CpuidEntry>)
    ensures
        r@ == table_leaves(*t),
{
    t.inner.as_slice().iter().map(|e| CpuidEntry {
        function: e.function, index: e.index, flags: e.flags,
        eax: e.eax, ebx: e.ebx, ecx: e.ecx, edx: e.edx, padding: e.padding,
    }).collect()
}

/// `kvm_bindings::CpuId::from_entries`: a table of the given leaves, in order. It is refused
/// exactly where there are more leaves than a table can hold.
#[verifier::external_body]
fn table_of(list: &Vec<CpuidEntry>) -> (r: Option<CpuidTable>)
    ensures
        match r {
            Some(t) => list@.len() <= CPUID_MAX && table_leaves(t) == list@,
            None => list@.len() > CPUID_MAX,
        },
{
    let raw: Vec<kvm_bindings::kvm_cpuid_entry2> = list.iter().map(|e| kvm_bindings::kvm_cpuid_entry2 {
        function: e.function, index: e.index, flags: e.flags,
        eax: e.eax, ebx: e.ebx, ecx: e.ecx, edx: e.edx, padding: e.padding,
    }).collect();
    kvm_bindings::CpuId::from_entries(&raw).ok().map(|inner| CpuidTable { inner })
}

/// A leaf without the deadline timer: the guest has to rearm that one after every tick, and
/// loses it when its clock is not calibrated.
pub open spec fn without_deadline(e: CpuidEntry) -> CpuidEntry {
    if e.function == 1 && e.index == 0 {
        CpuidEntry { ecx: e.ecx & !TSC_DEADLINE_BIT, ..e }
    } else {
        e
    }
}

/// Whether a leaf is one of the two that are set anew.
pub open spec fn paravirt(e: CpuidEntry) -> bool {
    e.function == KVM_CPUID_SIGNATURE || e.function == KVM_CPUID_FEATURES
}

/// The leaves that are kept of a list, in order, without the deadline timer.
pub open spec fn kept_leaves(s: Seq<CpuidEntry>) -> Seq<CpuidEntry>
    decreases s.len(),
{
    if s.len() == 0 {
        seq![]
    } else if paravirt(s.last()) {
        kept_leaves(s.drop_last())
    } else {
        kept_leaves(s.drop_last()).push(without_deadline(s.last()))
    }
}

/// The leaf that names the hypervisor, "KVMKVMKVM", and its highest leaf.
pub open spec fn signature_leaf(padding: [u32; 3]) -> CpuidEntry {
    CpuidEntry {
        function: KVM_CPUID_SIGNATURE,
        index: 0,
        flags: 0,
        eax: KVM_CPUID_FEATURES,
        ebx: 0x4b4d_564b,
        ecx: 0x564b_4d56,
        edx: 0x4d,
        padding,
    }
}

/// The leaf of the clock features.
pub open spec fn features_leaf(padding: [u32; 3]) -> CpuidEntry {
    CpuidEntry {
        function: KVM_CPUID_FEATURES,
        index: 0,
        flags: 0,
        eax: KVM_CLOCK_FEATURES,
        ebx: 0,
        ecx: 0,
        edx: 0,
        padding,
    }
}

/// Whether `r` is what the guest sees where the host supports `s`: the leaves kept, then the
/// hypervisor's name and its clock.
pub open spec fn guest_leaves(s: Seq<CpuidEntry>, r: Seq<CpuidEntry>) -> bool {
    exists|zero: [u32; 3]|
        zero@ == seq![0u32, 0, 0] && r == #[trigger] (kept_leaves(s).push(
            signature_leaf(zero),
        ).push(features_leaf(zero)))
}

/// What is kept holds neither of the two leaves that are set anew, nor the deadline timer, and
/// is no longer than what it was kept of.
pub proof fn kept_leaves_law(s: Seq<CpuidEntry>)
    ensures
        kept_leaves(s).len() <= s.len(),
        forall|i: int|
            0 <= i < kept_leaves(s).len() ==> {
                let e = #[trigger] kept_leaves(s)[i];
                !paravirt(e) && (e.function == 1 && e.index == 0 ==> e.ecx & TSC_DEADLINE_BIT == 0)
            },
    decreases s.len(),
{
    if s.len() > 0 {
        kept_leaves_law(s.drop_last());
        let c = s.last().ecx;
        assert((c & !0x0100_0000u32) & 0x0100_0000u32 == 0) by (bit_vector);
    }
}

/// The guest sees exactly one leaf of the hypervisor's name and one of its features.
pub proof fn paravirt_once(s: Seq<CpuidEntry>, r: Seq<CpuidEntry>)
    requires
        guest_leaves(s, r),
    ensures
        r.len() >= 2,
        forall|i: int|
            0 <= i < r.len() ==> ((#[trigger] r[i]).function == KVM_CPUID_SIGNATURE <==> i == r.len()
                - 2),
        forall|i: int|
            0 <= i < r.len() ==> ((#[trigger] r[i]).function == KVM_CPUID_FEATURES <==> i == r.len()
                - 1),
        r[r.len() - 1].eax == KVM_CLOCK_FEATURES,
{
    kept_leaves_law(s);
}

impl CpuidTable {
    /// The leaves, in order.
    pub fn leaves(&self) -> (r: Vec<CpuidEntry>)
        ensures
            r@ == table_leaves(*self),
    {
        leaves_of(self)
    }

    /// A table of the given leaves; nothing where there are more than it can hold.
    pub fn from_leaves(list: &Vec<CpuidEntry>) -> (r: Option<CpuidTable>)
        ensures
            match r {
                Some(t) => list@.len() <= CPUID_MAX && table_leaves(t) == list@,
                None => list@.len() > CPUID_MAX,
            },
    {
        table_of(list)
    }
}

/// The leaves that the guest sees where the host supports `list`.
pub fn paravirt_leaves(list: &Vec<CpuidEntry>) -> (r: Vec<CpuidEntry>)
    ensures
        guest_leaves(list@, r@),
        r@.len() == kept_leaves(list@).len() + 2,
{
    let mut out: Vec<CpuidEntry> = Vec::new();
    let mut i: usize = 0;
    assert(list@.take(0) =~= seq![]);
    assert(out@ =~= kept_leaves(list@.take(0)));
    while i < list.len()
        invariant
            i <= list@.len(),
            out@ == kept_leaves(list@.take(i as int)),
        decreases list@.len() - i,
    {
        assert(list@.take(i + 1).drop_last() =~= list@.take(i as int));
        let mut e = list[i];
        if e.function != KVM_CPUID_SIGNATURE && e.function != KVM_CPUID_FEATURES {
            if e.function == 1 && e.index == 0 {
                e.ecx = e.ecx & !TSC_DEADLINE_BIT;
            }
            out.push(e);
        }
        i += 1;
    }
    assert(list@.take(list@.len() as int) =~= list@);
    let zero: [u32; 3] = [0, 0, 0];
    assert(zero@ =~= seq![0u32, 0, 0]);
    out.push(
        CpuidEntry {
            function: KVM_CPUID_SIGNATURE,
            index: 0,
            flags: 0,
            eax: KVM_CPUID_FEATURES,
            ebx: 0x4b4d_564b,
            ecx: 0x564b_4d56,
            edx: 0x4d,
            padding: zero,
        },
    );
    out.push(
        CpuidEntry {
            function: KVM_CPUID_FEATURES,
            index: 0,
            flags: 0,
            eax: KVM_CLOCK_FEATURES,
            ebx: 0,
            ecx: 0,
            edx: 0,
            padding: zero,
        },
    );
    assert(out@ == kept_leaves(list@).push(signature_leaf(zero)).push(features_leaf(zero)));
    out
}

/// Makes the table that the guest sees of the one that the host supports.
pub fn add_kvm_paravirt_leaves(cpuid: &CpuidTable) -> (r: Result<CpuidTable, HypervisorError>)
    ensures
        match r {
            Ok(t) => guest_leaves(table_leaves(*cpuid), table_leaves(t)) && kept_leaves(
                table_leaves(*cpuid),
            ).len() + 2 <= CPUID_MAX,
            Err(HypervisorError::Memory(e)) => {
                &&& kept_leaves(table_leaves(*cpuid)).len() + 2 > CPUID_MAX
                &&& e@ == "failed to rebuild CPUID with kvm paravirt leaves"@
            },
            Err(_) => false,
        },
{
    let list = leaves_of(cpuid);
    let out = paravirt_leaves(&list);
    match table_of(&out) {
        Some(t) => Ok(t),
        None => {
            let e = text::plain("failed to rebuild CPUID with kvm paravirt leaves");
            Err(HypervisorError::Memory(e))
        },
    }
}

} // verus!
