//! What a virtual processor's registers hold when it enters a guest, and which read it waits
//! to have answered.

use vstd::prelude::*;
use vstd::string::StringExecFns;

use super::memory;
use super::traits::{HypervisorError, LongModeEntry, VcpuExit};
use crate::text;

verus! {

/// Protection, co-processor monitoring, extension type and paging.
pub const CR0_LONG_MODE: u64 = 0x8000_0013;

/// Physical address extension.
pub const CR4_PAE: u64 = 0x20;

/// Long mode enabled and active.
pub const EFER_LONG_MODE: u64 = 0x500;

/// The bit of the flags register that is always set; interrupts are off.
pub const RFLAGS_START: u64 = 0x2;

/// Selector of the code segment in the boot GDT.
pub const BOOT_CODE_SELECTOR: u16 = 0x08;

/// Selector of the data segment in the boot GDT.
pub const BOOT_DATA_SELECTOR: u16 = 0x10;

/// Last byte of the boot GDT: three descriptors of eight bytes.
pub const BOOT_GDT_LIMIT: u16 = 23;

/// Control word of a floating-point unit after reset.
pub const FPU_CONTROL: u16 = 0x37f;

/// Control and status of the vector unit after reset.
pub const VECTOR_CONTROL: u32 = 0x1f80;

/// A segment register.
#[derive(Debug, Clone, Copy)]
pub struct Segment {
    pub base: u64,
    pub limit: u32,
    pub selector: u16,
    pub type_: u8,
    pub present: u8,
    pub dpl: u8,
    pub db: u8,
    pub s: u8,
    pub l: u8,
    pub g: u8,
    pub avl: u8,
    pub unusable: u8,
    pub padding: u8,
}

/// The special registers that entering a guest sets.
#[derive(Debug, Clone, Copy)]
pub struct SpecialRegs {
    pub cs: Segment,
    pub ds: Segment,
    pub es: Segment,
    pub fs: Segment,
    pub gs: Segment,
    pub ss: Segment,
    pub gdt_base: u64,
    pub gdt_limit: u16,
    pub cr0: u64,
    pub cr3: u64,
    pub cr4: u64,
    pub efer: u64,
}

/// The general registers that entering a guest sets.
#[derive(Debug, Clone, Copy)]
pub struct GeneralRegs {
    pub rip: u64,
    pub rsi: u64,
    pub rsp: u64,
    pub rbp: u64,
    pub rflags: u64,
}

/// A flat 64-bit code segment: execute and read, accessed.
pub open spec fn flat_code(selector: u16) -> Segment {
    Segment {
        base: 0,
        limit: 0xffff_ffff,
        selector,
        type_: 0xb,
        present: 1,
        dpl: 0,
        db: 0,
        s: 1,
        l: 1,
        g: 1,
        avl: 0,
        unusable: 0,
        padding: 0,
    }
}

/// A flat data segment: read and write, accessed.
pub open spec fn flat_data(selector: u16) -> Segment {
    Segment {
        base: 0,
        limit: 0xffff_ffff,
        selector,
        type_: 0x3,
        present: 1,
        dpl: 0,
        db: 1,
        s: 1,
        l: 0,
        g: 1,
        avl: 0,
        unusable: 0,
        padding: 0,
    }
}

fn code_segment(selector: u16) -> (r: Segment)
    ensures
        r == flat_code(selector),
{
    Segment {
        base: 0,
        limit: 0xffff_ffff,
        selector,
        type_: 0xb,
        present: 1,
        dpl: 0,
        db: 0,
        s: 1,
        l: 1,
        g: 1,
        avl: 0,
        unusable: 0,
        padding: 0,
    }
}

fn data_segment(selector: u16) -> (r: Segment)
    ensures
        r == flat_data(selector),
{
    Segment {
        base: 0,
        limit: 0xffff_ffff,
        selector,
        type_: 0x3,
        present: 1,
        dpl: 0,
        db: 1,
        s: 1,
        l: 0,
        g: 1,
        avl: 0,
        unusable: 0,
        padding: 0,
    }
}

/// The special registers with which a kernel is entered in long mode: flat segments by the
/// boot GDT, paging on, everything else as it was.
pub fn long_mode_special(was: SpecialRegs, entry: LongModeEntry) -> (r: SpecialRegs)
    ensures
        r == (SpecialRegs {
            cs: flat_code(BOOT_CODE_SELECTOR),
            ds: flat_data(BOOT_DATA_SELECTOR),
            es: flat_data(BOOT_DATA_SELECTOR),
            fs: flat_data(BOOT_DATA_SELECTOR),
            gs: flat_data(BOOT_DATA_SELECTOR),
            ss: flat_data(BOOT_DATA_SELECTOR),
            gdt_base: entry.gdt_addr,
            gdt_limit: BOOT_GDT_LIMIT,
            cr0: was.cr0 | CR0_LONG_MODE,
            cr3: entry.pml4_addr,
            cr4: was.cr4 | CR4_PAE,
            efer: was.efer | EFER_LONG_MODE,
        }),
{
    let data = data_segment(BOOT_DATA_SELECTOR);
    SpecialRegs {
        cs: code_segment(BOOT_CODE_SELECTOR),
        ds: data,
        es: data,
        fs: data,
        gs: data,
        ss: data,
        gdt_base: entry.gdt_addr,
        gdt_limit: BOOT_GDT_LIMIT,
        cr0: was.cr0 | CR0_LONG_MODE,
        cr3: entry.pml4_addr,
        cr4: was.cr4 | CR4_PAE,
        efer: was.efer | EFER_LONG_MODE,
    }
}

/// The general registers with which a kernel is entered in long mode: at its entry point, its
/// boot parameters in RSI, on its first stack.
pub fn long_mode_general(entry: LongModeEntry) -> (r: GeneralRegs)
    ensures
        r == (GeneralRegs {
            rip: entry.entry_point,
            rsi: entry.boot_params,
            rsp: entry.stack_top,
            rbp: entry.stack_top,
            rflags: RFLAGS_START,
        }),
{
    GeneralRegs {
        rip: entry.entry_point,
        rsi: entry.boot_params,
        rsp: entry.stack_top,
        rbp: entry.stack_top,
        rflags: RFLAGS_START,
    }
}

/// The segments that a processor enters a kernel with are those of the boot GDT: the selectors
/// name its second and third descriptor, within its limit, and type, privilege, presence, size
/// and granularity are what those descriptors say.
pub proof fn segments_match_boot_gdt()
    ensures
        memory::descriptor(0xa09b, 0, 0xf_ffff) == 0x00af_9b00_0000_ffff,
        memory::descriptor(0xc093, 0, 0xf_ffff) == 0x00cf_9300_0000_ffff,
        descriptor_of(flat_code(BOOT_CODE_SELECTOR)) == memory::descriptor(0xa09b, 0, 0xf_ffff),
        descriptor_of(flat_data(BOOT_DATA_SELECTOR)) == memory::descriptor(0xc093, 0, 0xf_ffff),
        BOOT_CODE_SELECTOR as int == 8 * 1,
        BOOT_DATA_SELECTOR as int == 8 * 2,
        memory::gdt_bytes().len() == BOOT_GDT_LIMIT + 1,
{
}

/// The descriptor of a segment whose limit counts pages.
pub open spec fn descriptor_of(s: Segment) -> u64 {
    memory::descriptor(
        (s.type_ + 0x10 * s.s + 0x20 * s.dpl + 0x80 * s.present + 0x1000 * s.avl + 0x2000 * s.l
            + 0x4000 * s.db + 0x8000 * s.g) as u16,
        s.base as u32,
        (s.limit / 0x1000) as u32,
    )
}

/// Base of the code segment for an entry point in real mode: the 64 KiB that it lies in.
pub open spec fn real_base(entry_point: u64) -> u64 {
    (entry_point as int / 0x1_0000 * 0x1_0000) as u64
}

/// The special registers with which a guest is entered in real mode.
pub fn real_mode_special(was: SpecialRegs, entry_point: u64) -> (r: SpecialRegs)
    ensures
        r == (SpecialRegs {
            cs: Segment {
                base: real_base(entry_point),
                selector: (real_base(entry_point) as int / 16 % 0x1_0000) as u16,
                ..was.cs
            },
            ..was
        }),
{
    let base: u64 = entry_point / 0x1_0000 * 0x1_0000;
    let mut cs = was.cs;
    cs.base = base;
    cs.selector = (base / 16 % 0x1_0000) as u16;
    let mut r = was;
    r.cs = cs;
    r
}

/// The general registers with which a guest is entered in real mode.
pub fn real_mode_general(was: GeneralRegs, entry_point: u64) -> (r: GeneralRegs)
    ensures
        r == (GeneralRegs {
            rip: (entry_point - real_base(entry_point)) as u64,
            rflags: RFLAGS_START,
            ..was
        }),
{
    let mut r = was;
    r.rip = entry_point % 0x1_0000;
    r.rflags = RFLAGS_START;
    r
}

/// In real mode the guest starts at its entry point: base and offset come to it, the offset
/// fits 16 bits, and below 1 MiB the selector stands for the base.
pub proof fn real_mode_entry(entry_point: u64)
    ensures
        real_base(entry_point) + (entry_point - real_base(entry_point)) == entry_point,
        0 <= entry_point - real_base(entry_point) < 0x1_0000,
        entry_point < 0x10_0000 ==> (real_base(entry_point) as int / 16 % 0x1_0000) * 16
            == real_base(entry_point),
{
}

/// The most important registers in words: where execution stands, the modes it is in, and the
/// code segment.
pub open spec fn registers_words(s: SpecialRegs, g: GeneralRegs) -> Seq<char> {
    "RIP="@ + text::hex64(g.rip as nat) + " RSP="@ + text::hex64(g.rsp as nat) + " RFLAGS="@
        + text::hex(g.rflags as nat) + " RSI="@ + text::hex(g.rsi as nat) + "\nCR0="@ + text::hex(
        s.cr0 as nat,
    ) + " CR3="@ + text::hex(s.cr3 as nat) + " CR4="@ + text::hex(s.cr4 as nat) + " EFER="@
        + text::hex(s.efer as nat) + "\nCS.base="@ + text::hex(s.cs.base as nat) + " CS.sel="@
        + text::hex(s.cs.selector as nat) + " CS.l="@ + text::dec(s.cs.l as nat) + " CS.db="@
        + text::dec(s.cs.db as nat) + " CS.present="@ + text::dec(s.cs.present as nat)
        + "\nGDT.base="@ + text::hex(s.gdt_base as nat) + " GDT.limit="@ + text::hex(
        s.gdt_limit as nat,
    )
}

/// The most important registers in words.
pub fn registers_text(s: &SpecialRegs, g: &GeneralRegs) -> (r: String)
    ensures
        r@ == registers_words(*s, *g),
{
    let mut t = text::join2("RIP=", text::hex64_text(g.rip).as_str());
    t.append(" RSP=");
    t.append(text::hex64_text(g.rsp).as_str());
    t.append(" RFLAGS=");
    t.append(text::hex_text(g.rflags).as_str());
    t.append(" RSI=");
    t.append(text::hex_text(g.rsi).as_str());
    t.append("\nCR0=");
    t.append(text::hex_text(s.cr0).as_str());
    t.append(" CR3=");
    t.append(text::hex_text(s.cr3).as_str());
    t.append(" CR4=");
    t.append(text::hex_text(s.cr4).as_str());
    t.append(" EFER=");
    t.append(text::hex_text(s.efer).as_str());
    t.append("\nCS.base=");
    t.append(text::hex_text(s.cs.base).as_str());
    t.append(" CS.sel=");
    t.append(text::hex_text(s.cs.selector as u64).as_str());
    t.append(" CS.l=");
    t.append(text::dec_text(s.cs.l as u64).as_str());
    t.append(" CS.db=");
    t.append(text::dec_text(s.cs.db as u64).as_str());
    t.append(" CS.present=");
    t.append(text::dec_text(s.cs.present as u64).as_str());
    t.append("\nGDT.base=");
    t.append(text::hex_text(s.gdt_base).as_str());
    t.append(" GDT.limit=");
    t.append(text::hex_text(s.gdt_limit as u64).as_str());
    t
}

/// The read that a processor waits to have answered.
#[derive(Debug, Clone, Copy)]
pub enum PendingRead {
    Nothing,
    Mmio { addr: u64, len: usize },
    Io { port: u16, len: usize },
}

/// The read that a processor waits for after it stopped for `exit`.
pub fn pending_after(exit: &VcpuExit) -> (r: PendingRead)
    ensures
        r == match *exit {
            VcpuExit::MmioRead { addr, len } => PendingRead::Mmio { addr, len },
            VcpuExit::IoIn { port, len } => PendingRead::Io { port, len },
            _ => PendingRead::Nothing,
        },
{
    match exit {
        VcpuExit::MmioRead { addr, len } => PendingRead::Mmio { addr: *addr, len: *len },
        VcpuExit::IoIn { port, len } => PendingRead::Io { port: *port, len: *len },
        _ => PendingRead::Nothing,
    }
}

/// What is wrong with an answer of the wrong length.
pub open spec fn mismatch(space: Seq<char>, want: nat, got: nat) -> Seq<char> {
    space + " completion length mismatch: expected "@ + text::dec(want) + ", got "@ + text::dec(got)
}

/// What is wrong with an answer of the wrong length.
fn mismatch_text(space: &str, want: usize, got: usize) -> (r: String)
    ensures
        r@ == mismatch(space@, want as nat, got as nat),
{
    let a = text::join3(
        space,
        " completion length mismatch: expected ",
        text::dec_text(want as u64).as_str(),
    );
    text::join3(a.as_str(), ", got ", text::dec_text(got as u64).as_str())
}

/// Whether an answer of `got` bytes may be given: a read waits for it, and for that many bytes.
pub fn check_completion(pending: PendingRead, got: usize) -> (r: Result<(), HypervisorError>)
    ensures
        match pending {
            PendingRead::Mmio { addr: _, len } => if got == len {
                r is Ok
            } else {
                r matches Err(HypervisorError::Memory(e)) && e@ == mismatch(
                    "mmio"@,
                    len as nat,
                    got as nat,
                )
            },
            PendingRead::Io { port: _, len } => if got == len {
                r is Ok
            } else {
                r matches Err(HypervisorError::Memory(e)) && e@ == mismatch(
                    "io"@,
                    len as nat,
                    got as nat,
                )
            },
            PendingRead::Nothing => r matches Err(HypervisorError::ExitCompletionMismatch { attempted })
                && attempted@ == "no pending read exit"@,
        },
{
    match pending {
        PendingRead::Mmio { addr: _, len } => {
            if got == len {
                Ok(())
            } else {
                Err(HypervisorError::Memory(mismatch_text("mmio", len, got)))
            }
        },
        PendingRead::Io { port: _, len } => {
            if got == len {
                Ok(())
            } else {
                Err(HypervisorError::Memory(mismatch_text("io", len, got)))
            }
        },
        PendingRead::Nothing => Err(
            HypervisorError::ExitCompletionMismatch { attempted: "no pending read exit" },
        ),
    }
}

/// The version of the hypervisor's interface that this library works with.
pub const KVM_STABLE_API_VERSION: i32 = 12;

/// Whether the hypervisor speaks that version.
pub fn check_api_version(found: i32) -> (r: Result<(), HypervisorError>)
    ensures
        if found == KVM_STABLE_API_VERSION {
            r is Ok
        } else {
            r == Err::<(), HypervisorError>(
                HypervisorError::ApiVersion { found, expected: KVM_STABLE_API_VERSION },
            )
        },
{
    if found != KVM_STABLE_API_VERSION {
        Err(HypervisorError::ApiVersion { found, expected: KVM_STABLE_API_VERSION })
    } else {
        Ok(())
    }
}

/// The frequency, in kHz, that a guest's time-stamp counter is pinned to: that of the host
/// where it is known, else 2 GHz.
pub fn pinned_tsc_khz(host_khz: u32) -> (r: u32)
    ensures
        r == if host_khz > 0 {
            host_khz
        } else {
            2_000_000
        },
{
    if host_khz > 0 {
        host_khz
    } else {
        2_000_000
    }
}

} // verus!
