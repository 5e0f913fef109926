//! What errors and the state of a processor say in words: each names what it is about, and an
//! error that has another behind it passes that one's words on.

use vstd::prelude::*;

use super::boot::BootRunError;
use super::exit::DispatchError;
use super::framebuffer::FbError;
use super::state::IllegalTransition;
use crate::boot::linux::BootError;
use crate::control::manager::ManagerError;
use crate::devices::bus::BusError;
use crate::devices::virtio::block::BlockError;
use crate::hypervisor::traits::HypervisorError;
use crate::hypervisor::vcpu;
use crate::hypervisor::vcpu::{GeneralRegs, SpecialRegs};
use crate::text;

verus! {

/// A number in decimal digits.
pub open spec fn decimal(n: int) -> Seq<char> {
    text::numeral(n as nat, 10)
}

/// A number in hexadecimal digits, marked as such.
pub open spec fn hexadecimal(n: int) -> Seq<char> {
    "0x"@ + text::numeral(n as nat, 16)
}

/// Why a kernel was not loaded names the length, the version or the cause.
pub proof fn boot_errors_say(e: BootError, r: String)
    requires
        call_ensures(BootError::message, (&e,), r),
    ensures
        e matches BootError::TooSmall(n) ==> r@ == "kernel image too small ("@ + decimal(n as int)
            + " bytes) to contain a boot header"@,
        e is BadMagic ==> r@ == "not a bzImage: missing 'HdrS' magic at 0x202"@,
        e matches BootError::ProtocolTooOld { major, minor } ==> r@ == "boot protocol "@ + decimal(
            major as int,
        ) + "."@ + decimal(minor as int) + " too old; need >= 2.06 for 32/64-bit entry"@,
        e is NotRelocatableHigh ==> r@
            == "kernel not loaded-high capable (loadflags LOADED_HIGH clear)"@,
        e matches BootError::CmdlineTooLong(n) ==> r@ == "command line too long: "@ + decimal(
            n as int,
        ) + " > 2048"@,
        e matches BootError::Memory(why) ==> r@ == "guest memory error: "@ + why@,
{
}

/// Why a device was not registered names both ranges, the new one first.
pub proof fn bus_errors_say(e: BusError, r: String)
    requires
        call_ensures(BusError::message, (&e,), r),
    ensures
        e matches BusError::Overlap { new_start, new_end, ex_start, ex_end } ==> r@
            == "device range ["@ + hexadecimal(new_start as int) + ","@ + hexadecimal(
            new_end as int,
        ) + ") overlaps existing ["@ + hexadecimal(ex_start as int) + ","@ + hexadecimal(
            ex_end as int,
        ) + ")"@,
{
}

/// What the hypervisor refused names what was tried and why.
pub proof fn hypervisor_errors_say(e: HypervisorError, source: &str, r: String)
    requires
        call_ensures(HypervisorError::message_with, (&e, source), r),
    ensures
        e is Open ==> r@ == "failed to open the hypervisor device: "@ + source@,
        e matches HypervisorError::Ioctl { ioctl, source: _ } ==> r@ == "kvm ioctl `"@ + ioctl@
            + "` failed: "@ + source@,
        e matches HypervisorError::Memory(why) ==> r@ == "guest memory error: "@ + why@,
        e matches HypervisorError::ApiVersion { found, expected } ==> (found >= 0 && expected >= 0
            ==> r@ == "unsupported KVM API version "@ + decimal(found as int) + ", expected "@
            + decimal(expected as int)) && (found < 0 && expected >= 0 ==> r@
            == "unsupported KVM API version "@ + ("-"@ + decimal(-found)) + ", expected "@
            + decimal(expected as int)),
        e matches HypervisorError::MissingCapability(c) ==> r@
            == "required KVM capability missing: "@ + c@,
        e matches HypervisorError::ExitCompletionMismatch { attempted } ==> r@
            == "attempted to complete a vcpu exit ("@ + attempted@
            + ") that does not expect a data payload"@,
{
}

/// Why a machine did not start passes on the words of what is behind it.
pub proof fn start_errors_pass_on(
    source: &str,
    h: HypervisorError,
    hw: String,
    b: BootError,
    bw: String,
    u: BusError,
    uw: String,
    d: BlockError,
    dw: String,
    f: FbError,
    fw: String,
    e: BootRunError,
    r: String,
)
    requires
        call_ensures(HypervisorError::message_with, (&h, source), hw),
        call_ensures(BootError::message, (&b,), bw),
        call_ensures(BusError::message, (&u,), uw),
        call_ensures(BlockError::message_with, (&d, source), dw),
        call_ensures(FbError::message, (&f,), fw),
        call_ensures(BootRunError::message_with, (&e, source), r),
    ensures
        e == BootRunError::Hypervisor(h) ==> r@ == "hypervisor: "@ + hw@,
        e == BootRunError::Boot(b) ==> r@ == "boot loader: "@ + bw@,
        e == BootRunError::Bus(u) ==> r@ == "bus: "@ + uw@,
        e == BootRunError::Block(d) ==> r@ == "block device: "@ + dw@,
        e == BootRunError::Framebuffer(f) ==> r@ == "framebuffer: "@ + fw@,
        e is Tap ==> r@ == "tap network device: "@ + source@,
        e matches BootRunError::KernelRead { path, source: _ } ==> r@
            == "failed to read kernel image "@ + path@ + ": "@ + source@,
        e is NoKernel ==> r@ == "no kernel configured for this VM"@,
        dw@ == "disk I/O error: "@ + source@,
        f matches FbError::Syscall(why) ==> fw@ == "memfd/mmap syscall failed: "@ + why@,
        f is BadSize ==> fw@ == "invalid framebuffer size"@,
{
}

/// What a command failed for, what a stop was that nobody handles, and a step that is not legal.
pub proof fn other_errors_say(
    m: ManagerError,
    mw: String,
    d: DispatchError,
    dw: String,
    i: IllegalTransition,
    iw: String,
)
    requires
        call_ensures(ManagerError::message, (&m,), mw),
        call_ensures(DispatchError::message, (&d,), dw),
        call_ensures(IllegalTransition::message, (&i,), iw),
    ensures
        m matches ManagerError::NotFound(e) ==> mw@ == "no such VM: "@ + e@,
        m matches ManagerError::Transition(e) ==> mw@ == "illegal transition: "@ + e@,
        m matches ManagerError::Op(e) ==> mw@ == "VM operation failed: "@ + e@,
        d matches DispatchError::UnhandledExit(e) ==> dw@ == "unhandled vcpu exit: "@ + e@,
        iw@ == "illegal VM state transition: "@ + i.from.name() + " -> "@ + i.to.name(),
{
}

/// What a processor's registers say: each value stands behind the name of its register.
pub proof fn registers_say(s: SpecialRegs, g: GeneralRegs, r: String)
    requires
        call_ensures(vcpu::registers_text, (&s, &g), r),
    ensures
        r@ == "RIP="@ + text::hex64(g.rip as nat) + " RSP="@ + text::hex64(g.rsp as nat)
            + " RFLAGS="@ + hexadecimal(g.rflags as int) + " RSI="@ + hexadecimal(g.rsi as int)
            + "\nCR0="@ + hexadecimal(s.cr0 as int) + " CR3="@ + hexadecimal(s.cr3 as int)
            + " CR4="@ + hexadecimal(s.cr4 as int) + " EFER="@ + hexadecimal(s.efer as int)
            + "\nCS.base="@ + hexadecimal(s.cs.base as int) + " CS.sel="@ + hexadecimal(
            s.cs.selector as int,
        ) + " CS.l="@ + decimal(s.cs.l as int) + " CS.db="@ + decimal(s.cs.db as int)
            + " CS.present="@ + decimal(s.cs.present as int) + "\nGDT.base="@ + hexadecimal(
            s.gdt_base as int,
        ) + " GDT.limit="@ + hexadecimal(s.gdt_limit as int),
{
}

} // verus!
