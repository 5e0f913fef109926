//! The boundary towards the hypervisor: why a virtual processor stopped, what can go wrong,
//! and what a processor needs to enter a kernel, all without a type of any hypervisor.

use vstd::prelude::*;

use crate::text;

verus! {

/// Why a virtual processor stopped running.
#[derive(Debug, Clone, PartialEq, Eq)]
pub enum VcpuExit {
    /// The guest reads `len` bytes of device memory at `addr`, and waits for them.
    MmioRead { addr: u64, len: usize },
    /// The guest writes device memory at `addr`.
    MmioWrite { addr: u64, data: Vec<u8> },
    /// The guest reads `len` bytes from `port`, and waits for them.
    IoIn { port: u16, len: usize },
    /// The guest writes to `port`.
    IoOut { port: u16, data: Vec<u8> },
    /// The guest halted.
    Hlt,
    /// The guest shut down, or faulted beyond recovery.
    Shutdown,
    /// Anything else, in the hypervisor's words.
    Unhandled(String),
}

/// What can go wrong below the boundary.
#[derive(Debug)]
pub enum HypervisorError {
    Open(std::io::Error),
    Ioctl { ioctl: &'static str, source: std::io::Error },
    Memory(String),
    ApiVersion { found: i32, expected: i32 },
    MissingCapability(&'static str),
    ExitCompletionMismatch { attempted: &'static str },
}

/// `n` in decimal, behind a minus sign where it is negative.
pub open spec fn signed(n: i32) -> Seq<char> {
    if n < 0 {
        "-"@ + text::dec((-n) as nat)
    } else {
        text::dec(n as nat)
    }
}

/// `n` in decimal, behind a minus sign where it is negative.
fn signed_text(n: i32) -> (r: String)
    ensures
        r@ == signed(n),
{
    if n < 0 {
        let abs: i64 = -(n as i64);
        text::join2("-", text::dec_text(abs as u64).as_str())
    } else {
        text::dec_text(n as u64)
    }
}

/// The text that `std::io::Error` displays. Nothing is stated of it: it is the operating
/// system's.
#[verifier::external_body]
fn io_error_text(e: &std::io::Error) -> String {
    e.to_string()
}

impl HypervisorError {
    /// The error in words, `source` being those of the operating system's error behind it.
    pub open spec fn words(self, source: Seq<char>) -> Seq<char> {
        match self {
            HypervisorError::Open(_) => "failed to open the hypervisor device: "@ + source,
            HypervisorError::Ioctl { ioctl, source: _ } => "kvm ioctl `"@ + ioctl@ + "` failed: "@
                + source,
            HypervisorError::Memory(e) => "guest memory error: "@ + e@,
            HypervisorError::ApiVersion { found, expected } => "unsupported KVM API version "@
                + signed(found) + ", expected "@ + signed(expected),
            HypervisorError::MissingCapability(c) => "required KVM capability missing: "@ + c@,
            HypervisorError::ExitCompletionMismatch { attempted } =>
                "attempted to complete a vcpu exit ("@ + attempted@
                + ") that does not expect a data payload"@,
        }
    }

    /// The error in words, given those of the operating system's error behind it.
    pub fn message_with(&self, source: &str) -> (r: String)
        ensures
            r@ == self.words(source@),
    {
        match self {
            HypervisorError::Open(_) => text::join2(
                "failed to open the hypervisor device: ",
                source,
            ),
            HypervisorError::Ioctl { ioctl, source: _ } => {
                let head = text::join3("kvm ioctl `", ioctl, "` failed: ");
                text::join2(head.as_str(), source)
            },
            HypervisorError::Memory(e) => text::join2("guest memory error: ", e.as_str()),
            HypervisorError::ApiVersion { found, expected } => {
                let head = text::join3(
                    "unsupported KVM API version ",
                    signed_text(*found).as_str(),
                    ", expected ",
                );
                text::join2(head.as_str(), signed_text(*expected).as_str())
            },
            HypervisorError::MissingCapability(c) => text::join2(
                "required KVM capability missing: ",
                c,
            ),
            HypervisorError::ExitCompletionMismatch { attempted } => text::join3(
                "attempted to complete a vcpu exit (",
                attempted,
                ") that does not expect a data payload",
            ),
        }
    }

    /// The error in words.
    pub fn message(&self) -> (r: String)
        ensures
            exists|source: Seq<char>| r@ == #[trigger] self.words(source),
    {
        match self {
            HypervisorError::Open(e) => {
                let t = io_error_text(e);
                self.message_with(t.as_str())
            },
            HypervisorError::Ioctl { ioctl: _, source } => {
                let t = io_error_text(source);
                self.message_with(t.as_str())
            },
            _ => self.message_with(""),
        }
    }
}

/// What a processor needs to enter a kernel in 64-bit long mode.
#[derive(Debug, Clone, Copy)]
pub struct LongModeEntry {
    /// Where execution starts.
    pub entry_point: u64,
    /// Where the boot parameters are.
    pub boot_params: u64,
    /// Top of the first stack.
    pub stack_top: u64,
    /// Where the topmost page table is.
    pub pml4_addr: u64,
    /// Where the boot GDT is.
    pub gdt_addr: u64,
}

/// A virtual processor, as a hypervisor provides it.
pub trait Vcpu: Sized {
    /// Whether one run may give `r` and leave the processor as `post`. Unless an implementer
    /// says more, it may be so.
    open spec fn runs(&self, r: Result<VcpuExit, HypervisorError>, post: &Self) -> bool {
        true
    }

    /// Whether answering the read that the guest waits for with `data` may give `r` and leave
    /// the processor as `post`. Unless an implementer says more, it may be so.
    open spec fn completes(
        &self,
        data: Seq<u8>,
        r: Result<(), HypervisorError>,
        post: &Self,
    ) -> bool {
        true
    }

    /// Puts the processor into real mode at `entry_point`.
    fn setup_initial_state(&mut self, entry_point: u64) -> Result<(), HypervisorError>;

    /// Sets the instruction pointer.
    fn set_instruction_pointer(&mut self, rip: u64) -> Result<(), HypervisorError>;

    /// Puts the processor into 64-bit long mode, ready to enter a kernel. The tables that
    /// `entry` names stand in guest memory.
    fn setup_long_mode(&mut self, entry: LongModeEntry) -> Result<(), HypervisorError>;

    /// Runs the guest until it stops, and says why it did.
    fn run(&mut self) -> (r: Result<VcpuExit, HypervisorError>)
        ensures
            old(self).runs(r, final(self)),
    ;

    /// The most important registers in words.
    fn debug_registers(&self) -> Result<String, HypervisorError>;

    /// Answers the read that the guest waits for.
    fn set_exit_result(&mut self, data: &[u8]) -> (r: Result<(), HypervisorError>)
        ensures
            old(self).completes(data@, r, final(self)),
    ;
}

} // verus!
