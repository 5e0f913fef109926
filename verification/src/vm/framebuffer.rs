//! How large a shared framebuffer is, and what can go wrong with it.

use vstd::prelude::*;

use crate::devices::fb::FbGeometry;
use crate::text;

verus! {

/// Why there is no framebuffer.
#[derive(Debug)]
pub enum FbError {
    /// The operating system refused, in its words.
    Syscall(String),
    BadSize,
}

impl FbError {
    /// The error in words.
    pub open spec fn words(self) -> Seq<char> {
        match self {
            FbError::Syscall(e) => "memfd/mmap syscall failed: "@ + e@,
            FbError::BadSize => "invalid framebuffer size"@,
        }
    }

    /// The error in words.
    pub fn message(&self) -> (r: String)
        ensures
            r@ == self.words(),
    {
        match self {
            FbError::Syscall(e) => text::join2("memfd/mmap syscall failed: ", e.as_str()),
            FbError::BadSize => text::plain("invalid framebuffer size"),
        }
    }
}

/// How many bytes a framebuffer takes; one without pixels is refused.
pub fn mapping_size(geometry: FbGeometry) -> (r: Result<usize, FbError>)
    requires
        geometry.total() <= usize::MAX,
    ensures
        r == if geometry.total() == 0 {
            Err::<usize, FbError>(FbError::BadSize)
        } else {
            Ok::<usize, FbError>(geometry.total() as usize)
        },
{
    let size: usize = geometry.size_bytes();
    if size == 0 {
        Err(FbError::BadSize)
    } else {
        Ok(size)
    }
}

/// Whether a framebuffer can be described to a guest: it has pixels, and its size fits 32 bits.
pub fn describable(geometry: FbGeometry) -> (r: bool)
    ensures
        r == (0 < geometry.total() <= u32::MAX),
{
    let w: u64 = geometry.width as u64;
    let h: u64 = geometry.height as u64;
    assert(w * h <= 0xffff_ffff * 0xffff_ffff) by (nonlinear_arith)
        requires
            w <= 0xffff_ffff,
            h <= 0xffff_ffff,
    ;
    let pixels: u64 = w * h;
    assert(geometry.total() == pixels * 4);
    0 < pixels && pixels <= 0x3fff_ffff
}

} // verus!
