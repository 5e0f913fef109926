//! The geometry of a framebuffer of 32-bit pixels, and a counter by which a viewer sees that
//! it changed. The pixels themselves are in memory shared with the viewer.

use vstd::prelude::*;

verus! {

/// Bytes of a pixel.
pub const BYTES_PER_PIXEL: usize = 4;

#[derive(Debug, Clone, Copy)]
pub struct FbGeometry {
    pub width: u32,
    pub height: u32,
}

impl FbGeometry {
    /// How many bytes all pixels take.
    pub open spec fn total(self) -> int {
        self.width * self.height * 4
    }

    pub fn new(width: u32, height: u32) -> (r: Self)
        ensures
            r == (FbGeometry { width, height }),
    {
        FbGeometry { width, height }
    }

    /// How many bytes all pixels take.
    pub fn size_bytes(&self) -> (r: usize)
        requires
            self.total() <= usize::MAX,
        ensures
            r == self.total(),
    {
        assert(self.width * self.height <= self.width * self.height * 4) by (nonlinear_arith);
        self.width as usize * self.height as usize * BYTES_PER_PIXEL
    }
}

/// A framebuffer's geometry and how often it changed.
pub struct Framebuffer {
    pub geometry: FbGeometry,
    frame_seq: u64,
}

impl Framebuffer {
    /// The geometry.
    pub closed spec fn shape(&self) -> FbGeometry {
        self.geometry
    }

    /// How often the framebuffer changed, modulo 2^64.
    pub closed spec fn changes(&self) -> u64 {
        self.frame_seq
    }

    pub fn new(geometry: FbGeometry) -> (r: Self)
        ensures
            r.shape() == geometry,
            r.changes() == 0,
    {
        Framebuffer { geometry, frame_seq: 0 }
    }

    /// Counts a change; the count wraps.
    pub fn mark_dirty(&mut self)
        ensures
            final(self).shape() == old(self).shape(),
            final(self).changes() == (old(self).changes() + 1) % 0x1_0000_0000_0000_0000,
    {
        self.frame_seq = self.frame_seq.wrapping_add(1);
    }

    pub fn frame_seq(&self) -> (r: u64)
        ensures
            r == self.changes(),
    {
        self.frame_seq
    }
}

} // verus!
