//! virtio-blk requests: the header, request types and status codes, and where sectors lie in
//! a disk image.

use vstd::prelude::*;

use crate::bytes;
use crate::text;

verus! {

/// Request type: read from the disk.
pub const VIRTIO_BLK_T_IN: u32 = 0;

/// Request type: write to the disk.
pub const VIRTIO_BLK_T_OUT: u32 = 1;

/// Request type: flush the disk.
pub const VIRTIO_BLK_T_FLUSH: u32 = 4;

pub const VIRTIO_BLK_S_OK: u8 = 0;

pub const VIRTIO_BLK_S_IOERR: u8 = 1;

pub const VIRTIO_BLK_S_UNSUPP: u8 = 2;

/// Bytes of a sector.
pub const SECTOR_SIZE: u64 = 512;

/// The 16-byte header of a request.
#[derive(Debug, Clone, Copy)]
pub struct BlkReqHeader {
    pub req_type: u32,
    pub reserved: u32,
    pub sector: u64,
}

/// The header that the first sixteen bytes of `b` carry.
pub open spec fn header_of(b: Seq<u8>) -> BlkReqHeader {
    BlkReqHeader {
        req_type: bytes::u32_of(b),
        reserved: bytes::u32_of(b.skip(4)),
        sector: bytes::u64_of(b.skip(8)),
    }
}

/// The sixteen bytes of a header.
pub open spec fn header_bytes(h: BlkReqHeader) -> Seq<u8> {
    bytes::le32(h.req_type) + bytes::le32(h.reserved) + bytes::le64(h.sector)
}

impl BlkReqHeader {
    /// Decodes a header; nothing where there are too few bytes.
    pub fn parse(b: &[u8]) -> (r: Option<Self>)
        ensures
            r == if b@.len() < 16 {
                None
            } else {
                Some(header_of(b@))
            },
    {
        if b.len() < 16 {
            return None;
        }
        let at4 = vstd::slice::slice_subrange(b, 4, b.len());
        let at8 = vstd::slice::slice_subrange(b, 8, b.len());
        assert(at4@ =~= b@.skip(4));
        assert(at8@ =~= b@.skip(8));
        Some(
            BlkReqHeader {
                req_type: bytes::from_le32(b),
                reserved: bytes::from_le32(at4),
                sector: bytes::from_le64(at8),
            },
        )
    }
}

/// What can go wrong with a disk.
#[derive(Debug)]
pub enum BlockError {
    Io(std::io::Error),
}

impl BlockError {
    /// The error in words, `source` being those of the operating system's error behind it.
    pub open spec fn words(self, source: Seq<char>) -> Seq<char> {
        "disk I/O error: "@ + source
    }

    /// The error in words, given those of the operating system's error behind it.
    pub fn message_with(&self, source: &str) -> (r: String)
        ensures
            r@ == self.words(source@),
    {
        text::join2("disk I/O error: ", source)
    }
}

/// A header decodes to what it was encoded from.
pub proof fn header_roundtrip(h: BlkReqHeader)
    ensures
        header_bytes(h).len() == 16,
        header_of(header_bytes(h)) == h,
{
    let b = header_bytes(h);
    bytes::le32_roundtrip(h.req_type);
    bytes::le32_roundtrip(h.reserved);
    bytes::le64_roundtrip(h.sector);
    assert(bytes::u32_of(b) == bytes::u32_of(bytes::le32(h.req_type)));
    assert(forall|i: int| 0 <= i < 4 ==> b.skip(4)[i] == bytes::le32(h.reserved)[i]);
    assert(bytes::u32_of(b.skip(4)) == bytes::u32_of(bytes::le32(h.reserved)));
    assert(b.skip(8) =~= bytes::le64(h.sector));
}

/// A header of sixteen bytes is read as they stand: what is asked, and the sector behind eight
/// bytes; fewer bytes are no header.
pub proof fn header_is_read(b: &[u8], r: Option<BlkReqHeader>)
    requires
        call_ensures(BlkReqHeader::parse, (b,), r),
    ensures
        r is Some <==> b@.len() >= 16,
        r matches Some(h) ==> {
            let s = b@;
            &&& h.req_type == s[0] + 0x100 * s[1] + 0x1_0000 * s[2] + 0x100_0000 * s[3]
            &&& h.reserved == s[4] + 0x100 * s[5] + 0x1_0000 * s[6] + 0x100_0000 * s[7]
            &&& h.sector == s[8] + 0x100 * s[9] + 0x1_0000 * s[10] + 0x100_0000 * s[11]
                + 0x1_0000_0000 * (s[12] + 0x100 * s[13] + 0x1_0000 * s[14] + 0x100_0000 * s[15])
        },
{
    if b@.len() >= 16 {
        let s = b@;
        assert(s.skip(4)[0] == s[4] && s.skip(4)[1] == s[5] && s.skip(4)[2] == s[6] && s.skip(4)[3]
            == s[7]);
        let t = s.skip(8);
        assert(t[0] == s[8] && t[1] == s[9] && t[2] == s[10] && t[3] == s[11]);
        assert(t.skip(4)[0] == s[12] && t.skip(4)[1] == s[13] && t.skip(4)[2] == s[14] && t.skip(
            4,
        )[3] == s[15]);
    }
}

/// An image has the sectors that fit into it whole, and each starts where those before it end,
/// as far as 64 bits can say it.
pub proof fn sectors_are_counted(len: u64, n: u64, sector: u64, at: Option<u64>)
    requires
        call_ensures(capacity_of, (len,), n),
        call_ensures(sector_offset, (sector,), at),
    ensures
        512 * n <= len < 512 * (n + 1),
        at matches Some(a) ==> a == 512 * sector,
        at is None <==> 512 * sector > u64::MAX,
{
}

/// How many whole sectors an image of `len` bytes has.
pub fn capacity_of(len: u64) -> (r: u64)
    ensures
        r == len as int / 512,
{
    len / SECTOR_SIZE
}

/// Where a sector starts in the image, where 64 bits can say it.
pub fn sector_offset(sector: u64) -> (r: Option<u64>)
    ensures
        r == if sector * 512 <= u64::MAX {
            Some((sector * 512) as u64)
        } else {
            None
        },
{
    sector.checked_mul(SECTOR_SIZE)
}

} // verus!
