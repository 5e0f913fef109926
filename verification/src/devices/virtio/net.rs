//! The virtio-net packet header, and the host side of the network as the device sees it.

use vstd::prelude::*;

use crate::bytes;

verus! {

/// Length of the header in front of every packet.
pub const VIRTIO_NET_HDR_LEN: usize = 12;

/// The header's fields but for the buffer count at its end.
#[derive(Debug, Clone, Copy)]
pub struct VirtioNetHdr {
    pub flags: u8,
    pub gso_type: u8,
    pub hdr_len: u16,
    pub gso_size: u16,
    pub csum_start: u16,
    pub csum_offset: u16,
}

/// The header without any offload.
pub open spec fn plain_hdr() -> VirtioNetHdr {
    VirtioNetHdr {
        flags: 0,
        gso_type: 0,
        hdr_len: 0,
        gso_size: 0,
        csum_start: 0,
        csum_offset: 0,
    }
}

/// The header that the first twelve bytes of `b` carry.
pub open spec fn hdr_of(b: Seq<u8>) -> VirtioNetHdr {
    VirtioNetHdr {
        flags: b[0],
        gso_type: b[1],
        hdr_len: bytes::u16_of(b.skip(2)),
        gso_size: bytes::u16_of(b.skip(4)),
        csum_start: bytes::u16_of(b.skip(6)),
        csum_offset: bytes::u16_of(b.skip(8)),
    }
}

/// The twelve bytes of a header for a packet that takes one buffer chain. Each packet does,
/// as merged receive buffers are never negotiated, and a guest drops a packet that says zero.
pub open spec fn hdr_bytes(h: VirtioNetHdr) -> Seq<u8> {
    seq![h.flags, h.gso_type] + bytes::le16(h.hdr_len) + bytes::le16(h.gso_size) + bytes::le16(
        h.csum_start,
    ) + bytes::le16(h.csum_offset) + bytes::le16(1)
}

impl Default for VirtioNetHdr {
    fn default() -> (r: Self)
        ensures
            r == plain_hdr(),
    {
        VirtioNetHdr {
            flags: 0,
            gso_type: 0,
            hdr_len: 0,
            gso_size: 0,
            csum_start: 0,
            csum_offset: 0,
        }
    }
}

impl VirtioNetHdr {
    /// Decodes a header; nothing where there are too few bytes.
    pub fn parse(b: &[u8]) -> (r: Option<Self>)
        ensures
            r == if b@.len() < VIRTIO_NET_HDR_LEN {
                None
            } else {
                Some(hdr_of(b@))
            },
    {
        if b.len() < VIRTIO_NET_HDR_LEN {
            return None;
        }
        Some(
            VirtioNetHdr {
                flags: b[0],
                gso_type: b[1],
                hdr_len: bytes::from_le16(&[b[2], b[3]]),
                gso_size: bytes::from_le16(&[b[4], b[5]]),
                csum_start: bytes::from_le16(&[b[6], b[7]]),
                csum_offset: bytes::from_le16(&[b[8], b[9]]),
            },
        )
    }
}

/// A header of twelve bytes is written and read field by field; the last two say one chain.
pub proof fn header_layout(h: &VirtioNetHdr, r: [u8; 12], b: &[u8], got: Option<VirtioNetHdr>)
    requires
        call_ensures(encode_net_hdr, (h,), r),
        call_ensures(VirtioNetHdr::parse, (b,), got),
    ensures
        r@[0] == h.flags && r@[1] == h.gso_type,
        r@[2] + 0x100 * r@[3] == h.hdr_len,
        r@[4] + 0x100 * r@[5] == h.gso_size,
        r@[6] + 0x100 * r@[7] == h.csum_start,
        r@[8] + 0x100 * r@[9] == h.csum_offset,
        r@[10] == 1 && r@[11] == 0,
        got is Some <==> b@.len() >= 12,
        got matches Some(g) ==> {
            &&& g.flags == b@[0] && g.gso_type == b@[1]
            &&& g.hdr_len == b@[2] + 0x100 * b@[3]
            &&& g.gso_size == b@[4] + 0x100 * b@[5]
            &&& g.csum_start == b@[6] + 0x100 * b@[7]
            &&& g.csum_offset == b@[8] + 0x100 * b@[9]
        },
{
    bytes::bytes_weigh(h.hdr_len, 0, 0);
    bytes::bytes_weigh(h.gso_size, 0, 0);
    bytes::bytes_weigh(h.csum_start, 0, 0);
    bytes::bytes_weigh(h.csum_offset, 0, 0);
    if b@.len() >= 12 {
        let s = b@;
        assert(s.skip(2)[0] == s[2] && s.skip(2)[1] == s[3] && s.skip(4)[0] == s[4] && s.skip(4)[1]
            == s[5] && s.skip(6)[0] == s[6] && s.skip(6)[1] == s[7] && s.skip(8)[0] == s[8]
            && s.skip(8)[1] == s[9]);
    }
}

/// Encodes a header.
pub fn encode_net_hdr(h: &VirtioNetHdr) -> (r: [u8; 12])
    ensures
        r@ == hdr_bytes(*h),
{
    let a = bytes::to_le16(h.hdr_len);
    let b = bytes::to_le16(h.gso_size);
    let c = bytes::to_le16(h.csum_start);
    let d = bytes::to_le16(h.csum_offset);
    let e = bytes::to_le16(1);
    let r: [u8; 12] = [
        h.flags,
        h.gso_type,
        a[0],
        a[1],
        b[0],
        b[1],
        c[0],
        c[1],
        d[0],
        d[1],
        e[0],
        e[1],
    ];
    assert(r@ =~= hdr_bytes(*h));
    r
}

/// A header that was encoded decodes to itself.
pub proof fn hdr_roundtrip(h: VirtioNetHdr)
    ensures
        hdr_bytes(h).len() == VIRTIO_NET_HDR_LEN,
        hdr_of(hdr_bytes(h)) == h,
{
    let b = hdr_bytes(h);
    bytes::le16_roundtrip(h.hdr_len);
    bytes::le16_roundtrip(h.gso_size);
    bytes::le16_roundtrip(h.csum_start);
    bytes::le16_roundtrip(h.csum_offset);
    assert(b.skip(2)[0] == bytes::le16(h.hdr_len)[0] && b.skip(2)[1] == bytes::le16(h.hdr_len)[1]);
    assert(b.skip(4)[0] == bytes::le16(h.gso_size)[0] && b.skip(4)[1] == bytes::le16(h.gso_size)[1]);
    assert(b.skip(6)[0] == bytes::le16(h.csum_start)[0] && b.skip(6)[1] == bytes::le16(
        h.csum_start,
    )[1]);
    assert(b.skip(8)[0] == bytes::le16(h.csum_offset)[0] && b.skip(8)[1] == bytes::le16(
        h.csum_offset,
    )[1]);
}

/// An input or output error of the operating system, carried through unread.
#[verifier::external_type_specification]
#[verifier::external_body]
pub struct ExIoError(std::io::Error);

/// Host-side network backend, such as a tap device.
pub trait NetBackend: Sized {
    /// Whether sending `frame` may leave the backend as `post`. Unless an implementer says more,
    /// it may be so.
    open spec fn transmits(&self, frame: Seq<u8>, post: &Self) -> bool {
        true
    }

    /// Whether polling may give `r` and leave the backend as `post`. Unless an implementer says
    /// more, it may be so.
    open spec fn receives(&self, r: std::io::Result<Option<Vec<u8>>>, post: &Self) -> bool {
        true
    }

    /// Sends a frame that the guest produced onto the host network.
    fn transmit(&mut self, frame: &[u8]) -> (r: std::io::Result<()>)
        ensures
            old(self).transmits(frame@, final(self)),
    ;

    /// Polls for a frame from the host, if there is one.
    fn receive(&mut self) -> (r: std::io::Result<Option<Vec<u8>>>)
        ensures
            old(self).receives(r, final(self)),
    ;
}

} // verus!
