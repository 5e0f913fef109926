//! Fixed-width little-endian (and one big-endian) integers as byte sequences.

use vstd::prelude::*;

verus! {

/// The two bytes of `v`, least significant first.
pub open spec fn le16(v: u16) -> Seq<u8> {
    seq![(v % 0x100) as u8, (v / 0x100) as u8]
}

/// The four bytes of `v`, least significant first.
pub open spec fn le32(v: u32) -> Seq<u8> {
    seq![
        (v % 0x100) as u8,
        (v / 0x100 % 0x100) as u8,
        (v / 0x1_0000 % 0x100) as u8,
        (v / 0x100_0000) as u8,
    ]
}

/// The eight bytes of `v`, least significant first.
pub open spec fn le64(v: u64) -> Seq<u8> {
    le32((v % 0x1_0000_0000) as u32) + le32((v / 0x1_0000_0000) as u32)
}

/// The four bytes of `v`, most significant first.
pub open spec fn be32(v: u32) -> Seq<u8> {
    le32(v).reverse()
}

/// The number whose little-endian form is the first two bytes of `b`.
pub open spec fn u16_of(b: Seq<u8>) -> u16 {
    (b[0] + 0x100 * b[1]) as u16
}

/// The number whose little-endian form is the first four bytes of `b`.
pub open spec fn u32_of(b: Seq<u8>) -> u32 {
    (b[0] + 0x100 * b[1] + 0x1_0000 * b[2] + 0x100_0000 * b[3]) as u32
}

/// The number whose little-endian form is the first eight bytes of `b`.
pub open spec fn u64_of(b: Seq<u8>) -> u64 {
    (u32_of(b) + 0x1_0000_0000 * u32_of(b.skip(4))) as u64
}

/// `s` with `b` written over it at `off`.
pub open spec fn write_at(s: Seq<u8>, off: int, b: Seq<u8>) -> Seq<u8> {
    Seq::new(s.len(), |i: int| if off <= i < off + b.len() { b[i - off] } else { s[i] })
}

/// `n` zero bytes.
pub open spec fn zeros(n: nat) -> Seq<u8> {
    Seq::new(n, |i: int| 0u8)
}

/// Decoding the two bytes of a number gives the number back.
pub proof fn le16_roundtrip(v: u16)
    ensures
        u16_of(le16(v)) == v,
{
}

/// Decoding the four bytes of a number gives the number back.
pub proof fn le32_roundtrip(v: u32)
    ensures
        u32_of(le32(v)) == v,
{
}

/// Decoding the eight bytes of a number gives the number back.
pub proof fn le64_roundtrip(v: u64)
    ensures
        u64_of(le64(v)) == v,
{
    let lo: u32 = (v % 0x1_0000_0000) as u32;
    let hi: u32 = (v / 0x1_0000_0000) as u32;
    le32_roundtrip(lo);
    le32_roundtrip(hi);
    assert(le64(v).skip(4) =~= le32(hi));
    assert(u32_of(le64(v)) == u32_of(le32(lo)));
}

/// Byte `i` of a number counts 256 to the power `i`: in memory the number is the sum of its bytes,
/// so weighed. On the wire, most significant first, the weights run the other way.
pub proof fn bytes_weigh(a: u16, b: u32, c: u64)
    ensures
        le16(a).len() == 2 && le32(b).len() == 4 && le64(c).len() == 8 && be32(b).len() == 4,
        a == le16(a)[0] + 0x100 * le16(a)[1],
        b == le32(b)[0] + 0x100 * le32(b)[1] + 0x1_0000 * le32(b)[2] + 0x100_0000 * le32(b)[3],
        c == le64(c)[0] + 0x100 * le64(c)[1] + 0x1_0000 * le64(c)[2] + 0x100_0000 * le64(c)[3]
            + 0x1_0000_0000 * le64(c)[4] + 0x100_0000_0000 * le64(c)[5] + 0x1_0000_0000_0000
            * le64(c)[6] + 0x100_0000_0000_0000 * le64(c)[7],
        b == 0x100_0000 * be32(b)[0] + 0x1_0000 * be32(b)[1] + 0x100 * be32(b)[2] + be32(b)[3],
{
    let lo: u32 = (c % 0x1_0000_0000) as u32;
    let hi: u32 = (c / 0x1_0000_0000) as u32;
    le32_roundtrip(b);
    le32_roundtrip(lo);
    le32_roundtrip(hi);
    assert(le64(c)[4] == le32(hi)[0] && le64(c)[5] == le32(hi)[1] && le64(c)[6] == le32(hi)[2]
        && le64(c)[7] == le32(hi)[3]);
    assert(le64(c)[0] == le32(lo)[0] && le64(c)[1] == le32(lo)[1] && le64(c)[2] == le32(lo)[2]
        && le64(c)[3] == le32(lo)[3]);
    assert(c == lo + 0x1_0000_0000 * hi);
}

/// What bytes decode to is the sum of them, each weighed by its place.
pub proof fn decoding_weighs(s: Seq<u8>)
    requires
        s.len() >= 8,
    ensures
        u16_of(s) == s[0] + 0x100 * s[1],
        u32_of(s) == s[0] + 0x100 * s[1] + 0x1_0000 * s[2] + 0x100_0000 * s[3],
        u64_of(s) == s[0] + 0x100 * s[1] + 0x1_0000 * s[2] + 0x100_0000 * s[3] + 0x1_0000_0000
            * s[4] + 0x100_0000_0000 * s[5] + 0x1_0000_0000_0000 * s[6] + 0x100_0000_0000_0000
            * s[7],
{
    assert(s.skip(4)[0] == s[4] && s.skip(4)[1] == s[5] && s.skip(4)[2] == s[6] && s.skip(4)[3]
        == s[7]);
}

/// Writing bytes over others puts them there, in order, and touches nothing else.
pub proof fn write_at_places(s: Seq<u8>, off: int, b: Seq<u8>)
    requires
        0 <= off,
        off + b.len() <= s.len(),
    ensures
        write_at(s, off, b) == s.take(off) + b + s.skip(off + b.len()),
{
    assert(write_at(s, off, b) =~= s.take(off) + b + s.skip(off + b.len()));
}

/// Two bytes are the little-endian form of the number they decode to.
pub proof fn u16_roundtrip(b: Seq<u8>)
    requires
        b.len() == 2,
    ensures
        le16(u16_of(b)) == b,
{
    assert(le16(u16_of(b)) =~= b);
}

/// Four bytes are the little-endian form of the number they decode to.
pub proof fn u32_roundtrip(b: Seq<u8>)
    requires
        b.len() == 4,
    ensures
        le32(u32_of(b)) == b,
{
    let w2: int = b[2] + 0x100 * b[3];
    let w1: int = b[1] + 0x100 * w2;
    let v: int = b[0] + 0x100 * w1;
    assert(v == u32_of(b));
    assert(v / 0x100 == w1 && v % 0x100 == b[0]);
    assert(v / 0x1_0000 == w2 && w1 % 0x100 == b[1]);
    assert(v / 0x100_0000 == b[3] && w2 % 0x100 == b[2]);
    assert(le32(u32_of(b)) =~= b);
}

/// The bytes of `v`, least significant first.
pub fn to_le16(v: u16) -> (r: [u8; 2])
    ensures
        r@ == le16(v),
{
    let r: [u8; 2] = [(v % 0x100) as u8, (v / 0x100) as u8];
    assert(r@ =~= le16(v));
    r
}

/// The bytes of `v`, least significant first.
pub fn to_le32(v: u32) -> (r: [u8; 4])
    ensures
        r@ == le32(v),
{
    let r: [u8; 4] = [
        (v % 0x100) as u8,
        (v / 0x100 % 0x100) as u8,
        (v / 0x1_0000 % 0x100) as u8,
        (v / 0x100_0000) as u8,
    ];
    assert(r@ =~= le32(v));
    r
}

/// The bytes of `v`, least significant first.
pub fn to_le64(v: u64) -> (r: [u8; 8])
    ensures
        r@ == le64(v),
{
    let lo = to_le32((v % 0x1_0000_0000) as u32);
    let hi = to_le32((v / 0x1_0000_0000) as u32);
    let r: [u8; 8] = [lo[0], lo[1], lo[2], lo[3], hi[0], hi[1], hi[2], hi[3]];
    assert(r@ =~= le64(v));
    r
}

/// The bytes of `v`, most significant first.
pub fn to_be32(v: u32) -> (r: [u8; 4])
    ensures
        r@ == be32(v),
{
    let b = to_le32(v);
    let r: [u8; 4] = [b[3], b[2], b[1], b[0]];
    assert(r@ =~= be32(v));
    r
}

/// Decodes the first two bytes of `b`.
pub fn from_le16(b: &[u8]) -> (r: u16)
    requires
        b@.len() >= 2,
    ensures
        r == u16_of(b@),
{
    b[0] as u16 + 0x100 * (b[1] as u16)
}

/// Decodes the first four bytes of `b`.
pub fn from_le32(b: &[u8]) -> (r: u32)
    requires
        b@.len() >= 4,
    ensures
        r == u32_of(b@),
{
    b[0] as u32 + 0x100 * (b[1] as u32) + 0x1_0000 * (b[2] as u32) + 0x100_0000 * (b[3] as u32)
}

/// Decodes the first eight bytes of `b`.
pub fn from_le64(b: &[u8]) -> (r: u64)
    requires
        b@.len() >= 8,
    ensures
        r == u64_of(b@),
{
    let lo = from_le32(b);
    let hi = from_le32(vstd::slice::slice_subrange(b, 4, b.len()));
    assert(b@.subrange(4, b@.len() as int) =~= b@.skip(4));
    lo as u64 + 0x1_0000_0000 * (hi as u64)
}

/// Decodes four bytes, most significant first.
pub fn from_be32(b: &[u8; 4]) -> (r: u32)
    ensures
        r == u32_of(b@.reverse()),
{
    b[3] as u32 + 0x100 * (b[2] as u32) + 0x1_0000 * (b[1] as u32) + 0x100_0000 * (b[0] as u32)
}

/// Copies `b` over `buf` at `off`.
pub fn put_bytes(buf: &mut [u8], off: usize, b: &[u8])
    requires
        off + b@.len() <= old(buf)@.len(),
    ensures
        final(buf)@ == write_at(old(buf)@, off as int, b@),
{
    let n: usize = buf.len();
    let mut i: usize = 0;
    while i < b.len()
        invariant
            i <= b@.len(),
            n == old(buf)@.len(),
            off + b@.len() <= n,
            buf@ == write_at(old(buf)@, off as int, b@.take(i as int)),
        decreases b@.len() - i,
    {
        buf[off + i] = b[i];
        i += 1;
        assert(buf@ =~= write_at(old(buf)@, off as int, b@.take(i as int)));
    }
    assert(b@.take(b@.len() as int) =~= b@);
}

/// Writes `v` at `off`, little-endian.
pub fn put_u16(buf: &mut [u8], off: usize, v: u16)
    requires
        off + 2 <= old(buf)@.len(),
    ensures
        final(buf)@ == write_at(old(buf)@, off as int, le16(v)),
{
    let b = to_le16(v);
    put_bytes(buf, off, &b);
}

/// Writes `v` at `off`, little-endian.
pub fn put_u32(buf: &mut [u8], off: usize, v: u32)
    requires
        off + 4 <= old(buf)@.len(),
    ensures
        final(buf)@ == write_at(old(buf)@, off as int, le32(v)),
{
    let b = to_le32(v);
    put_bytes(buf, off, &b);
}

/// Writes `v` at `off`, little-endian.
pub fn put_u64(buf: &mut [u8], off: usize, v: u64)
    requires
        off + 8 <= old(buf)@.len(),
    ensures
        final(buf)@ == write_at(old(buf)@, off as int, le64(v)),
{
    let b = to_le64(v);
    put_bytes(buf, off, &b);
}

/// Appends `b` to `v`.
pub fn push_bytes(v: &mut Vec<u8>, b: &[u8])
    ensures
        final(v)@ == old(v)@ + b@,
{
    v.extend_from_slice(b);
    assert(v@ =~= old(v)@ + b@);
}

/// Sets every byte of `buf` to `v`.
pub fn fill(buf: &mut [u8], v: u8)
    ensures
        final(buf)@ == Seq::new(old(buf)@.len(), |i: int| v),
{
    let n: usize = buf.len();
    let mut i: usize = 0;
    while i < n
        invariant
            i <= n,
            n == buf@.len(),
            n == old(buf)@.len(),
            forall|j: int| 0 <= j < i ==> buf@[j] == v,
        decreases n - i,
    {
        buf[i] = v;
        i += 1;
    }
    assert(buf@ =~= Seq::new(old(buf)@.len(), |i: int| v));
}

/// `v`, then zeros: `n` bytes in all.
pub open spec fn lead(v: u8, n: nat) -> Seq<u8> {
    Seq::new(
        n,
        |i: int|
            if i == 0 {
                v
            } else {
                0
            },
    )
}

/// Sets the first byte of `buf` to `v` and the others to zero.
pub fn fill_lead(buf: &mut [u8], v: u8)
    ensures
        final(buf)@ == lead(v, old(buf)@.len()),
{
    fill(buf, 0);
    if buf.len() > 0 {
        buf[0] = v;
    }
    assert(buf@ =~= lead(v, old(buf)@.len()));
}

/// A vector of `n` zero bytes.
pub fn zero_vec(n: usize) -> (v: Vec<u8>)
    ensures
        v@ == zeros(n as nat),
{
    let v: Vec<u8> = vec![0u8; n];
    assert(v@ =~= zeros(n as nat));
    v
}

} // verus!
