//! What a kernel reads in its boot parameters, field by field.

use vstd::prelude::*;

use super::linux;
use super::linux::{E820Entry, FbInfo};
use crate::bytes;

verus! {

/// The number that the two bytes at `at` make.
pub open spec fn half_at(s: Seq<u8>, at: int) -> int {
    s[at] + 0x100 * s[at + 1]
}

/// The number that the four bytes at `at` make.
pub open spec fn word_at(s: Seq<u8>, at: int) -> int {
    s[at] + 0x100 * s[at + 1] + 0x1_0000 * s[at + 2] + 0x100_0000 * s[at + 3]
}

/// The number that the eight bytes at `at` make.
pub open spec fn long_at(s: Seq<u8>, at: int) -> int {
    word_at(s, at) + 0x1_0000_0000 * word_at(s, at + 4)
}

/// Whether a byte of the setup header is one that the loader fills in: the loader's type, the
/// flags, the initrd's place and size, and the command line's place.
pub open spec fn filled_in(i: int) -> bool {
    i == 0x210 || i == 0x211 || 0x218 <= i < 0x220 || 0x228 <= i < 0x22c
}

/// Whether a byte belongs to the screen information.
pub open spec fn of_screen(i: int) -> bool {
    i == 0x0f || 0x12 <= i < 0x20 || 0x24 <= i < 0x2e || 0x36 <= i < 0x3e
}

/// Whether a byte belongs to the memory map: the legacy size, the number of regions, and the
/// regions.
pub open spec fn of_memory(i: int, n: int) -> bool {
    0x1e0 <= i < 0x1e4 || i == 0x1e8 || 0x2d0 <= i < 0x2d0 + 20 * n
}

/// The setup header is the image's own but for what the loader fills in; the loader says that
/// it is of no known type, that there is a heap, where the command line is, and where the initrd
/// is and how large, or that there is none.
#[verifier::rlimit(60)]
#[verifier::spinoff_prover]
pub proof fn header_is_kept(
    image: Seq<u8>,
    e820: Seq<E820Entry>,
    initrd: Option<Seq<u8>>,
    fb: Option<FbInfo>,
    i: int,
)
    requires
        image.len() >= 4096,
        0 <= i < 0x1000,
    ensures
        ({
            let page = linux::zero_page(image, e820, initrd, fb);
            &&& page.len() == 0x1000
            &&& 0x1f1 <= i < 0x268 && !filled_in(i) ==> page[i] == image[i]
            &&& page[0x210] == 0xff
            &&& page[0x211] >= 128 && page[0x211] % 128 == image[0x211] % 128
            &&& word_at(page, 0x228) == 0x2_0000
            &&& initrd matches Some(rd) ==> word_at(page, 0x218) == 0xf00_0000 && word_at(
                page,
                0x21c,
            ) == rd.len() % 0x1_0000_0000
            &&& initrd is None ==> word_at(page, 0x218) == 0 && word_at(page, 0x21c) == 0
        }),
{
    linux::zero_page_reads_back(image, e820, initrd, fb);
    let page = linux::zero_page(image, e820, initrd, fb);
    let f = image[0x211];
    assert(f | 0x80u8 >= 128 && (f | 0x80u8) % 128 == f % 128) by (bit_vector);
    skipped(page, 0x228);
    skipped(page, 0x218);
    skipped(page, 0x21c);
    if initrd is None {
        let z = page.subrange(0x218, 0x220);
        assert forall|k: int| 0x218 <= k < 0x220 implies #[trigger] page[k] == 0 by {
            assert(z[k - 0x218] == page[k]);
        }
    }
    if 0x1f1 <= i < 0x268 {
        let h = linux::with_header(image);
        let d = linux::with_initrd(h, initrd);
        linux::memory_map_is_apart(d, e820, i);
    }
}

/// Reading a word behind skipped bytes is reading it where it stands.
proof fn skipped(s: Seq<u8>, at: int)
    requires
        0 <= at,
        at + 4 <= s.len(),
    ensures
        bytes::u32_of(s.skip(at)) == word_at(s, at),
{
    let t = s.skip(at);
    assert(t[0] == s[at] && t[1] == s[at + 1] && t[2] == s[at + 2] && t[3] == s[at + 3]);
}

/// The memory map lists the regions in order, each with its address, size and kind, up to 128 of
/// them; the sentinel in front of the header is clear.
#[verifier::rlimit(60)]
#[verifier::spinoff_prover]
pub proof fn regions_are_listed(
    image: Seq<u8>,
    e820: Seq<E820Entry>,
    initrd: Option<Seq<u8>>,
    fb: Option<FbInfo>,
    j: int,
)
    requires
        image.len() >= 4096,
        0 <= j < e820.len(),
        j < 128,
    ensures
        ({
            let page = linux::zero_page(image, e820, initrd, fb);
            let at = 0x2d0 + 20 * j;
            &&& page[0x1ef] == 0
            &&& page[0x1e8] == if e820.len() < 128 {
                e820.len() as int
            } else {
                128
            }
            &&& long_at(page, at) == e820[j].addr
            &&& long_at(page, at + 8) == e820[j].size
            &&& word_at(page, at + 16) == e820[j].kind
        }),
{
    linux::zero_page_reads_back(image, e820, initrd, fb);
    let page = linux::zero_page(image, e820, initrd, fb);
    let at = 0x2d0 + 20 * j;
    let e = e820[j];
    let b = linux::e820_bytes(e);
    let got = page.subrange(at, at + 20);
    assert(got == b);
    bytes::bytes_weigh(0, e.kind, e.addr);
    bytes::bytes_weigh(0, e.kind, e.size);
    assert forall|k: int| 0 <= k < 20 implies #[trigger] b[k] == page[at + k] by {
        assert(got[k] == page[at + k]);
    }
    assert(b[0] == bytes::le64(e.addr)[0] && b[1] == bytes::le64(e.addr)[1] && b[2]
        == bytes::le64(e.addr)[2] && b[3] == bytes::le64(e.addr)[3] && b[4]
        == bytes::le64(e.addr)[4] && b[5] == bytes::le64(e.addr)[5] && b[6]
        == bytes::le64(e.addr)[6] && b[7] == bytes::le64(e.addr)[7]);
    assert(b[8] == bytes::le64(e.size)[0] && b[9] == bytes::le64(e.size)[1] && b[10]
        == bytes::le64(e.size)[2] && b[11] == bytes::le64(e.size)[3] && b[12]
        == bytes::le64(e.size)[4] && b[13] == bytes::le64(e.size)[5] && b[14]
        == bytes::le64(e.size)[6] && b[15] == bytes::le64(e.size)[7]);
    assert(b[16] == bytes::le32(e.kind)[0] && b[17] == bytes::le32(e.kind)[1] && b[18]
        == bytes::le32(e.kind)[2] && b[19] == bytes::le32(e.kind)[3]);
}

/// Whether `top` is where usable memory ends: no region of it goes further, and one goes that
/// far, or there is none.
pub open spec fn ends_at(e820: Seq<E820Entry>, top: int) -> bool {
    &&& forall|i: int|
        0 <= i < e820.len() && (#[trigger] e820[i]).kind == 1 ==> e820[i].addr + e820[i].size <= top
    &&& top == 0 || exists|i: int|
        0 <= i < e820.len() && (#[trigger] e820[i]).kind == 1 && e820[i].addr + e820[i].size == top
}

/// The legacy size says how many kibibytes of usable memory lie above the first mebibyte, as far
/// as 32 bits can.
pub proof fn legacy_size_is_said(
    image: Seq<u8>,
    e820: Seq<E820Entry>,
    initrd: Option<Seq<u8>>,
    fb: Option<FbInfo>,
    top: int,
)
    requires
        image.len() >= 4096,
        ends_at(e820, top),
    ensures
        ({
            let said = word_at(linux::zero_page(image, e820, initrd, fb), 0x1e0);
            &&& top < 0x10_0000 ==> said == 0
            &&& 0x10_0000 <= top && (top - 0x10_0000) / 1024 <= 0xffff_ffff ==> said == (top
                - 0x10_0000) / 1024
            &&& (top - 0x10_0000) / 1024 > 0xffff_ffff ==> said == 0xffff_ffff
        }),
{
    linux::zero_page_reads_back(image, e820, initrd, fb);
    skipped(linux::zero_page(image, e820, initrd, fb), 0x1e0);
    top_is_end(e820);
    let t = linux::ram_top(e820);
    if t != top {
        if t < top {
            let i = choose|i: int|
                0 <= i < e820.len() && (#[trigger] e820[i]).kind == 1 && e820[i].addr
                    + e820[i].size == top;
            assert(e820[i].addr + e820[i].size <= t);
        }
    }
}

/// What is taken for the end of usable memory is its end.
proof fn top_is_end(e820: Seq<E820Entry>)
    ensures
        ends_at(e820, linux::ram_top(e820)),
        linux::ram_top(e820) >= 0,
    decreases e820.len(),
{
    if e820.len() > 0 {
        let rest = e820.drop_last();
        top_is_end(rest);
        let t = linux::ram_top(e820);
        let r = linux::ram_top(rest);
        assert forall|i: int| 0 <= i < e820.len() && (#[trigger] e820[i]).kind == 1 implies e820[i].addr
            + e820[i].size <= t by {
            if i < rest.len() {
                assert(rest[i] == e820[i]);
            }
        }
        if t != 0 {
            if t == r {
                let i = choose|i: int|
                    0 <= i < rest.len() && (#[trigger] rest[i]).kind == 1 && rest[i].addr
                        + rest[i].size == r;
                assert(e820[i] == rest[i]);
            } else {
                assert(e820[e820.len() - 1].addr + e820[e820.len() - 1].size == t);
            }
        }
    }
}

/// A display is described as a linear framebuffer: where it is, how wide, high and deep, how long
/// a line and how large the whole, and that blue, green and red come eight bits each from the
/// lowest on.
#[verifier::rlimit(60)]
#[verifier::spinoff_prover]
pub proof fn screen_is_described(
    image: Seq<u8>,
    e820: Seq<E820Entry>,
    initrd: Option<Seq<u8>>,
    f: FbInfo,
)
    requires
        image.len() >= 4096,
        f.line() <= u32::MAX,
        f.total() <= u32::MAX,
    ensures
        ({
            let page = linux::zero_page(image, e820, initrd, Some(f));
            &&& page[0x0f] == 0x23
            &&& half_at(page, 0x12) == f.width % 0x1_0000
            &&& half_at(page, 0x14) == f.height % 0x1_0000
            &&& half_at(page, 0x16) == f.bpp % 0x1_0000
            &&& word_at(page, 0x18) == f.base % 0x1_0000_0000
            &&& word_at(page, 0x1c) == f.width * (f.bpp as int / 8) * f.height
            &&& half_at(page, 0x24) == (f.width * (f.bpp as int / 8)) % 0x1_0000
            &&& page.subrange(0x26, 0x2e) == seq![8u8, 16, 8, 8, 8, 0, 8, 24]
        }),
{
    linux::zero_page_reads_back(image, e820, initrd, Some(f));
    let d = linux::with_initrd(linux::with_header(image), initrd);
    let z = linux::with_memory(d, e820);
    linux::memory_map_is_apart(d, e820, 0);
    assert(z.len() == 0x1000);
    let page = linux::with_screen(z, Some(f));
    assert(0 <= f.line() && 0 <= f.total()) by {
        assert(0 <= f.width * (f.bpp as int / 8)) by (nonlinear_arith)
            requires
                0 <= f.width,
                0 <= f.bpp as int / 8,
        ;
        assert(0 <= f.line() * f.height) by (nonlinear_arith)
            requires
                0 <= f.line(),
                0 <= f.height,
        ;
    }
    bytes::bytes_weigh((f.width % 0x1_0000) as u16, (f.base % 0x1_0000_0000) as u32, 0);
    bytes::bytes_weigh((f.height % 0x1_0000) as u16, f.total() as u32, 0);
    bytes::bytes_weigh((f.bpp % 0x1_0000) as u16, 0, 0);
    bytes::bytes_weigh((f.line() % 0x1_0000) as u16, 0, 0);
    assert(page.subrange(0x26, 0x2e) =~= seq![8u8, 16, 8, 8, 8, 0, 8, 24]);
}

/// Every other byte of the boot parameters is zero.
pub proof fn rest_is_zero(
    image: Seq<u8>,
    e820: Seq<E820Entry>,
    initrd: Option<Seq<u8>>,
    fb: Option<FbInfo>,
    i: int,
)
    requires
        image.len() >= 4096,
        0 <= i < 0x1000,
        !(0x1f1 <= i < 0x268),
        !of_memory(
            i,
            if e820.len() < 128 {
                e820.len() as int
            } else {
                128
            },
        ),
        fb is Some ==> !of_screen(i),
    ensures
        linux::zero_page(image, e820, initrd, fb)[i] == 0,
{
    let d = linux::with_initrd(linux::with_header(image), initrd);
    linux::memory_map_is_apart(d, e820, i);
}

} // verus!
