//! What a guest finds in its memory, byte by byte and address by address, when it starts.

use vstd::prelude::*;

use super::boot;
use crate::boot::linux;
use crate::boot::linux::{BootError, BootInfo, E820Entry, FbInfo, KernelImage};
use crate::boot::mptable;
use crate::bytes;
use crate::devices::fb::FbGeometry;
use crate::devices::virtio::guest;
use crate::devices::virtio::guest::GuestMem;
use crate::hypervisor::memory;
use crate::hypervisor::memory::GuestRam;
use crate::hypervisor::traits::LongModeEntry;

verus! {

/// Where the kernel proper starts in an image: behind one boot sector and the setup sectors, of
/// which a zero in the header means four.
pub open spec fn payload_at(image: Seq<u8>) -> int {
    if image[0x1f1] == 0 {
        2560
    } else {
        512 * (image[0x1f1] + 1)
    }
}

/// Whether an image is one that can be booted: a page or more, with the header's magic word, a
/// boot protocol of 2.06 or later, and made to be loaded high.
pub open spec fn bootable(image: Seq<u8>) -> bool {
    &&& image.len() >= 4096
    &&& image[0x202] == 0x48 && image[0x203] == 0x64 && image[0x204] == 0x72 && image[0x205] == 0x53
    &&& image[0x206] + 0x100 * image[0x207] >= 0x206
    &&& image[0x211] % 2 == 1
}

/// An image is taken exactly when it can be booted; what is wrong with another is said by the
/// first thing that is wrong.
pub proof fn bootable_images_are_taken<'a>(image: &'a [u8], r: Result<KernelImage<'a>, BootError>)
    requires
        call_ensures(KernelImage::parse, (image,), r),
    ensures
        r is Ok <==> bootable(image@),
        r matches Ok(k) ==> k.bytes() == image@,
        image@.len() < 4096 ==> r == Err::<KernelImage<'a>, BootError>(
            BootError::TooSmall(image@.len() as usize),
        ),
        image@.len() >= 4096 && !(image@[0x202] == 0x48 && image@[0x203] == 0x64 && image@[0x204]
            == 0x72 && image@[0x205] == 0x53) ==> r == Err::<KernelImage<'a>, BootError>(
            BootError::BadMagic,
        ),
        r matches Err(BootError::ProtocolTooOld { major, minor }) ==> major == image@[0x207]
            && minor == image@[0x206] && minor + 0x100 * major < 0x206,
        r matches Err(BootError::NotRelocatableHigh) ==> image@[0x211] % 2 == 0,
        !(r matches Err(BootError::CmdlineTooLong(_))) && !(r matches Err(BootError::Memory(_))),
{
}

/// An image made of a boot sector, so many setup sectors and a payload has that payload as its
/// kernel.
pub proof fn kernel_is_payload<'a>(
    image: &'a [u8],
    r: Result<KernelImage<'a>, BootError>,
    pm: &[u8],
    head: Seq<u8>,
    setup: Seq<u8>,
    payload: Seq<u8>,
)
    requires
        call_ensures(KernelImage::parse, (image,), r),
        r is Ok,
        call_ensures(KernelImage::protected_mode_kernel, (&r->Ok_0,), pm),
        image@ == head + setup + payload,
        head.len() == 512,
        setup.len() == 512 * (if head[0x1f1] == 0 {
            4
        } else {
            head[0x1f1] as int
        }),
    ensures
        pm@ == payload,
{
    assert(image@[0x1f1] == head[0x1f1]);
    assert(image@.skip(head.len() as int + setup.len() as int) =~= payload);
}

/// The version that an image says it speaks, the minor one in the lower byte.
pub proof fn version_is_said<'a>(
    image: &'a [u8],
    r: Result<KernelImage<'a>, BootError>,
    v: u16,
)
    requires
        call_ensures(KernelImage::parse, (image,), r),
        r is Ok,
        call_ensures(KernelImage::version, (&r->Ok_0,), v),
    ensures
        v == image@[0x206] + 0x100 * image@[0x207],
{
}

/// Whether loading can go ahead, or ends in an error: unless the image or the command line is
/// refused, the image reaches its kernel, and the display has pixels that 32 bits can count.
pub proof fn loading_is_foreseen(image: &[u8], cmdline: &str, fb: Option<FbGeometry>, r: bool)
    requires
        call_ensures(boot::can_load, (image, cmdline, fb), r),
    ensures
        r <==> (bootable(image@) && vstd::utf8::encode_utf8(cmdline@).len() < 2048 ==> {
            &&& payload_at(image@) <= image@.len()
            &&& fb matches Some(g) ==> 0 < 4 * (g.width * g.height) < 0x1_0000_0000
        }),
{
    if let Some(g) = fb {
        assert(g.width * g.height * 4 == 4 * (g.width * g.height)) by (nonlinear_arith);
    }
}

/// The four stores of a kernel: where each goes, and how long it is.
proof fn kernel_stores(
    image: Seq<u8>,
    line: Seq<u8>,
    e820: Seq<E820Entry>,
    initrd: Option<Seq<u8>>,
    fb: Option<FbInfo>,
)
    requires
        bootable(image),
        payload_at(image) <= image.len(),
    ensures
        ({
            let list = linux::boot_stores(image, line, e820, initrd, fb);
            &&& list[0] == (0x10_0000u64, image.skip(payload_at(image)))
            &&& list[1] == (0x2_0000u64, line.push(0))
            &&& list.last() == (0x7000u64, linux::zero_page(image, e820, initrd, fb))
            &&& linux::zero_page(image, e820, initrd, fb).len() == 0x1000
            &&& initrd is None ==> list.len() == 3
            &&& initrd matches Some(rd) ==> list.len() == 4 && list[2] == (0xf00_0000u64, rd)
        }),
{
    linux::zero_page_reads_back(image, e820, initrd, fb);
}

/// The byte that the stores of a list leave at an address: that of the last store that has it.
pub open spec fn left_at(m: GuestMem, list: Seq<(u64, Seq<u8>)>, a: int) -> u8
    decreases list.len(),
{
    if list.len() == 0 {
        m[a]
    } else {
        let (gpa, b) = list.last();
        if gpa <= a < gpa + b.len() {
            b[a - gpa]
        } else {
            left_at(m, list.drop_last(), a)
        }
    }
}

/// Stores that are all accepted leave at every address what was stored there last.
pub proof fn stores_are_left(m: GuestMem, list: Seq<(u64, Seq<u8>)>, a: int)
    requires
        memory::stored_list(m, list).1,
        m.dom().contains(a),
    ensures
        memory::stored_list(m, list).0.dom() == m.dom(),
        memory::stored_list(m, list).0[a] == left_at(m, list, a),
    decreases list.len(),
{
    if list.len() > 0 {
        let last = seq![list.last()];
        let rest = list.drop_last();
        boot::stored_list_append(m, rest, last);
        assert(list =~= rest + last);
        stores_are_left(m, rest, a);
        let m1 = memory::stored_list(m, rest).0;
        let (gpa, b) = list.last();
        reveal_with_fuel(memory::stored_list, 2);
        assert(last.skip(1) =~= seq![]);
        guest::reach_law(m1, gpa as int, b.len());
        assert(b.take(b.len() as int) =~= b);
        assert(memory::stored(m1, gpa, b).dom() =~= m1.dom());
    }
}

/// Whether a guest finds its kernel, command line, initrd and boot parameters where the boot
/// protocol has them, and its other memory as it was.
pub open spec fn finds(
    m: GuestMem,
    image: Seq<u8>,
    line: Seq<u8>,
    initrd: Option<Seq<u8>>,
    page: Seq<u8>,
    r: GuestMem,
    a: int,
) -> bool {
    let kernel = image.len() - payload_at(image);
    if 0x7000 <= a < 0x8000 {
        r[a] == page[a - 0x7000]
    } else if initrd matches Some(rd) && 0xf00_0000 <= a < 0xf00_0000 + rd.len() {
        r[a] == initrd->0[a - 0xf00_0000]
    } else if 0x2_0000 <= a < 0x2_0000 + line.len() {
        r[a] == line[a - 0x2_0000]
    } else if a == 0x2_0000 + line.len() {
        r[a] == 0
    } else if 0x10_0000 <= a < 0x10_0000 + kernel {
        r[a] == image[payload_at(image) + (a - 0x10_0000)]
    } else {
        r[a] == m[a]
    }
}

/// The initrd that a guest is given is the one that was given, whole, if there was one.
pub proof fn initrd_is_whole(initrd: Option<&[u8]>)
    ensures
        initrd is None ==> linux::initrd_view(initrd) is None,
        initrd matches Some(b) ==> linux::initrd_view(initrd) == Some(b@),
{
}

/// A guest into which a kernel was loaded finds it from one mebibyte on, without the sectors in
/// front of it; its command line, with a zero behind it; its initrd; and its boot parameters.
/// Nothing else of its memory changed. It is to start 0x200 bytes into the kernel.
#[verifier::rlimit(60)]
#[verifier::spinoff_prover]
pub proof fn loaded_guest_finds(
    image: &[u8],
    cmdline: &str,
    usable: u64,
    initrd: Option<&[u8]>,
    fb: Option<FbGeometry>,
    r: Result<BootInfo, BootError>,
)
    requires
        bootable(image@) ==> payload_at(image@) <= image@.len(),
    ensures
        forall|s: &mut GuestRam| #[trigger]
            call_ensures(boot::load, (s, image, cmdline, usable, initrd, fb), r) ==> {
                let line = vstd::utf8::encode_utf8(cmdline@);
                let m = (*s).ram();
                let w = (*final(s)).ram();
                let page = linux::zero_page(
                    image@,
                    boot::memory_map(usable),
                    linux::initrd_view(initrd),
                    boot::fb_info(fb),
                );
                &&& r is Ok ==> bootable(image@) && line.len() < 2048 && w.dom() == m.dom()
                &&& r matches Ok(info) ==> info.entry_point == 0x10_0200 && info.zero_page == 0x7000
                    && info.cmdline_addr == 0x2_0000
                &&& r is Ok ==> forall|a: int| #[trigger]
                    m.dom().contains(a) ==> finds(
                        m,
                        image@,
                        line,
                        linux::initrd_view(initrd),
                        page,
                        w,
                        a,
                    )
                &&& !bootable(image@) || line.len() >= 2048 ==> r is Err && w == m
                &&& bootable(image@) && line.len() >= 2048 ==> r == Err::<BootInfo, BootError>(
                    BootError::CmdlineTooLong(line.len() as usize),
                )
            },
{
    let line = vstd::utf8::encode_utf8(cmdline@);
    let rd = linux::initrd_view(initrd);
    let e820 = boot::memory_map(usable);
    let page = linux::zero_page(image@, e820, rd, boot::fb_info(fb));
    let list = linux::boot_stores(image@, line, e820, rd, boot::fb_info(fb));
    assert((linux::image_fault(image@) is None) == bootable(image@));
    assert forall|s: &mut GuestRam| #[trigger]
        call_ensures(boot::load, (s, image, cmdline, usable, initrd, fb), r) && r is Ok implies {
        let m = (*s).ram();
        let w = (*final(s)).ram();
        &&& w.dom() == m.dom()
        &&& forall|a: int| #[trigger]
            m.dom().contains(a) ==> finds(m, image@, line, rd, page, w, a)
    } by {
        let m = (*s).ram();
        let w = (*final(s)).ram();
        kernel_stores(image@, line, e820, rd, boot::fb_info(fb));
        boot::loading_keeps_tables(m, image@, line, usable, rd, fb);
        assert(memory::stored_list(m, list) == (w, true));
        assert forall|a: int| #[trigger] m.dom().contains(a) implies finds(
            m,
            image@,
            line,
            rd,
            page,
            w,
            a,
        ) by {
            stores_are_left(m, list, a);
            left_of_kernel(m, list, image@, line, rd, page, a);
        }
    }
}

/// What the stores of a kernel leave at an address.
#[verifier::rlimit(60)]
#[verifier::spinoff_prover]
proof fn left_of_kernel(
    m: GuestMem,
    list: Seq<(u64, Seq<u8>)>,
    image: Seq<u8>,
    line: Seq<u8>,
    initrd: Option<Seq<u8>>,
    page: Seq<u8>,
    a: int,
)
    requires
        payload_at(image) <= image.len(),
        page.len() == 0x1000,
        line.len() < 2048,
        list[0] == (0x10_0000u64, image.skip(payload_at(image))),
        list[1] == (0x2_0000u64, line.push(0)),
        list.last() == (0x7000u64, page),
        initrd is None ==> list.len() == 3,
        initrd matches Some(rd) ==> list.len() == 4 && list[2] == (0xf00_0000u64, rd),
    ensures
        finds(m, image, line, initrd, page, Map::new(|x: int| true, |x: int| left_at(m, list, x)), a),
{
    reveal_with_fuel(left_at, 5);
    let l3 = list.drop_last();
    let l2 = l3.drop_last();
    let l1 = l2.drop_last();
    assert(list.len() == 4 ==> l3.last() == list[2] && l2.last() == list[1] && l1.last()
        == list[0]);
    assert(list.len() == 3 ==> l3.last() == list[1] && l2.last() == list[0]);
}

/// Whether all the bytes below `top` are there.
pub open spec fn has_below(m: GuestMem, top: int) -> bool {
    forall|a: int| 0 <= a < top ==> #[trigger] m.dom().contains(a)
}

/// A store that lies in memory that is there is accepted.
proof fn store_accepted(m: GuestMem, top: int, gpa: u64, b: Seq<u8>)
    requires
        has_below(m, top),
        gpa < top,
        gpa + b.len() <= top,
    ensures
        memory::accepted(m, gpa, b.len()),
        memory::stored(m, gpa, b).dom() == m.dom(),
        has_below(memory::stored(m, gpa, b), top),
{
    guest::reach_law(m, gpa as int, b.len());
    assert(memory::stored(m, gpa, b).dom() =~= m.dom());
    assert(m.dom().contains(gpa as int));
}

/// Stores that lie in memory that is there are all accepted.
proof fn stores_accepted(m: GuestMem, top: int, list: Seq<(u64, Seq<u8>)>)
    requires
        has_below(m, top),
        forall|i: int|
            0 <= i < list.len() ==> (#[trigger] list[i]).0 < top && list[i].0 + list[i].1.len()
                <= top,
    ensures
        memory::stored_list(m, list).1,
    decreases list.len(),
{
    if list.len() > 0 {
        store_accepted(m, top, list[0].0, list[0].1);
        let rest = list.skip(1);
        assert forall|i: int| 0 <= i < rest.len() implies (#[trigger] rest[i]).0 < top && rest[i].0
            + rest[i].1.len() <= top by {
            assert(rest[i] == list[i + 1]);
        }
        stores_accepted(memory::stored(m, list[0].0, list[0].1), top, rest);
    }
}

/// A kernel that can be booted, with a command line that is short enough, is loaded wherever its
/// memory has room for kernel and initrd.
#[verifier::rlimit(60)]
#[verifier::spinoff_prover]
pub proof fn loading_succeeds(
    image: &[u8],
    cmdline: &str,
    usable: u64,
    initrd: Option<&[u8]>,
    fb: Option<FbGeometry>,
    r: Result<BootInfo, BootError>,
    top: int,
)
    requires
        bootable(image@),
        payload_at(image@) <= image@.len(),
        vstd::utf8::encode_utf8(cmdline@).len() < 2048,
        0x10_0000 < top,
        0x10_0000 + image@.len() - payload_at(image@) <= top,
        initrd matches Some(rd) ==> 0xf00_0000 < top && 0xf00_0000 + rd@.len() <= top,
    ensures
        forall|s: &mut GuestRam| #[trigger]
            call_ensures(boot::load, (s, image, cmdline, usable, initrd, fb), r) && has_below(
                (*s).ram(),
                top,
            ) ==> r is Ok,
{
    let line = vstd::utf8::encode_utf8(cmdline@);
    let rd = linux::initrd_view(initrd);
    let e820 = boot::memory_map(usable);
    let list = linux::boot_stores(image@, line, e820, rd, boot::fb_info(fb));
    kernel_stores(image@, line, e820, rd, boot::fb_info(fb));
    assert(linux::image_fault(image@) is None);
    assert forall|s: &mut GuestRam| #[trigger]
        call_ensures(boot::load, (s, image, cmdline, usable, initrd, fb), r) && has_below(
            (*s).ram(),
            top,
        ) implies r is Ok by {
        let m = (*s).ram();
        assert forall|i: int| 0 <= i < list.len() implies (#[trigger] list[i]).0 < top && list[i].0
            + list[i].1.len() <= top by {
            assert(i == 0 || i == 1 || i == 2 || i == 3);
            if i == list.len() - 1 {
                assert(list[i] == list.last());
            }
        }
        stores_accepted(m, top, list);
    }
}

/// The memory map that a guest is told of is one region of usable memory, from zero, of the size
/// given; and a display is told of at its place, 32 bits deep.
pub proof fn guest_is_told(usable: u64, fb: Option<FbGeometry>)
    ensures
        boot::memory_map(usable).len() == 1,
        boot::memory_map(usable)[0].addr == 0,
        boot::memory_map(usable)[0].size == usable,
        boot::memory_map(usable)[0].kind == 1,
        fb matches Some(g) ==> (boot::fb_info(fb) matches Some(f) && f.base == 0xd000_0000 && f.width
            == g.width && f.height == g.height && f.bpp == 32),
        fb is None ==> boot::fb_info(fb) is None,
{
}

/// The byte at `a` of the tables that a processor and the interrupt hardware need: the boot GDT,
/// of an empty, a 64-bit code and a data descriptor; an entry each of the two upper page tables;
/// 512 pages of two mebibytes; and the MP tables of one processor.
pub open spec fn table_byte(m: GuestMem, mp: Seq<u8>, a: int) -> u8 {
    if 0x500 <= a < 0x508 {
        0
    } else if 0x508 <= a < 0x510 {
        bytes::le64(0x00af_9b00_0000_ffff)[a - 0x508]
    } else if 0x510 <= a < 0x518 {
        bytes::le64(0x00cf_9300_0000_ffff)[a - 0x510]
    } else if 0x9000 <= a < 0x9008 {
        bytes::le64(0xa003)[a - 0x9000]
    } else if 0xa000 <= a < 0xa008 {
        bytes::le64(0xb003)[a - 0xa000]
    } else if 0xb000 <= a < 0xc000 {
        bytes::le64(((a - 0xb000) / 8 * 0x20_0000 + 0x83) as u64)[(a - 0xb000) % 8]
    } else if 0xf_0000 <= a < 0xf_0000 + mp.len() {
        mp[a - 0xf_0000]
    } else {
        m[a]
    }
}

/// A machine with its first mebibyte has its tables stored there, and nothing else changes.
#[verifier::rlimit(60)]
#[verifier::spinoff_prover]
pub proof fn tables_are_stored(mp: Vec<u8>, r: Result<(), boot::BootRunError>, a: int)
    requires
        call_ensures(mptable::build, (1u8,), mp),
        0 <= a < 0x10_0000,
    ensures
        forall|s: &mut GuestRam| #[trigger]
            call_ensures(boot::write_tables, (s,), r) && has_below((*s).ram(), 0x10_0000) ==> {
                &&& r is Ok
                &&& (*final(s)).ram().dom() == (*s).ram().dom()
                &&& (*final(s)).ram()[a] == table_byte((*s).ram(), mp@, a)
            },
{
    let list = boot::table_stores();
    mptable::tables_valid(1);
    table_list();
    pages_length(512);
    assert forall|s: &mut GuestRam| #[trigger]
        call_ensures(boot::write_tables, (s,), r) && has_below((*s).ram(), 0x10_0000) implies {
        &&& r is Ok
        &&& (*final(s)).ram().dom() == (*s).ram().dom()
        &&& (*final(s)).ram()[a] == table_byte((*s).ram(), mp@, a)
    } by {
        let m = (*s).ram();
        assert forall|i: int| 0 <= i < list.len() implies (#[trigger] list[i]).0 < 0x10_0000
            && list[i].0 + list[i].1.len() <= 0x10_0000 by {
            assert(i == 0 || i == 1 || i == 2 || i == 3 || i == 4);
        }
        stores_accepted(m, 0x10_0000, list);
        assert(m.dom().contains(a));
        stores_are_left(m, list, a);
        left_of_tables(m, list, mp@, a);
    }
}

/// The five stores of the tables.
proof fn table_list()
    ensures
        ({
            let list = boot::table_stores();
            &&& list.len() == 5
            &&& list[0] == (0x500u64, memory::gdt_bytes())
            &&& list[1] == (0x9000u64, bytes::le64(0xa003))
            &&& list[2] == (0xa000u64, bytes::le64(0xb003))
            &&& list[3] == (0xb000u64, memory::large_pages(512))
            &&& list[4] == (0xf_0000u64, mptable::floating_pointer() + mptable::config_table(1))
        }),
{
    assert(0xa000u64 | 3 == 0xa003 && 0xb000u64 | 3 == 0xb003) by (bit_vector);
}

/// How long a page directory is.
proof fn pages_length(n: nat)
    ensures
        memory::large_pages(n).len() == 8 * n,
    decreases n,
{
    if n > 0 {
        pages_length((n - 1) as nat);
    }
}

/// The bytes of a page directory.
proof fn pages_bytes(n: nat, x: int)
    requires
        0 <= x < 8 * n,
        n <= 512,
    ensures
        memory::large_pages(n)[x] == bytes::le64((x / 8 * 0x20_0000 + 0x83) as u64)[x % 8],
    decreases n,
{
    let rest = (n - 1) as nat;
    pages_length(rest);
    if x < 8 * rest {
        pages_bytes(rest, x);
    } else {
        assert(x / 8 == n - 1 && x % 8 == x - 8 * rest);
    }
}

/// What the stores of the tables leave at an address.
#[verifier::rlimit(60)]
#[verifier::spinoff_prover]
proof fn left_of_tables(m: GuestMem, list: Seq<(u64, Seq<u8>)>, mp: Seq<u8>, a: int)
    requires
        list.len() == 5,
        list[0] == (0x500u64, memory::gdt_bytes()),
        list[1] == (0x9000u64, bytes::le64(0xa003)),
        list[2] == (0xa000u64, bytes::le64(0xb003)),
        list[3] == (0xb000u64, memory::large_pages(512)),
        list[4] == (0xf_0000u64, mp),
        0 <= a < 0x10_0000,
    ensures
        left_at(m, list, a) == table_byte(m, mp, a),
{
    reveal_with_fuel(left_at, 6);
    let l4 = list.drop_last();
    let l3 = l4.drop_last();
    let l2 = l3.drop_last();
    let l1 = l2.drop_last();
    assert(l4.last() == list[3] && l3.last() == list[2] && l2.last() == list[1] && l1.last()
        == list[0]);
    pages_length(512);
    if 0xb000 <= a < 0xc000 {
        pages_bytes(512, a - 0xb000);
    }
    let code = memory::descriptor(0xa09b, 0, 0xf_ffff);
    let data = memory::descriptor(0xc093, 0, 0xf_ffff);
    assert(code == 0x00af_9b00_0000_ffff && data == 0x00cf_9300_0000_ffff);
    let g = memory::gdt_bytes();
    assert(g.len() == 24);
    if 0x500 <= a < 0x518 {
        assert(bytes::le64(0)[0] == 0 && bytes::le64(0)[1] == 0 && bytes::le64(0)[2] == 0
            && bytes::le64(0)[3] == 0 && bytes::le64(0)[4] == 0 && bytes::le64(0)[5] == 0
            && bytes::le64(0)[6] == 0 && bytes::le64(0)[7] == 0);
    }
}

/// How memory is counted: mebibytes into bytes as far as addresses go, of which a guest is told
/// as much as lies below the device windows; and where a processor starts: at the kernel's entry,
/// with the boot parameters, the page tables and the descriptor table, on a stack that is
/// aligned, mapped, and a page below the end of what can be used.
pub proof fn machine_is_planned(
    mb: u64,
    size: Option<usize>,
    bytes_of: usize,
    usable: u64,
    info: &BootInfo,
    entry: LongModeEntry,
)
    requires
        call_ensures(boot::memory_size, (mb,), size),
        call_ensures(boot::usable_memory, (bytes_of,), usable),
        usable >= 0x1000,
        call_ensures(boot::long_mode_entry, (info, usable), entry),
    ensures
        size matches Some(n) ==> n == 0x10_0000 * mb,
        size is None ==> 0x10_0000 * mb > usize::MAX,
        usable <= bytes_of && usable <= 0xfe00_0000,
        usable == bytes_of || usable == 0xfe00_0000,
        entry.entry_point == info.entry_point,
        entry.boot_params == info.zero_page,
        entry.pml4_addr == 0x9000,
        entry.gdt_addr == 0x500,
        entry.stack_top % 16 == 0,
        usable < 0x4000_0000 ==> usable - 0x1000 - 16 < entry.stack_top <= usable - 0x1000,
        usable >= 0x4000_0000 ==> entry.stack_top == 0x4000_0000 - 0x1000,
{
}

} // verus!
