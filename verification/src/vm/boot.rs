//! How a machine is made ready to run: how much memory it has and where, what its guest finds
//! in it, and where its processor starts.

use vstd::prelude::*;

use super::framebuffer::{describable, FbError};
use crate::boot::layout;
use crate::boot::linux;
use crate::boot::linux::{BootError, BootInfo, E820Entry, FbInfo};
use crate::boot::mptable;
use crate::devices::bus::BusError;
use crate::devices::fb::FbGeometry;
use crate::devices::virtio::block::BlockError;
use crate::devices::virtio::guest;
use crate::devices::virtio::guest::GuestMem;
use crate::hypervisor::memory;
use crate::hypervisor::memory::GuestRam;
use crate::hypervisor::paging;
use crate::hypervisor::traits::{HypervisorError, LongModeEntry};
use crate::text;

verus! {

/// The hardware address of a machine's network card.
pub const NET_MAC: [u8; 6] = [0x52, 0x54, 0x00, 0x12, 0x34, 0x56];

/// Why a machine did not start.
#[derive(Debug)]
pub enum BootRunError {
    Hypervisor(HypervisorError),
    Boot(BootError),
    Bus(BusError),
    Block(BlockError),
    Framebuffer(FbError),
    Tap(std::io::Error),
    KernelRead { path: String, source: std::io::Error },
    NoKernel,
}

impl BootRunError {
    /// The error in words, `source` being those of the operating system's error behind it.
    pub open spec fn words(self, source: Seq<char>) -> Seq<char> {
        match self {
            BootRunError::Hypervisor(e) => "hypervisor: "@ + e.words(source),
            BootRunError::Boot(e) => "boot loader: "@ + e.words(),
            BootRunError::Bus(e) => "bus: "@ + e.words(),
            BootRunError::Block(e) => "block device: "@ + e.words(source),
            BootRunError::Framebuffer(e) => "framebuffer: "@ + e.words(),
            BootRunError::Tap(_) => "tap network device: "@ + source,
            BootRunError::KernelRead { path, source: _ } => "failed to read kernel image "@ + path@
                + ": "@ + source,
            BootRunError::NoKernel => "no kernel configured for this VM"@,
        }
    }

    /// The error in words, given those of the operating system's error behind it.
    pub fn message_with(&self, source: &str) -> (r: String)
        ensures
            r@ == self.words(source@),
    {
        match self {
            BootRunError::Hypervisor(e) => text::join2(
                "hypervisor: ",
                e.message_with(source).as_str(),
            ),
            BootRunError::Boot(e) => text::join2("boot loader: ", e.message().as_str()),
            BootRunError::Bus(e) => text::join2("bus: ", e.message().as_str()),
            BootRunError::Block(e) => text::join2(
                "block device: ",
                e.message_with(source).as_str(),
            ),
            BootRunError::Framebuffer(e) => text::join2("framebuffer: ", e.message().as_str()),
            BootRunError::Tap(_) => text::join2("tap network device: ", source),
            BootRunError::KernelRead { path, source: _ } => {
                let head = text::join3("failed to read kernel image ", path.as_str(), ": ");
                text::join2(head.as_str(), source)
            },
            BootRunError::NoKernel => text::plain("no kernel configured for this VM"),
        }
    }
}

/// How many bytes `memory_mb` MiB are, where that can be said.
pub fn memory_size(memory_mb: u64) -> (r: Option<usize>)
    ensures
        r == if memory_mb * 0x10_0000 <= usize::MAX {
            Some((memory_mb * 0x10_0000) as usize)
        } else {
            None
        },
{
    if memory_mb > usize::MAX as u64 / 0x10_0000 {
        None
    } else {
        Some((memory_mb * 0x10_0000) as usize)
    }
}

/// How much of `size` bytes of memory a guest is told of: what lies below the device windows.
pub open spec fn usable_of(size: int) -> int {
    if size < layout::VIRTIO_MMIO_BASE {
        size
    } else {
        layout::VIRTIO_MMIO_BASE as int
    }
}

/// How much of `size` bytes of memory a guest is told of.
pub fn usable_memory(size: usize) -> (r: u64)
    ensures
        r == usable_of(size as int),
{
    if (size as u64) < layout::VIRTIO_MMIO_BASE {
        size as u64
    } else {
        layout::VIRTIO_MMIO_BASE
    }
}

/// The top of the first stack: high in the memory that is usable and that the boot page tables
/// map, a page below its end, on a multiple of sixteen.
pub open spec fn stack_top_of(usable: int) -> int {
    ((if usable < 0x4000_0000 {
        usable
    } else {
        0x4000_0000
    }) - 0x1000) / 16 * 16
}

/// The top of the first stack.
pub fn stack_top(usable: u64) -> (r: u64)
    requires
        usable >= 0x1000,
    ensures
        r == stack_top_of(usable as int),
{
    let top: u64 = if usable < 0x4000_0000 {
        usable
    } else {
        0x4000_0000
    };
    (top - 0x1000) / 16 * 16
}

/// The stack of a machine with at least 16 MiB lies in mapped memory above every boot structure
/// and the start of the kernel, and is aligned.
pub proof fn stack_clear(usable: int)
    requires
        0x100_0000 <= usable,
    ensures
        stack_top_of(usable) % 16 == 0,
        layout::HIGH_RAM_START < stack_top_of(usable),
        stack_top_of(usable) < usable,
        stack_top_of(usable) < 0x4000_0000,
{
}

/// What a guest's processor and interrupt hardware find in memory: the boot GDT, the page
/// tables, and the MP tables of one processor.
pub open spec fn table_stores() -> Seq<(u64, Seq<u8>)> {
    cpu_stores().push(
        (layout::MPTABLE_START, mptable::floating_pointer() + mptable::config_table(1)),
    )
}

/// What a guest's processor finds in memory: the boot GDT and the page tables.
pub open spec fn cpu_stores() -> Seq<(u64, Seq<u8>)> {
    seq![(layout::BOOT_GDT_START, memory::gdt_bytes())] + memory::identity_stores(
        layout::PML4_START,
        layout::PDPTE_START,
        layout::PDE_START,
    )
}

/// The first store of a list that is refused, in words.
pub open spec fn store_refused(m: GuestMem, list: Seq<(u64, Seq<u8>)>) -> Seq<char> {
    memory::refusal_words(memory::first_refused(m, list).0, memory::first_refused(m, list).1)
}

/// Stores one after the other are the first of them and then the others, unless one of the
/// first is refused.
pub proof fn stored_list_append(
    m: GuestMem,
    a: Seq<(u64, Seq<u8>)>,
    b: Seq<(u64, Seq<u8>)>,
)
    ensures
        memory::stored_list(m, a + b) == if memory::stored_list(m, a).1 {
            memory::stored_list(memory::stored_list(m, a).0, b)
        } else {
            memory::stored_list(m, a)
        },
        memory::first_refused(m, a + b) == if memory::stored_list(m, a).1 {
            memory::first_refused(memory::stored_list(m, a).0, b)
        } else {
            memory::first_refused(m, a)
        },
    decreases a.len(),
{
    if a.len() == 0 {
        assert(a + b =~= b);
    } else {
        let m1 = memory::stored(m, a[0].0, a[0].1);
        assert((a + b).skip(1) =~= a.skip(1) + b);
        stored_list_append(m1, a.skip(1), b);
    }
}

/// One store as a list.
proof fn stored_one(m: GuestMem, gpa: u64, b: Seq<u8>)
    ensures
        memory::stored_list(m, seq![(gpa, b)]) == (
            memory::stored(m, gpa, b),
            memory::accepted(m, gpa, b.len()),
        ),
        !memory::accepted(m, gpa, b.len()) ==> memory::first_refused(m, seq![(gpa, b)]) == (
            gpa,
            memory::access_fault(m, gpa, b.len()),
        ),
{
    reveal_with_fuel(memory::stored_list, 2);
    assert(seq![(gpa, b)].skip(1) =~= seq![]);
}

/// Stores the tables that a guest's processor and interrupt hardware need.
pub fn write_tables(ram: &mut GuestRam) -> (r: Result<(), BootRunError>)
    ensures
        (final(ram).ram(), r is Ok) == memory::stored_list(old(ram).ram(), table_stores()),
        r matches Err(e) ==> if memory::stored_list(old(ram).ram(), cpu_stores()).1 {
            e matches BootRunError::Boot(BootError::Memory(t)) && t@ == store_refused(
                old(ram).ram(),
                table_stores(),
            )
        } else {
            e matches BootRunError::Hypervisor(h) && memory::list_refusal(
                h,
                old(ram).ram(),
                cpu_stores(),
            )
        },
        final(ram).region_list() == old(ram).region_list(),
        final(ram).places() == old(ram).places(),
{
    let ghost m = ram.ram();
    let ghost gdt = seq![(layout::BOOT_GDT_START, memory::gdt_bytes())];
    let ghost pages = memory::identity_stores(
        layout::PML4_START,
        layout::PDPTE_START,
        layout::PDE_START,
    );
    let ghost mp = mptable::floating_pointer() + mptable::config_table(1);
    proof {
        stored_list_append(m, gdt, pages);
        stored_list_append(m, cpu_stores(), seq![(layout::MPTABLE_START, mp)]);
        assert(table_stores() =~= cpu_stores() + seq![(layout::MPTABLE_START, mp)]);
    }
    match ram.write_boot_gdt(layout::BOOT_GDT_START) {
        Ok(()) => {},
        Err(e) => {
            return Err(BootRunError::Hypervisor(e));
        },
    }
    match ram.write_identity_page_tables(
        layout::PML4_START,
        layout::PDPTE_START,
        layout::PDE_START,
    ) {
        Ok(()) => {},
        Err(e) => {
            return Err(BootRunError::Hypervisor(e));
        },
    }
    let table = mptable::build(1);
    proof {
        stored_one(ram.ram(), layout::MPTABLE_START, mp);
    }
    match ram.write_slice(layout::MPTABLE_START, &table) {
        Ok(()) => Ok(()),
        Err(e) => Err(BootRunError::Boot(BootError::Memory(e.message()))),
    }
}

/// Stores accepted one after the other by guest RAM are the stores of the list.
proof fn stored_all_is_list(pre: GuestRam, list: Seq<(u64, Seq<u8>)>, post: GuestRam)
    requires
        linux::stored_all(pre, list, post),
    ensures
        memory::stored_list(pre.ram(), list) == (post.ram(), true),
        post.region_list() == pre.region_list(),
        post.places() == pre.places(),
    decreases list.len(),
{
    if list.len() > 0 {
        let (mid, r) = choose|mid: GuestRam, r: Result<(), String>|
            linux::stored_all(pre, list.drop_last(), mid) && #[trigger] linux::GuestWrite::stores(
                &mid,
                list.last().0,
                list.last().1,
                r,
                &post,
            ) && r is Ok;
        stored_all_is_list(pre, list.drop_last(), mid);
        stored_list_append(pre.ram(), list.drop_last(), seq![list.last()]);
        stored_one(mid.ram(), list.last().0, list.last().1);
        assert(list =~= list.drop_last() + seq![list.last()]);
    }
}

/// Stores by guest RAM up to one that is refused are those of the list.
proof fn stored_until_is_list(
    pre: GuestRam,
    list: Seq<(u64, Seq<u8>)>,
    k: int,
    why: String,
    post: GuestRam,
)
    requires
        linux::stored_until(pre, list, k, why, post),
    ensures
        memory::stored_list(pre.ram(), list) == (post.ram(), false),
        post.region_list() == pre.region_list(),
        post.places() == pre.places(),
        why@ == store_refused(pre.ram(), list),
{
    let mid = choose|mid: GuestRam|
        linux::stored_all(pre, list.take(k), mid) && #[trigger] linux::GuestWrite::stores(
            &mid,
            list[k].0,
            list[k].1,
            Err(why),
            &post,
        );
    stored_all_is_list(pre, list.take(k), mid);
    let upto = list.take(k) + seq![list[k]];
    stored_list_append(pre.ram(), list.take(k), seq![list[k]]);
    stored_one(mid.ram(), list[k].0, list[k].1);
    stored_list_append(pre.ram(), upto, list.skip(k + 1));
    assert(list =~= upto + list.skip(k + 1));
}

/// How a guest is told of a framebuffer.
pub open spec fn fb_info(fb: Option<FbGeometry>) -> Option<FbInfo> {
    match fb {
        Some(g) => Some(
            FbInfo { base: layout::FRAMEBUFFER_BASE, width: g.width, height: g.height, bpp: 32 },
        ),
        None => None,
    }
}

/// The memory map of a machine: one region, from address zero.
pub open spec fn memory_map(usable: u64) -> Seq<E820Entry> {
    seq![E820Entry { addr: 0, size: usable, kind: linux::E820_RAM }]
}

/// Whether a kernel can be loaded, or is refused with an error: where loading starts, the image
/// reaches the kernel proper, and the framebuffer can be described.
pub fn can_load(image: &[u8], cmdline: &str, fb: Option<FbGeometry>) -> (r: bool)
    ensures
        r == (linux::loading_starts(image@, vstd::utf8::encode_utf8(cmdline@)) ==> {
            &&& linux::pm_offset(image@) <= image@.len()
            &&& fb matches Some(g) ==> 0 < g.total() <= u32::MAX
        }),
{
    if cmdline.as_bytes().len() >= layout::CMDLINE_MAX_LEN {
        return true;
    }
    let described: bool = match fb {
        Some(g) => describable(g),
        None => true,
    };
    match linux::KernelImage::parse(image) {
        Err(_) => true,
        Ok(_) => {
            let sects: usize = image[0x1f1] as usize;
            let offset: usize = if sects == 0 {
                2560
            } else {
                512 * (1 + sects)
            };
            offset <= image.len() && described
        },
    }
}

/// Loads a kernel into a machine whose guest is told of `usable` bytes of memory.
pub fn load(
    ram: &mut GuestRam,
    image: &[u8],
    cmdline: &str,
    usable: u64,
    initrd: Option<&[u8]>,
    fb: Option<FbGeometry>,
) -> (r: Result<BootInfo, BootError>)
    requires
        linux::loading_starts(image@, vstd::utf8::encode_utf8(cmdline@)) ==> {
            &&& linux::pm_offset(image@) <= image@.len()
            &&& fb matches Some(g) ==> 0 < g.total() <= u32::MAX
        },
    ensures
        final(ram).region_list() == old(ram).region_list(),
        final(ram).places() == old(ram).places(),
        ({
            let line = vstd::utf8::encode_utf8(cmdline@);
            let list = linux::boot_stores(
                image@,
                line,
                memory_map(usable),
                linux::initrd_view(initrd),
                fb_info(fb),
            );
            match linux::image_fault(image@) {
                Some(e) => r == Err::<BootInfo, BootError>(e) && *final(ram) == *old(ram),
                None => if line.len() >= layout::CMDLINE_MAX_LEN {
                    &&& r == Err::<BootInfo, BootError>(
                        BootError::CmdlineTooLong(line.len() as usize),
                    )
                    &&& *final(ram) == *old(ram)
                } else {
                    &&& (final(ram).ram(), r is Ok) == memory::stored_list(old(ram).ram(), list)
                    &&& match r {
                        Ok(info) => info == (BootInfo {
                            entry_point: (layout::HIGH_RAM_START + 0x200) as u64,
                            zero_page: layout::ZERO_PAGE_START,
                            cmdline_addr: layout::CMDLINE_START,
                        }),
                        Err(e) => e matches BootError::Memory(t) && t@ == store_refused(
                            old(ram).ram(),
                            list,
                        ),
                    }
                },
            }
        }),
{
    let e820: [E820Entry; 1] = [E820Entry::ram(layout::RAM_START, usable)];
    assert(e820@ =~= memory_map(usable));
    let info: Option<FbInfo> = match fb {
        Some(g) => {
            proof {
                assert(g.width * 4 * g.height == g.width * g.height * 4) by (nonlinear_arith);
                if g.total() > 0 {
                    assert(g.height > 0 && g.width * 4 <= g.width * 4 * g.height) by (
                    nonlinear_arith)
                        requires
                            0 < g.width * g.height * 4,
                    ;
                }
            }
            Some(
                FbInfo {
                    base: layout::FRAMEBUFFER_BASE,
                    width: g.width,
                    height: g.height,
                    bpp: 32,
                },
            )
        },
        None => None,
    };
    let ghost pre = *ram;
    let r = linux::load_kernel(image, cmdline, &e820, initrd, info, ram);
    proof {
        let line = vstd::utf8::encode_utf8(cmdline@);
        let list = linux::boot_stores(image@, line, e820@, linux::initrd_view(initrd), info);
        if linux::image_fault(image@) is None && line.len() < layout::CMDLINE_MAX_LEN {
            if r is Ok {
                stored_all_is_list(pre, list, *ram);
            } else {
                let why = r->Err_0->Memory_0;
                let k = choose|k: int| linux::stored_until(pre, list, k, why, *ram);
                stored_until_is_list(pre, list, k, why, *ram);
            }
        }
    }
    r
}

/// Where a machine's processor starts.
pub fn long_mode_entry(info: &BootInfo, usable: u64) -> (r: LongModeEntry)
    requires
        usable >= 0x1000,
    ensures
        r == (LongModeEntry {
            entry_point: info.entry_point,
            boot_params: info.zero_page,
            stack_top: stack_top_of(usable as int) as u64,
            pml4_addr: layout::PML4_START,
            gdt_addr: layout::BOOT_GDT_START,
        }),
{
    LongModeEntry {
        entry_point: info.entry_point,
        boot_params: info.zero_page,
        stack_top: stack_top(usable),
        pml4_addr: layout::PML4_START,
        gdt_addr: layout::BOOT_GDT_START,
    }
}

/// Whether `a` belongs to the tables that a processor needs: the boot GDT, the page tables or
/// the MP tables of one processor.
pub open spec fn in_tables(a: int) -> bool {
    ||| layout::BOOT_GDT_START <= a < layout::BOOT_GDT_START + 24
    ||| layout::PML4_START <= a < layout::PDE_START + 0x1000
    ||| layout::MPTABLE_START <= a < layout::MPTABLE_START + 248
}

/// Whether every store of a list leaves the tables alone.
pub open spec fn clear_of_tables(list: Seq<(u64, Seq<u8>)>) -> bool {
    forall|i: int, a: int|
        0 <= i < list.len() && (#[trigger] list[i]).0 <= a < list[i].0 + list[i].1.len()
            ==> !#[trigger] in_tables(a)
}

/// Stores that leave the tables alone leave them alone.
proof fn clear_stores_keep_tables(m: GuestMem, list: Seq<(u64, Seq<u8>)>)
    requires
        clear_of_tables(list),
    ensures
        memory::stored_list(m, list).0.dom() == m.dom(),
        forall|a: int|
            m.dom().contains(a) && in_tables(a) ==> #[trigger] memory::stored_list(m, list).0[a]
                == m[a],
    decreases list.len(),
{
    if list.len() > 0 {
        let (gpa, b) = list[0];
        let m1 = memory::stored(m, gpa, b);
        guest::reach_law(m, gpa as int, b.len());
        assert(m1.dom() =~= m.dom());
        let rest = list.skip(1);
        assert(clear_of_tables(rest)) by {
            assert forall|i: int, a: int|
                0 <= i < rest.len() && (#[trigger] rest[i]).0 <= a < rest[i].0 + rest[i].1.len()
                implies !#[trigger] in_tables(a) by {
                assert(rest[i] == list[i + 1]);
            }
        }
        clear_stores_keep_tables(m1, rest);
        assert forall|a: int| m.dom().contains(a) && in_tables(a) implies #[trigger] m1[a] == m[a] by {
            assert(list[0].0 == gpa);
        }
    }
}

/// Loading a kernel, its command line, its initrd and its boot parameters leaves the processor's
/// tables as they were, however large the kernel is.
pub proof fn loading_keeps_tables(
    m: GuestMem,
    image: Seq<u8>,
    line: Seq<u8>,
    usable: u64,
    initrd: Option<Seq<u8>>,
    fb: Option<FbGeometry>,
)
    requires
        linux::image_fault(image) is None,
        linux::pm_offset(image) <= image.len(),
        line.len() < layout::CMDLINE_MAX_LEN,
    ensures
        ({
            let r = memory::stored_list(
                m,
                linux::boot_stores(image, line, memory_map(usable), initrd, fb_info(fb)),
            ).0;
            &&& r.dom() == m.dom()
            &&& forall|a: int|
                m.dom().contains(a) && in_tables(a) ==> #[trigger] r[a] == m[a]
        }),
{
    let list = linux::boot_stores(image, line, memory_map(usable), initrd, fb_info(fb));
    linux::zero_page_reads_back(image, memory_map(usable), initrd, fb_info(fb));
    assert(clear_of_tables(list)) by {
        assert forall|i: int, a: int|
            0 <= i < list.len() && (#[trigger] list[i]).0 <= a < list[i].0 + list[i].1.len()
            implies !#[trigger] in_tables(a) by {
            assert(i == 0 || i == 1 || i == 2 || i == 3);
        }
    }
    clear_stores_keep_tables(m, list);
}

/// A guest that was made ready has the first GiB mapped to itself: the tables are accepted by
/// any memory that has its first MiB, and what they say still holds when the kernel is loaded.
pub proof fn ready_guest_is_mapped(
    m: GuestMem,
    image: Seq<u8>,
    line: Seq<u8>,
    usable: u64,
    initrd: Option<Seq<u8>>,
    fb: Option<FbGeometry>,
    va: int,
)
    requires
        guest::mapped(m, 0, 0x10_0000),
        linux::image_fault(image) is None,
        linux::pm_offset(image) <= image.len(),
        line.len() < layout::CMDLINE_MAX_LEN,
        0 <= va < 0x4000_0000,
    ensures
        memory::stored_list(m, table_stores()).1,
        ({
            let tables = memory::stored_list(m, table_stores()).0;
            let ready = memory::stored_list(
                tables,
                linux::boot_stores(image, line, memory_map(usable), initrd, fb_info(fb)),
            ).0;
            paging::translate(ready, layout::PML4_START, va) == Some(va)
        }),
{
    let gdt = seq![(layout::BOOT_GDT_START, memory::gdt_bytes())];
    let pages = memory::identity_stores(
        layout::PML4_START,
        layout::PDPTE_START,
        layout::PDE_START,
    );
    let mp = mptable::floating_pointer() + mptable::config_table(1);
    assert(memory::gdt_bytes().len() == 24);
    mptable::tables_valid(1);
    assert(mp.len() == 248);
    stored_list_append(m, gdt, pages);
    stored_list_append(m, cpu_stores(), seq![(layout::MPTABLE_START, mp)]);
    assert(table_stores() =~= cpu_stores() + seq![(layout::MPTABLE_START, mp)]);
    stored_one(m, layout::BOOT_GDT_START, memory::gdt_bytes());
    let a = memory::stored(m, layout::BOOT_GDT_START, memory::gdt_bytes());
    guest::reach_law(m, layout::BOOT_GDT_START as int, 24);
    assert(a.dom() =~= m.dom());
    assert(guest::mapped(a, layout::PML4_START as int, 8));
    assert(guest::mapped(a, layout::PDPTE_START as int, 8));
    assert(guest::mapped(a, layout::PDE_START as int, 0x1000));
    paging::identity_stored(a, layout::PML4_START, layout::PDPTE_START, layout::PDE_START);
    let b = memory::stored_list(a, pages).0;
    stored_one(b, layout::MPTABLE_START, mp);
    let c = memory::stored(b, layout::MPTABLE_START, mp);
    guest::reach_law(b, layout::MPTABLE_START as int, 248);
    assert(c.dom() =~= b.dom());
    loading_keeps_tables(c, image, line, usable, initrd, fb);
    let ready = memory::stored_list(
        c,
        linux::boot_stores(image, line, memory_map(usable), initrd, fb_info(fb)),
    ).0;
    assert forall|x: int| layout::PML4_START <= x < layout::PDE_START + 0x1000 implies #[trigger] ready[x]
        == b[x] by {
        assert(m.dom().contains(x));
        assert(c.dom().contains(x));
        assert(in_tables(x));
        assert(c[x] == b[x]);
    }
    tables_same(b, ready);
    paging::tables_map_first_gib(
        ready,
        layout::PML4_START,
        layout::PDPTE_START,
        layout::PDE_START,
        va,
    );
}

/// The page tables stand in any memory that has their bytes.
proof fn tables_same(b: GuestMem, r: GuestMem)
    requires
        paging::identity_tables(b, layout::PML4_START, layout::PDPTE_START, layout::PDE_START),
        r.dom() == b.dom(),
        forall|x: int|
            layout::PML4_START <= x < layout::PDE_START + 0x1000 ==> #[trigger] r[x] == b[x],
    ensures
        paging::identity_tables(r, layout::PML4_START, layout::PDPTE_START, layout::PDE_START),
{
    let x = layout::PML4_START as int;
    let y = layout::PDPTE_START as int;
    let z = layout::PDE_START as int;
    assert(guest::load(r, x, 8) =~= guest::load(b, x, 8));
    assert(guest::load(r, y, 8) =~= guest::load(b, y, 8));
    assert(guest::load(r, z, 0x1000) =~= guest::load(b, z, 0x1000));
}

} // verus!
