//! Loader for Linux bzImage kernels, by the 64-bit boot protocol: the protected-mode kernel
//! goes to high memory, the command line and the boot parameters ("zero page") to low memory.

use vstd::prelude::*;
use vstd::string::StringExecFns;

use super::layout;
use crate::bytes;
use crate::text;

verus! {

const OFF_SETUP_SECTS: usize = 0x1f1;

const OFF_HDR_MAGIC: usize = 0x202;

const OFF_VERSION: usize = 0x206;

const OFF_TYPE_OF_LOADER: usize = 0x210;

const OFF_LOADFLAGS: usize = 0x211;

const OFF_RAMDISK_IMAGE: usize = 0x218;

const OFF_RAMDISK_SIZE: usize = 0x21c;

const OFF_CMD_LINE_PTR: usize = 0x228;

/// Load flag: the loader provides a heap.
const CAN_USE_HEAP: u8 = 0x80;

const BP_EXT_MEM_K: usize = 0x1e0;

const BP_E820_ENTRIES: usize = 0x1e8;

const BP_SENTINEL: usize = 0x1ef;

const BP_E820_TABLE: usize = 0x2d0;

/// The setup header stands at the same offset in the image and in the boot parameters.
const BP_HDR_OFFSET: usize = 0x1f1;

const BP_HDR_END: usize = 0x268;

const E820_ENTRY_SIZE: usize = 20;

/// Kind of a region of usable memory.
pub const E820_RAM: u32 = 1;

/// How many regions the boot parameters have room for.
pub const E820_MAX_ENTRIES: usize = 128;

/// The smallest image that can hold a boot header.
const MIN_IMAGE: usize = 0x1000;

/// Why a kernel was not loaded.
#[derive(Debug)]
pub enum BootError {
    TooSmall(usize),
    BadMagic,
    ProtocolTooOld { major: u8, minor: u8 },
    NotRelocatableHigh,
    CmdlineTooLong(usize),
    Memory(String),
}

impl BootError {
    /// The error in words.
    pub open spec fn words(self) -> Seq<char> {
        match self {
            BootError::TooSmall(n) => "kernel image too small ("@ + text::dec(n as nat)
                + " bytes) to contain a boot header"@,
            BootError::BadMagic => "not a bzImage: missing 'HdrS' magic at 0x202"@,
            BootError::ProtocolTooOld { major, minor } => "boot protocol "@ + text::dec(
                major as nat,
            ) + "."@ + text::dec(minor as nat)
                + " too old; need >= 2.06 for 32/64-bit entry"@,
            BootError::NotRelocatableHigh =>
                "kernel not loaded-high capable (loadflags LOADED_HIGH clear)"@,
            BootError::CmdlineTooLong(n) => "command line too long: "@ + text::dec(n as nat)
                + " > 2048"@,
            BootError::Memory(e) => "guest memory error: "@ + e@,
        }
    }

    /// The error in words.
    pub fn message(&self) -> (r: String)
        ensures
            r@ == self.words(),
    {
        match self {
            BootError::TooSmall(n) => text::join3(
                "kernel image too small (",
                text::dec_text(*n as u64).as_str(),
                " bytes) to contain a boot header",
            ),
            BootError::BadMagic => String::from_str("not a bzImage: missing 'HdrS' magic at 0x202"),
            BootError::ProtocolTooOld { major, minor } => text::join3(
                "boot protocol ",
                text::dec_text(*major as u64).as_str(),
                ".",
            ).concat(text::dec_text(*minor as u64).as_str()).concat(
                " too old; need >= 2.06 for 32/64-bit entry",
            ),
            BootError::NotRelocatableHigh => String::from_str(
                "kernel not loaded-high capable (loadflags LOADED_HIGH clear)",
            ),
            BootError::CmdlineTooLong(n) => text::join3(
                "command line too long: ",
                text::dec_text(*n as u64).as_str(),
                " > 2048",
            ),
            BootError::Memory(e) => text::join2("guest memory error: ", e.as_str()),
        }
    }
}

/// All that is needed to point a processor at the loaded kernel.
#[derive(Debug, Clone, Copy)]
pub struct BootInfo {
    /// The 64-bit entry point.
    pub entry_point: u64,
    /// Where the boot parameters are.
    pub zero_page: u64,
    /// Where the command line is.
    pub cmdline_addr: u64,
}

/// A region of the memory map that the guest is told of.
#[derive(Debug, Clone, Copy)]
pub struct E820Entry {
    pub addr: u64,
    pub size: u64,
    pub kind: u32,
}

impl E820Entry {
    /// A region of usable memory.
    pub fn ram(addr: u64, size: u64) -> (r: Self)
        ensures
            r == (E820Entry { addr, size, kind: E820_RAM }),
    {
        E820Entry { addr, size, kind: E820_RAM }
    }
}

/// A linear framebuffer that the guest is told of.
#[derive(Debug, Clone, Copy)]
pub struct FbInfo {
    pub base: u64,
    pub width: u32,
    pub height: u32,
    pub bpp: u32,
}

impl FbInfo {
    /// Bytes of one line.
    pub open spec fn line(self) -> int {
        self.width * (self.bpp as int / 8)
    }

    /// Bytes of all lines.
    pub open spec fn total(self) -> int {
        self.line() * self.height
    }
}

/// The version of the boot protocol that an image says it speaks.
pub open spec fn image_version(image: Seq<u8>) -> u16 {
    bytes::u16_of(seq![image[0x206], image[0x207]])
}

/// Where the protected-mode kernel starts: behind the boot sector and the setup sectors,
/// of which zero means four.
pub open spec fn pm_offset(image: Seq<u8>) -> int {
    512 * (1 + if image[0x1f1] == 0 {
        4
    } else {
        image[0x1f1] as int
    })
}

/// Whether the four bytes of the magic, "HdrS", are there.
pub open spec fn has_magic(image: Seq<u8>) -> bool {
    image[0x202] == 0x48 && image[0x203] == 0x64 && image[0x204] == 0x72 && image[0x205] == 0x53
}

/// What is wrong with an image, if anything: too short, no magic, too old a protocol, or not
/// made to be loaded high, the first of these that holds.
pub open spec fn image_fault(image: Seq<u8>) -> Option<BootError> {
    if image.len() < 0x1000 {
        Some(BootError::TooSmall(image.len() as usize))
    } else if !has_magic(image) {
        Some(BootError::BadMagic)
    } else if image_version(image) < 0x0206 {
        Some(BootError::ProtocolTooOld { major: image[0x207], minor: image[0x206] })
    } else if image[0x211] % 2 == 0 {
        Some(BootError::NotRelocatableHigh)
    } else {
        None
    }
}

/// A bzImage that was found sound.
pub struct KernelImage<'a> {
    image: &'a [u8],
    pm_kernel_offset: usize,
    version: u16,
    loadflags: u8,
}

impl<'a> KernelImage<'a> {
    /// The image.
    pub closed spec fn bytes(&self) -> Seq<u8> {
        self.image@
    }

    /// What parsing has found out of the image.
    #[verifier::type_invariant]
    spec fn sound(&self) -> bool {
        &&& image_fault(self.image@) is None
        &&& self.pm_kernel_offset == pm_offset(self.image@)
        &&& self.version == image_version(self.image@)
        &&& self.loadflags == self.image@[0x211]
    }

    /// Checks an image's setup header.
    pub fn parse(image: &'a [u8]) -> (r: Result<Self, BootError>)
        ensures
            match r {
                Ok(k) => image_fault(image@) is None && k.bytes() == image@,
                Err(e) => image_fault(image@) == Some(e),
            },
    {
        if image.len() < MIN_IMAGE {
            return Err(BootError::TooSmall(image.len()));
        }
        if image[OFF_HDR_MAGIC] != 0x48 || image[OFF_HDR_MAGIC + 1] != 0x64 || image[OFF_HDR_MAGIC
            + 2] != 0x72 || image[OFF_HDR_MAGIC + 3] != 0x53 {
            return Err(BootError::BadMagic);
        }
        let v: [u8; 2] = [image[OFF_VERSION], image[OFF_VERSION + 1]];
        assert(v@ =~= seq![image@[0x206], image@[0x207]]);
        let version: u16 = bytes::from_le16(&v);
        if version < 0x0206 {
            return Err(BootError::ProtocolTooOld { major: v[1], minor: v[0] });
        }
        let loadflags: u8 = image[OFF_LOADFLAGS];
        if loadflags % 2 == 0 {
            return Err(BootError::NotRelocatableHigh);
        }
        let mut setup_sects: usize = image[OFF_SETUP_SECTS] as usize;
        if setup_sects == 0 {
            setup_sects = 4;
        }
        Ok(KernelImage { image, pm_kernel_offset: (setup_sects + 1) * 512, version, loadflags })
    }

    /// The protected-mode kernel: the image behind its setup sectors.
    pub fn protected_mode_kernel(&self) -> (r: &[u8])
        requires
            pm_offset(self.bytes()) <= self.bytes().len(),
        ensures
            r@ == self.bytes().skip(pm_offset(self.bytes())),
    {
        proof {
            use_type_invariant(self);
        }
        let r = vstd::slice::slice_subrange(self.image, self.pm_kernel_offset, self.image.len());
        assert(r@ =~= self.bytes().skip(pm_offset(self.bytes())));
        r
    }

    /// The setup header.
    fn setup_header_bytes(&self) -> (r: &[u8])
        ensures
            r@ == self.bytes().subrange(0x1f1, 0x268),
    {
        proof {
            use_type_invariant(self);
        }
        vstd::slice::slice_subrange(self.image, BP_HDR_OFFSET, BP_HDR_END)
    }

    fn load_flags(&self) -> (r: u8)
        ensures
            r == self.bytes()[0x211],
    {
        proof {
            use_type_invariant(self);
        }
        self.loadflags
    }

    /// The version of the boot protocol.
    pub fn version(&self) -> (r: u16)
        ensures
            r == image_version(self.bytes()),
    {
        proof {
            use_type_invariant(self);
        }
        self.version
    }
}

/// The end of the highest region of usable memory, 0 without one.
pub open spec fn ram_top(e820: Seq<E820Entry>) -> int
    decreases e820.len(),
{
    if e820.len() == 0 {
        0
    } else {
        let rest = ram_top(e820.drop_last());
        let e = e820.last();
        if e.kind == E820_RAM && e.addr + e.size > rest {
            e.addr + e.size
        } else {
            rest
        }
    }
}

/// Usable memory above 1 MiB in KiB, as far as 32 bits can say it.
pub open spec fn high_kb(e820: Seq<E820Entry>) -> u32 {
    let top = ram_top(e820);
    if top < 0x10_0000 {
        0
    } else if (top - 0x10_0000) / 1024 > u32::MAX {
        u32::MAX
    } else {
        ((top - 0x10_0000) / 1024) as u32
    }
}

/// How many regions the boot parameters list: the first ones, as far as there is room.
pub open spec fn e820_count(e820: Seq<E820Entry>) -> nat {
    if e820.len() < E820_MAX_ENTRIES {
        e820.len()
    } else {
        E820_MAX_ENTRIES as nat
    }
}

/// The twenty bytes of a region.
pub open spec fn e820_bytes(e: E820Entry) -> Seq<u8> {
    bytes::le64(e.addr) + bytes::le64(e.size) + bytes::le32(e.kind)
}

/// The boot parameters with the first `n` regions written.
pub open spec fn with_e820(zp: Seq<u8>, e820: Seq<E820Entry>, n: nat) -> Seq<u8>
    decreases n,
{
    if n == 0 {
        zp
    } else {
        bytes::write_at(
            with_e820(zp, e820, (n - 1) as nat),
            0x2d0 + 20 * (n - 1),
            e820_bytes(e820[n - 1]),
        )
    }
}

/// The boot parameters with the setup header of the image, its loader, flags and command-line
/// fields filled in.
pub open spec fn with_header(image: Seq<u8>) -> Seq<u8> {
    let z0 = bytes::write_at(bytes::zeros(0x1000), 0x1f1, image.subrange(0x1f1, 0x268));
    let z1 = bytes::write_at(z0, 0x210, seq![0xffu8]);
    let z2 = bytes::write_at(z1, 0x211, seq![image[0x211] | 0x80u8]);
    bytes::write_at(z2, 0x228, bytes::le32(layout::CMDLINE_START as u32))
}

/// The boot parameters with the place and size of the initrd; both zero where there is none,
/// whatever the image says of one.
pub open spec fn with_initrd(zp: Seq<u8>, initrd: Option<Seq<u8>>) -> Seq<u8> {
    match initrd {
        None => bytes::write_at(zp, 0x218, bytes::zeros(8)),
        Some(rd) => bytes::write_at(
            bytes::write_at(zp, 0x218, bytes::le32(layout::INITRD_START as u32)),
            0x21c,
            bytes::le32((rd.len() % 0x1_0000_0000) as u32),
        ),
    }
}

/// The boot parameters with the memory map: a clear sentinel, by which the kernel trusts the
/// rest, the legacy size, and the regions.
pub open spec fn with_memory(zp: Seq<u8>, e820: Seq<E820Entry>) -> Seq<u8> {
    let z1 = bytes::write_at(zp, 0x1ef, seq![0u8]);
    let z2 = bytes::write_at(z1, 0x1e0, bytes::le32(high_kb(e820)));
    let z3 = bytes::write_at(z2, 0x1e8, seq![e820_count(e820) as u8]);
    with_e820(z3, e820, e820_count(e820))
}

/// The boot parameters with a linear framebuffer of 32-bit pixels: blue in the lowest byte,
/// then green, red and an unused one.
pub open spec fn with_screen(zp: Seq<u8>, fb: Option<FbInfo>) -> Seq<u8> {
    match fb {
        None => zp,
        Some(fb) => {
            let z1 = bytes::write_at(zp, 0x0f, seq![0x23u8]);
            let z2 = bytes::write_at(z1, 0x12, bytes::le16((fb.width % 0x1_0000) as u16));
            let z3 = bytes::write_at(z2, 0x14, bytes::le16((fb.height % 0x1_0000) as u16));
            let z4 = bytes::write_at(z3, 0x16, bytes::le16((fb.bpp % 0x1_0000) as u16));
            let z5 = bytes::write_at(z4, 0x18, bytes::le32((fb.base % 0x1_0000_0000) as u32));
            let z6 = bytes::write_at(z5, 0x1c, bytes::le32(fb.total() as u32));
            let z7 = bytes::write_at(z6, 0x24, bytes::le16((fb.line() % 0x1_0000) as u16));
            let z8 = bytes::write_at(z7, 0x26, seq![8u8, 16, 8, 8, 8, 0, 8, 24]);
            bytes::write_at(z8, 0x36, bytes::zeros(8))
        },
    }
}

/// The boot parameters of a kernel.
pub open spec fn zero_page(
    image: Seq<u8>,
    e820: Seq<E820Entry>,
    initrd: Option<Seq<u8>>,
    fb: Option<FbInfo>,
) -> Seq<u8> {
    with_screen(with_memory(with_initrd(with_header(image), initrd), e820), fb)
}

/// What loading a kernel stores in guest memory, in order: the kernel, the command line with
/// a zero byte behind it, the initrd, and the boot parameters.
pub open spec fn boot_stores(
    image: Seq<u8>,
    cmdline: Seq<u8>,
    e820: Seq<E820Entry>,
    initrd: Option<Seq<u8>>,
    fb: Option<FbInfo>,
) -> Seq<(u64, Seq<u8>)> {
    let kernel = (layout::HIGH_RAM_START, image.skip(pm_offset(image)));
    let line = (layout::CMDLINE_START, cmdline.push(0));
    let page = (layout::ZERO_PAGE_START, zero_page(image, e820, initrd, fb));
    match initrd {
        None => seq![kernel, line, page],
        Some(rd) => seq![kernel, line, (layout::INITRD_START, rd), page],
    }
}

/// Where byte runs are stored in guest memory.
pub trait GuestWrite: Sized {
    /// Whether storing `b` at `gpa` may answer `r` and leave this as `post`. Unless an
    /// implementer says more, it may be so.
    open spec fn stores(&self, gpa: u64, b: Seq<u8>, r: Result<(), String>, post: &Self) -> bool {
        true
    }

    fn write(&mut self, gpa: u64, b: &[u8]) -> (r: Result<(), String>)
        ensures
            old(self).stores(gpa, b@, r, final(self)),
    ;
}

/// Whether the memory may go from `pre` to `post` over `list`, in order, each store accepted.
pub open spec fn stored_all<W: GuestWrite>(pre: W, list: Seq<(u64, Seq<u8>)>, post: W) -> bool
    decreases list.len(),
{
    if list.len() == 0 {
        post == pre
    } else {
        exists|mid: W, r: Result<(), String>|
            stored_all(pre, list.drop_last(), mid) && #[trigger] mid.stores(
                list.last().0,
                list.last().1,
                r,
                &post,
            ) && r is Ok
    }
}

/// Whether the memory may go from `pre` to `post` over the stores of `list` before the one at
/// `k`, which is refused for the reason `why`.
pub open spec fn stored_until<W: GuestWrite>(
    pre: W,
    list: Seq<(u64, Seq<u8>)>,
    k: int,
    why: String,
    post: W,
) -> bool {
    &&& 0 <= k < list.len()
    &&& exists|mid: W|
        stored_all(pre, list.take(k), mid) && #[trigger] mid.stores(
            list[k].0,
            list[k].1,
            Err(why),
            &post,
        )
}

/// One store of a list, behind those before it.
fn store_next<W: GuestWrite>(
    w: &mut W,
    gpa: u64,
    b: &[u8],
    Ghost(pre): Ghost<W>,
    Ghost(list): Ghost<Seq<(u64, Seq<u8>)>>,
    Ghost(k): Ghost<int>,
) -> (r: Result<(), BootError>)
    requires
        0 <= k < list.len(),
        list[k] == (gpa, b@),
        stored_all(pre, list.take(k), *old(w)),
    ensures
        match r {
            Ok(_) => stored_all(pre, list.take(k + 1), *final(w)),
            Err(BootError::Memory(why)) => stored_until(pre, list, k, why, *final(w)),
            Err(_) => false,
        },
{
    let ghost mid = *w;
    let r = w.write(gpa, b);
    let ghost asked = r;
    let ghost end = *w;
    assert(mid.stores(gpa, b@, asked, &end));
    match r {
        Ok(()) => {
            proof {
                let more = list.take(k + 1);
                assert(more.drop_last() =~= list.take(k));
                assert(more.last() == list[k]);
                assert(asked is Ok);
                assert(mid.stores(more.last().0, more.last().1, asked, &end));
                assert(stored_all(pre, more, end));
            }
            Ok(())
        },
        Err(e) => {
            proof {
                assert(mid.stores(list[k].0, list[k].1, Err(e), &end));
                assert(stored_until(pre, list, k, e, end));
            }
            Err(BootError::Memory(e))
        },
    }
}

/// Fills in the screen information.
fn write_screen_info(zp: &mut [u8], fb: FbInfo)
    requires
        old(zp)@.len() == 0x1000,
        fb.line() <= u32::MAX,
        fb.total() <= u32::MAX,
    ensures
        final(zp)@ == with_screen(old(zp)@, Some(fb)),
{
    assert(0 <= fb.width * (fb.bpp as int / 8)) by (nonlinear_arith);
    let line: u32 = fb.width * (fb.bpp / 8);
    let size: u32 = line * fb.height;
    bytes::put_bytes(zp, 0x0f, &[0x23]);
    assert([0x23u8]@ =~= seq![0x23u8]);
    bytes::put_u16(zp, 0x12, (fb.width % 0x1_0000) as u16);
    bytes::put_u16(zp, 0x14, (fb.height % 0x1_0000) as u16);
    bytes::put_u16(zp, 0x16, (fb.bpp % 0x1_0000) as u16);
    bytes::put_u32(zp, 0x18, (fb.base % 0x1_0000_0000) as u32);
    bytes::put_u32(zp, 0x1c, size);
    bytes::put_u16(zp, 0x24, (line % 0x1_0000) as u16);
    let rgb: [u8; 8] = [8, 16, 8, 8, 8, 0, 8, 24];
    assert(rgb@ =~= seq![8u8, 16, 8, 8, 8, 0, 8, 24]);
    bytes::put_bytes(zp, 0x26, &rgb);
    let none: [u8; 8] = [0; 8];
    assert(none@ =~= bytes::zeros(8));
    bytes::put_bytes(zp, 0x36, &none);
}

/// Usable memory above 1 MiB in KiB.
fn high_kb_of(e820: &[E820Entry]) -> (r: u32)
    requires
        forall|i: int|
            0 <= i < e820@.len() && (#[trigger] e820@[i]).kind == E820_RAM ==> e820@[i].addr
                + e820@[i].size <= u64::MAX,
    ensures
        r == high_kb(e820@),
{
    let mut top: u64 = 0;
    let mut i: usize = 0;
    while i < e820.len()
        invariant
            i <= e820@.len(),
            top == ram_top(e820@.take(i as int)),
            forall|i: int|
                0 <= i < e820@.len() && (#[trigger] e820@[i]).kind == E820_RAM ==> e820@[i].addr
                    + e820@[i].size <= u64::MAX,
        decreases e820@.len() - i,
    {
        assert(e820@.take(i + 1).drop_last() =~= e820@.take(i as int));
        let e = e820[i];
        if e.kind == E820_RAM && e.addr + e.size > top {
            top = e.addr + e.size;
        }
        i += 1;
    }
    assert(e820@.take(e820@.len() as int) =~= e820@);
    if top < 0x10_0000 {
        0
    } else {
        let kb: u64 = (top - 0x10_0000) / 1024;
        if kb > u32::MAX as u64 {
            u32::MAX
        } else {
            kb as u32
        }
    }
}

/// Writes the memory map.
fn write_memory_map(zp: &mut [u8], e820: &[E820Entry])
    requires
        old(zp)@.len() == 0x1000,
        forall|i: int|
            0 <= i < e820@.len() && (#[trigger] e820@[i]).kind == E820_RAM ==> e820@[i].addr
                + e820@[i].size <= u64::MAX,
    ensures
        final(zp)@ == with_memory(old(zp)@, e820@),
{
    bytes::put_bytes(zp, BP_SENTINEL, &[0]);
    assert([0u8]@ =~= seq![0u8]);
    bytes::put_u32(zp, BP_EXT_MEM_K, high_kb_of(e820));
    let n: usize = if e820.len() < E820_MAX_ENTRIES {
        e820.len()
    } else {
        E820_MAX_ENTRIES
    };
    bytes::put_bytes(zp, BP_E820_ENTRIES, &[n as u8]);
    assert([n as u8]@ =~= seq![n as u8]);
    let ghost z3 = zp@;
    let mut i: usize = 0;
    while i < n
        invariant
            i <= n,
            n == e820_count(e820@),
            zp@.len() == 0x1000,
            zp@ == with_e820(z3, e820@, i as nat),
        decreases n - i,
    {
        let e = e820[i];
        let base: usize = BP_E820_TABLE + i * E820_ENTRY_SIZE;
        let a = bytes::to_le64(e.addr);
        let s = bytes::to_le64(e.size);
        let k = bytes::to_le32(e.kind);
        let mut entry: Vec<u8> = Vec::new();
        bytes::push_bytes(&mut entry, &a);
        bytes::push_bytes(&mut entry, &s);
        bytes::push_bytes(&mut entry, &k);
        assert(entry@ =~= e820_bytes(e));
        bytes::put_bytes(zp, base, &entry);
        i += 1;
    }
}

/// The initrd's bytes, where there is one.
pub open spec fn initrd_view(initrd: Option<&[u8]>) -> Option<Seq<u8>> {
    match initrd {
        None => None,
        Some(rd) => Some(rd@),
    }
}

/// Whether loading goes as far as the first store: the image is sound and the command line is
/// short enough.
pub open spec fn loading_starts(image: Seq<u8>, cmdline: Seq<u8>) -> bool {
    image_fault(image) is None && cmdline.len() < layout::CMDLINE_MAX_LEN
}

/// Loads a kernel into guest memory and builds its boot parameters.
///
/// `e820` is the memory map to advertise, `fb` a framebuffer to advertise, and `out` where
/// byte runs are stored. A store that is refused ends the loading.
pub fn load_kernel<W: GuestWrite>(
    image: &[u8],
    cmdline: &str,
    e820: &[E820Entry],
    initrd: Option<&[u8]>,
    fb: Option<FbInfo>,
    out: &mut W,
) -> (r: Result<BootInfo, BootError>)
    requires
        loading_starts(image@, vstd::utf8::encode_utf8(cmdline@)) ==> {
            &&& pm_offset(image@) <= image@.len()
            &&& forall|i: int|
                0 <= i < e820@.len() && (#[trigger] e820@[i]).kind == E820_RAM ==> e820@[i].addr
                    + e820@[i].size <= u64::MAX
            &&& fb matches Some(f) ==> f.line() <= u32::MAX && f.total() <= u32::MAX
        },
    ensures
        ({
            let line = vstd::utf8::encode_utf8(cmdline@);
            let list = boot_stores(image@, line, e820@, initrd_view(initrd), fb);
            match image_fault(image@) {
                Some(e) => r == Err::<BootInfo, BootError>(e) && *final(out) == *old(out),
                None => if line.len() >= layout::CMDLINE_MAX_LEN {
                    &&& r == Err::<BootInfo, BootError>(BootError::CmdlineTooLong(line.len() as usize))
                    &&& *final(out) == *old(out)
                } else {
                    match r {
                        Ok(info) => {
                            &&& stored_all(*old(out), list, *final(out))
                            &&& info == (BootInfo {
                                entry_point: (layout::HIGH_RAM_START + 0x200) as u64,
                                zero_page: layout::ZERO_PAGE_START,
                                cmdline_addr: layout::CMDLINE_START,
                            })
                        },
                        Err(BootError::Memory(why)) => exists|k: int|
                            stored_until(*old(out), list, k, why, *final(out)),
                        Err(_) => false,
                    }
                },
            }
        }),
{
    let kernel = match KernelImage::parse(image) {
        Ok(k) => k,
        Err(e) => {
            return Err(e);
        },
    };
    let line = cmdline.as_bytes();
    if line.len() >= layout::CMDLINE_MAX_LEN {
        return Err(BootError::CmdlineTooLong(line.len()));
    }
    let ghost pre = *out;
    let ghost rd = initrd_view(initrd);
    let ghost list = boot_stores(image@, line@, e820@, rd, fb);
    assert(list.take(0) =~= seq![]);
    let pm = kernel.protected_mode_kernel();
    match store_next(out, layout::HIGH_RAM_START, pm, Ghost(pre), Ghost(list), Ghost(0)) {
        Ok(()) => {},
        Err(e) => {
            return Err(e);
        },
    }
    let mut cmd: Vec<u8> = Vec::new();
    bytes::push_bytes(&mut cmd, line);
    cmd.push(0);
    assert(cmd@ =~= line@.push(0));
    match store_next(out, layout::CMDLINE_START, &cmd, Ghost(pre), Ghost(list), Ghost(1)) {
        Ok(()) => {},
        Err(e) => {
            return Err(e);
        },
    }
    let mut zp: Vec<u8> = bytes::zero_vec(0x1000);
    bytes::put_bytes(&mut zp, BP_HDR_OFFSET, kernel.setup_header_bytes());
    bytes::put_bytes(&mut zp, OFF_TYPE_OF_LOADER, &[0xff]);
    assert([0xffu8]@ =~= seq![0xffu8]);
    let flags: u8 = kernel.load_flags() | CAN_USE_HEAP;
    bytes::put_bytes(&mut zp, OFF_LOADFLAGS, &[flags]);
    assert([flags]@ =~= seq![flags]);
    bytes::put_u32(&mut zp, OFF_CMD_LINE_PTR, layout::CMDLINE_START as u32);
    assert(zp@ == with_header(image@));
    let ghost mut k: int = 2;
    if let Some(b) = initrd {
        match store_next(out, layout::INITRD_START, b, Ghost(pre), Ghost(list), Ghost(2)) {
            Ok(()) => {},
            Err(e) => {
                return Err(e);
            },
        }
        proof {
            k = 3;
        }
        bytes::put_u32(&mut zp, OFF_RAMDISK_IMAGE, layout::INITRD_START as u32);
        bytes::put_u32(&mut zp, OFF_RAMDISK_SIZE, (b.len() as u64 % 0x1_0000_0000) as u32);
    } else {
        let none: [u8; 8] = [0; 8];
        assert(none@ =~= bytes::zeros(8));
        bytes::put_bytes(&mut zp, OFF_RAMDISK_IMAGE, &none);
    }
    assert(zp@ == with_initrd(with_header(image@), rd));
    write_memory_map(&mut zp, e820);
    proof {
        with_e820_len(
            bytes::write_at(
                bytes::write_at(
                    bytes::write_at(with_initrd(with_header(image@), rd), 0x1ef, seq![0u8]),
                    0x1e0,
                    bytes::le32(high_kb(e820@)),
                ),
                0x1e8,
                seq![e820_count(e820@) as u8],
            ),
            e820@,
            e820_count(e820@),
        );
    }
    if let Some(f) = fb {
        write_screen_info(&mut zp, f);
    }
    assert(zp@ == zero_page(image@, e820@, rd, fb));
    match store_next(out, layout::ZERO_PAGE_START, &zp, Ghost(pre), Ghost(list), Ghost(k)) {
        Ok(()) => {},
        Err(e) => {
            return Err(e);
        },
    }
    assert(list.take(list.len() as int) =~= list);
    Ok(
        BootInfo {
            entry_point: layout::HIGH_RAM_START + 0x200,
            zero_page: layout::ZERO_PAGE_START,
            cmdline_addr: layout::CMDLINE_START,
        },
    )
}

/// Writing regions keeps the length of the boot parameters.
proof fn with_e820_len(zp: Seq<u8>, e820: Seq<E820Entry>, n: nat)
    ensures
        with_e820(zp, e820, n).len() == zp.len(),
    decreases n,
{
    if n > 0 {
        with_e820_len(zp, e820, (n - 1) as nat);
    }
}

/// The regions written are found where they were written, and nothing else has changed.
proof fn with_e820_law(zp: Seq<u8>, e820: Seq<E820Entry>, n: nat)
    requires
        n <= E820_MAX_ENTRIES,
        zp.len() == 0x1000,
    ensures
        with_e820(zp, e820, n).len() == zp.len(),
        forall|i: int|
            0 <= i < zp.len() && !(0x2d0 <= i < 0x2d0 + 20 * n) ==> #[trigger] with_e820(
                zp,
                e820,
                n,
            )[i] == zp[i],
        forall|j: int|
            0 <= j < n ==> #[trigger] with_e820(zp, e820, n).subrange(
                0x2d0 + 20 * j,
                0x2d0 + 20 * j + 20,
            ) == e820_bytes(e820[j]),
    decreases n,
{
    if n > 0 {
        let m = (n - 1) as nat;
        with_e820_law(zp, e820, m);
        let before = with_e820(zp, e820, m);
        let after = with_e820(zp, e820, n);
        assert forall|j: int| 0 <= j < n implies #[trigger] after.subrange(
            0x2d0 + 20 * j,
            0x2d0 + 20 * j + 20,
        ) == e820_bytes(e820[j]) by {
            let got = after.subrange(0x2d0 + 20 * j, 0x2d0 + 20 * j + 20);
            if j < m {
                assert(before.subrange(0x2d0 + 20 * j, 0x2d0 + 20 * j + 20) == e820_bytes(e820[j]));
                assert(got =~= before.subrange(0x2d0 + 20 * j, 0x2d0 + 20 * j + 20));
            } else {
                assert(got =~= e820_bytes(e820[j]));
            }
        }
    }
}

/// Writing the memory map changes its own bytes alone, and the sentinel.
pub proof fn memory_map_is_apart(zp: Seq<u8>, e820: Seq<E820Entry>, i: int)
    requires
        zp.len() == 0x1000,
        0 <= i < 0x1000,
    ensures
        with_memory(zp, e820).len() == 0x1000,
        i != 0x1ef && i != 0x1e8 && !(0x1e0 <= i < 0x1e4) && !(0x2d0 <= i < 0x2d0 + 20
            * e820_count(e820)) ==> with_memory(zp, e820)[i] == zp[i],
        with_memory(zp, e820)[0x1ef] == 0,
{
    let s = bytes::write_at(
        bytes::write_at(
            bytes::write_at(zp, 0x1ef, seq![0u8]),
            0x1e0,
            bytes::le32(high_kb(e820)),
        ),
        0x1e8,
        seq![e820_count(e820) as u8],
    );
    with_e820_law(s, e820, e820_count(e820));
}

/// What the kernel reads in its boot parameters: a loader it does not know, a clear sentinel,
/// the place of the command line, the memory map region by region, and the initrd, or zeros
/// where there is none.
pub proof fn zero_page_reads_back(
    image: Seq<u8>,
    e820: Seq<E820Entry>,
    initrd: Option<Seq<u8>>,
    fb: Option<FbInfo>,
)
    requires
        image.len() >= 0x1000,
    ensures
        ({
            let zp = zero_page(image, e820, initrd, fb);
            &&& zp.len() == 0x1000
            &&& zp[0x210] == 0xff
            &&& zp[0x211] == image[0x211] | 0x80u8
            &&& zp[0x1ef] == 0
            &&& bytes::u32_of(zp.skip(0x228)) == layout::CMDLINE_START
            &&& bytes::u32_of(zp.skip(0x1e0)) == high_kb(e820)
            &&& zp[0x1e8] == e820_count(e820)
            &&& forall|j: int|
                0 <= j < e820_count(e820) ==> #[trigger] zp.subrange(
                    0x2d0 + 20 * j,
                    0x2d0 + 20 * j + 20,
                ) == e820_bytes(e820[j])
            &&& initrd matches Some(rd) ==> {
                &&& bytes::u32_of(zp.skip(0x218)) == layout::INITRD_START
                &&& bytes::u32_of(zp.skip(0x21c)) == rd.len() % 0x1_0000_0000
            }
            &&& initrd is None ==> zp.subrange(0x218, 0x220) == bytes::zeros(8)
        }),
{
    let zp = zero_page(image, e820, initrd, fb);
    let h = with_header(image);
    let d = with_initrd(h, initrd);
    let s = bytes::write_at(
        bytes::write_at(
            bytes::write_at(d, 0x1ef, seq![0u8]),
            0x1e0,
            bytes::le32(high_kb(e820)),
        ),
        0x1e8,
        seq![e820_count(e820) as u8],
    );
    with_e820_law(s, e820, e820_count(e820));
    let w = with_memory(d, e820);
    assert(w == with_e820(s, e820, e820_count(e820)));
    assert(forall|i: int| 0x40 <= i < 0x1000 ==> zp[i] == w[i]);
    assert forall|j: int| 0 <= j < e820_count(e820) implies #[trigger] zp.subrange(
        0x2d0 + 20 * j,
        0x2d0 + 20 * j + 20,
    ) == e820_bytes(e820[j]) by {
        assert(zp.subrange(0x2d0 + 20 * j, 0x2d0 + 20 * j + 20) =~= w.subrange(
            0x2d0 + 20 * j,
            0x2d0 + 20 * j + 20,
        ));
    }
    bytes::le32_roundtrip(layout::CMDLINE_START as u32);
    bytes::le32_roundtrip(high_kb(e820));
    read_word(zp, 0x228, layout::CMDLINE_START as u32);
    read_word(zp, 0x1e0, high_kb(e820));
    if let Some(rd) = initrd {
        read_word(zp, 0x218, layout::INITRD_START as u32);
        read_word(zp, 0x21c, (rd.len() % 0x1_0000_0000) as u32);
    } else {
        assert(zp.subrange(0x218, 0x220) =~= bytes::zeros(8));
    }
}

/// A word whose four bytes stand at `off` is read there.
proof fn read_word(zp: Seq<u8>, off: int, v: u32)
    requires
        0 <= off,
        off + 4 <= zp.len(),
        forall|i: int| 0 <= i < 4 ==> zp[off + i] == bytes::le32(v)[i],
    ensures
        bytes::u32_of(zp.skip(off)) == v,
{
    let b = zp.skip(off);
    assert(b[0] == zp[off + 0] && b[1] == zp[off + 1] && b[2] == zp[off + 2] && b[3] == zp[off + 3]);
    bytes::le32_roundtrip(v);
}

} // verus!
