use vmm::boot::layout;
use vmm::boot::linux::{
    load_kernel, BootError, E820Entry, FbInfo, GuestWrite, KernelImage,
};
use vmm::boot::mptable::build;

const FLOATING_PTR_LEN: usize = 16;
const OFF_SETUP_SECTS: usize = 0x1f1;
const OFF_HDR_MAGIC: usize = 0x202;
const OFF_VERSION: usize = 0x206;
const OFF_LOADFLAGS: usize = 0x211;
const OFF_CMD_LINE_PTR: usize = 0x228;
const OFF_TYPE_OF_LOADER: usize = 0x210;
const BP_E820_ENTRIES: usize = 0x1e8;
const LOADED_HIGH: u8 = 0x01;

/// Keeps every store, and refuses the one at `refuse`.
struct Recorder {
    writes: Vec<(u64, Vec<u8>)>,
    refuse: Option<u64>,
}

impl Recorder {
    fn new() -> Self {
        Recorder { writes: Vec::new(), refuse: None }
    }
}

impl GuestWrite for Recorder {
    fn write(&mut self, gpa: u64, b: &[u8]) -> Result<(), String> {
        if self.refuse == Some(gpa) {
            return Err("no".to_string());
        }
        self.writes.push((gpa, b.to_vec()));
        Ok(())
    }
}

fn fake_bzimage() -> Vec<u8> {
    let mut img = vec![0u8; 0x2000];
    img[OFF_SETUP_SECTS] = 1; // -> pm offset = (1+1)*512 = 1024
    img[OFF_HDR_MAGIC..OFF_HDR_MAGIC + 4].copy_from_slice(b"HdrS");
    img[OFF_VERSION] = 0x0c; // 2.12 little-endian: 0x020c
    img[OFF_VERSION + 1] = 0x02;
    img[OFF_LOADFLAGS] = LOADED_HIGH;
    img
}

fn word(b: &[u8], off: usize) -> u32 {
    u32::from_le_bytes([b[off], b[off + 1], b[off + 2], b[off + 3]])
}

#[test]
fn parses_valid_header() {
    let img = fake_bzimage();
    let k = KernelImage::parse(&img).unwrap();
    assert_eq!(k.version(), 0x020c);
    assert_eq!(k.protected_mode_kernel().len(), img.len() - 1024);
}

#[test]
fn rejects_bad_magic() {
    let mut img = fake_bzimage();
    img[OFF_HDR_MAGIC] = 0;
    assert!(matches!(KernelImage::parse(&img), Err(BootError::BadMagic)));
}

#[test]
fn rejects_old_protocol() {
    let mut img = fake_bzimage();
    img[OFF_VERSION] = 0x05;
    img[OFF_VERSION + 1] = 0x02; // 2.05
    assert!(matches!(
        KernelImage::parse(&img),
        Err(BootError::ProtocolTooOld { .. })
    ));
}

#[test]
fn load_writes_zero_page_with_e820_and_entry() {
    let img = fake_bzimage();
    let mut out = Recorder::new();
    let e820 = [E820Entry::ram(0, 0x0800_0000)];
    let info = load_kernel(&img, "console=ttyS0", &e820, None, None, &mut out).unwrap();

    assert_eq!(info.entry_point, layout::HIGH_RAM_START + 0x200);
    assert_eq!(info.zero_page, layout::ZERO_PAGE_START);

    let (_, zp) = out
        .writes
        .iter()
        .find(|(gpa, _)| *gpa == layout::ZERO_PAGE_START)
        .unwrap();
    assert_eq!(zp[BP_E820_ENTRIES], 1);
    let cmd_ptr = u32::from_le_bytes(zp[OFF_CMD_LINE_PTR..OFF_CMD_LINE_PTR + 4].try_into().unwrap());
    assert_eq!(cmd_ptr, layout::CMDLINE_START as u32);
    assert_eq!(zp[OFF_TYPE_OF_LOADER], 0xff);
}

#[test]
fn load_stores_kernel_line_initrd_and_page_in_order() {
    let mut img = fake_bzimage();
    img[1024] = 0x77;
    let mut out = Recorder::new();
    let e820 = [E820Entry::ram(0, 0x0800_0000)];
    let rd = [9u8, 8, 7];
    let fb = FbInfo { base: layout::FRAMEBUFFER_BASE, width: 640, height: 480, bpp: 32 };
    let info = load_kernel(&img, "quiet", &e820, Some(&rd), Some(fb), &mut out).unwrap();
    assert_eq!(info.cmdline_addr, layout::CMDLINE_START);
    assert_eq!(out.writes.len(), 4);
    assert_eq!(out.writes[0].0, layout::HIGH_RAM_START);
    assert_eq!(out.writes[0].1[0], 0x77);
    assert_eq!(out.writes[1], (layout::CMDLINE_START, b"quiet\0".to_vec()));
    assert_eq!(out.writes[2], (layout::INITRD_START, vec![9, 8, 7]));
    let zp = &out.writes[3].1;
    assert_eq!(zp.len(), 0x1000);
    assert_eq!(word(zp, 0x218), layout::INITRD_START as u32);
    assert_eq!(word(zp, 0x21c), 3);
    // 128 MiB, less the first one, in KiB.
    assert_eq!(word(zp, 0x1e0), 127 * 1024);
    assert_eq!(zp[0x211], LOADED_HIGH | 0x80);
    // The memory map's entry: address, size, kind.
    assert_eq!(word(zp, 0x2d0), 0);
    assert_eq!(word(zp, 0x2d8), 0x0800_0000);
    assert_eq!(word(zp, 0x2e0), 1);
    // The framebuffer.
    assert_eq!(zp[0x0f], 0x23);
    assert_eq!(word(zp, 0x18), 0xD000_0000);
    assert_eq!(word(zp, 0x1c), 640 * 480 * 4);
    assert_eq!(zp[0x24..0x26], (640u16 * 4).to_le_bytes());
    assert_eq!(zp[0x26..0x2e], [8, 16, 8, 8, 8, 0, 8, 24]);
}

#[test]
fn load_stops_at_a_refused_store() {
    let img = fake_bzimage();
    let mut out = Recorder::new();
    out.refuse = Some(layout::CMDLINE_START);
    let r = load_kernel(&img, "x", &[], None, None, &mut out);
    match r {
        Err(BootError::Memory(e)) => assert_eq!(e, "no"),
        _ => panic!("expected a memory error"),
    }
    assert_eq!(out.writes.len(), 1);
}

#[test]
fn load_refuses_what_does_not_fit() {
    let img = fake_bzimage();
    let mut out = Recorder::new();
    let long = "x".repeat(2048);
    match load_kernel(&img, &long, &[], None, None, &mut out) {
        Err(e) => assert_eq!(e.message(), "command line too long: 2048 > 2048"),
        Ok(_) => panic!("too long a command line"),
    }
    match load_kernel(&img[..0xfff], "x", &[], None, None, &mut out) {
        Err(e) => assert_eq!(
            e.message(),
            "kernel image too small (4095 bytes) to contain a boot header"
        ),
        Ok(_) => panic!("too short an image"),
    }
    let mut low = fake_bzimage();
    low[OFF_LOADFLAGS] = 0;
    match load_kernel(&low, "x", &[], None, None, &mut out) {
        Err(e) => assert_eq!(
            e.message(),
            "kernel not loaded-high capable (loadflags LOADED_HIGH clear)"
        ),
        Ok(_) => panic!("a kernel for low memory"),
    }
    assert!(out.writes.is_empty());
}

#[test]
fn boot_errors_in_words() {
    assert_eq!(
        BootError::BadMagic.message(),
        "not a bzImage: missing 'HdrS' magic at 0x202"
    );
    assert_eq!(
        BootError::ProtocolTooOld { major: 2, minor: 5 }.message(),
        "boot protocol 2.5 too old; need >= 2.06 for 32/64-bit entry"
    );
    assert_eq!(BootError::Memory("x".to_string()).message(), "guest memory error: x");
}

#[test]
fn memory_map_keeps_the_first_128_regions() {
    let img = fake_bzimage();
    let mut out = Recorder::new();
    let mut e820 = Vec::new();
    for i in 0..130u64 {
        e820.push(E820Entry { addr: i * 0x1000, size: 0x1000, kind: 2 });
    }
    load_kernel(&img, "x", &e820, None, None, &mut out).unwrap();
    let zp = &out.writes[2].1;
    assert_eq!(zp[BP_E820_ENTRIES], 128);
    assert_eq!(word(zp, 0x2d0 + 127 * 20), 127 * 0x1000);
    assert_eq!(word(zp, 0x2d0 + 128 * 20), 0);
    // No region is usable memory.
    assert_eq!(word(zp, 0x1e0), 0);
}

#[test]
fn floating_pointer_signature_and_checksum() {
    let t = build(1);
    assert_eq!(&t[0..4], b"_MP_");
    // Floating pointer checksum: first 16 bytes sum to 0.
    let sum = t[0..FLOATING_PTR_LEN].iter().fold(0u8, |a, &b| a.wrapping_add(b));
    assert_eq!(sum, 0);
}

#[test]
fn config_table_signature_and_checksum() {
    let t = build(1);
    let cfg = &t[FLOATING_PTR_LEN..];
    assert_eq!(&cfg[0..4], b"PCMP");
    // base_table_length covers header + entries.
    let base_len = u16::from_le_bytes([cfg[4], cfg[5]]) as usize;
    let sum = cfg[..base_len].iter().fold(0u8, |a, &b| a.wrapping_add(b));
    assert_eq!(sum, 0, "config table checksum must be zero");
}

#[test]
fn scales_with_cpu_count() {
    let one = build(1);
    let four = build(4);
    assert!(four.len() > one.len(), "more CPUs => more processor entries");
}

#[test]
fn mp_tables_hold_what_they_should() {
    let t = build(0);
    assert_eq!(t, build(1));
    assert_eq!(t.len(), 16 + 44 + 20 + 8 * 21);
    assert_eq!(build(255).len(), 16 + 44 + 20 * 255 + 8 * 21);
    assert_eq!(word(&t, 4), 0xF0010);
    let cfg = &t[16..];
    assert_eq!(&cfg[8..16], b"PHOENIX ");
    assert_eq!(&cfg[16..28], b"VMM 0.1     ");
    assert_eq!(u16::from_le_bytes([cfg[34], cfg[35]]), 22);
    assert_eq!(word(cfg, 36), 0xFEE0_0000);
    // The boot processor.
    assert_eq!(&cfg[44..48], &[0, 0, 0x14, 3]);
    assert_eq!(word(cfg, 48), 0x600);
    assert_eq!(word(cfg, 52), 0x201);
    // Bus and IO-APIC.
    assert_eq!(&cfg[64..72], b"\x01\x00ISA   ");
    assert_eq!(&cfg[72..76], &[2, 2, 0x20, 1]);
    assert_eq!(word(cfg, 76), 0xFEC0_0000);
    // The timer on pins 0 and 2, the serial port, the first virtio line.
    assert_eq!(&cfg[80..88], &[3, 0, 0, 0, 0, 0, 2, 0]);
    assert_eq!(&cfg[88..96], &[3, 0, 0, 0, 0, 0, 2, 2]);
    assert_eq!(&cfg[80 + 8 * 5..80 + 8 * 6], &[3, 0, 0, 0, 0, 4, 2, 4]);
    assert_eq!(&cfg[80 + 8 * 6..80 + 8 * 7], &[3, 0, 0xd, 0, 0, 5, 2, 5]);
    assert_eq!(&cfg[80 + 8 * 13..80 + 8 * 14], &[3, 0, 0xd, 0, 0, 12, 2, 12]);
    assert_eq!(&cfg[80 + 8 * 14..80 + 8 * 15], &[3, 0, 0, 0, 0, 13, 2, 13]);
    // Both local interrupts.
    assert_eq!(&cfg[cfg.len() - 16..], &[4, 3, 0, 0, 0, 0, 0xff, 0, 4, 1, 0, 0, 0, 0, 0xff, 1]);
    // The second processor is enabled and is no boot processor.
    assert_eq!(&build(2)[16 + 64..16 + 68], &[0, 1, 0x14, 1]);
}

#[test]
fn ioapic_id_is_no_processors() {
    for n in [1u8, 2, 3, 4, 7, 200, 254, 255] {
        let t = build(n);
        let id = t[69 + 20 * n as usize];
        for i in 0..n as usize {
            assert_eq!(t[61 + 20 * i], i as u8);
            assert_ne!(t[61 + 20 * i], id);
        }
        for j in 0..17 {
            assert_eq!(t[76 + 20 * n as usize + 8 * j + 6], id);
        }
        assert_eq!(id, if n <= 2 { 2 } else { n });
        let sum = t[16..].iter().fold(0u8, |a, &b| a.wrapping_add(b));
        assert_eq!(sum, 0);
    }
}

#[test]
fn without_initrd_none_is_advertised() {
    let mut img = fake_bzimage();
    img[0x218..0x220].fill(0x5a);
    let mut out = Recorder::new();
    load_kernel(&img, "x", &[], None, None, &mut out).unwrap();
    assert_eq!(out.writes[2].1[0x218..0x220], [0u8; 8]);
    // The bytes around them are the image's.
    assert_eq!(out.writes[2].1[0x1f1], 1);
    let mut out = Recorder::new();
    load_kernel(&img, "x", &[], Some(&[1, 2]), None, &mut out).unwrap();
    assert_eq!(word(&out.writes[3].1, 0x218), layout::INITRD_START as u32);
    assert_eq!(word(&out.writes[3].1, 0x21c), 2);
}

#[test]
fn refused_loads_ask_nothing_of_the_rest() {
    // A map and a framebuffer that could not be described, behind an image or a line that is
    // refused.
    let e820 = [E820Entry::ram(u64::MAX, u64::MAX)];
    let fb = Some(FbInfo { base: 0, width: u32::MAX, height: u32::MAX, bpp: 32 });
    let mut out = Recorder::new();
    let long = "x".repeat(3000);
    assert!(matches!(
        load_kernel(&fake_bzimage(), &long, &e820, None, fb, &mut out),
        Err(BootError::CmdlineTooLong(3000))
    ));
    assert!(matches!(
        load_kernel(&[0u8; 10], "x", &e820, None, fb, &mut out),
        Err(BootError::TooSmall(10))
    ));
    assert!(out.writes.is_empty());
}

#[test]
fn virtio_windows_follow_each_other() {
    assert_eq!(layout::virtio_mmio_addr(0), 0xFE00_0000);
    assert_eq!(layout::virtio_mmio_addr(1), 0xFE00_1000);
    assert_eq!(layout::virtio_mmio_addr(7), 0xFE00_7000);
}
