use std::cell::RefCell;
use std::rc::Rc;

use vm_memory::{GuestAddress, GuestMemory, GuestMemoryMmap, GuestMemoryRegion};

use vmm::boot::layout;
use vmm::boot::linux::{BootError, BootInfo, GuestWrite};
use vmm::devices::bus::{Bus, BusRange};
use vmm::devices::device::{Device, NullIrq};
use vmm::devices::fb::FbGeometry;
use vmm::devices::uart::{NullSink, Uart, REG_DATA};
use vmm::devices::virtio::guest::GuestAccess;
use vmm::devices::virtio::mmio::{DiskReply, VirtioBlkMmio};
use vmm::devices::virtio::net::NetBackend;
use vmm::devices::virtio::net_mmio::VirtioNetMmio;
use vmm::hypervisor::cpuid::{add_kvm_paravirt_leaves, CpuidEntry, CpuidTable};
use vmm::hypervisor::memory::GuestRam;
use vmm::hypervisor::traits::{HypervisorError, LongModeEntry, Vcpu, VcpuExit};
use vmm::hypervisor::vcpu::{
    check_api_version, check_completion, long_mode_general, long_mode_special, pending_after,
    pinned_tsc_khz, real_mode_general, real_mode_special, registers_text, GeneralRegs,
    PendingRead, Segment, SpecialRegs,
};
use vmm::vm::boot::{
    can_load, load, long_mode_entry, memory_size, stack_top, usable_memory, write_tables,
    BootRunError, NET_MAC,
};
use vmm::vm::exit::{
    after_answer, after_run, handle_exit, step, DispatchError, ExitAction, Turn,
};
use vmm::vm::framebuffer::{describable, mapping_size, FbError};
use vmm::vm::machine::{assemble, PcDevice, RunningVm};
use vmm::vm::tap::{after_read, after_write, interface_name, Received, Sent};
use vmm::vm::vm::FbShare;

#[derive(Clone)]
struct Sink(Rc<RefCell<Vec<u8>>>);
impl Device for Sink {
    fn read(&mut self, _o: u64, data: &mut [u8]) {
        data.fill(0x42);
    }
    fn write(&mut self, _o: u64, data: &[u8]) {
        self.0.borrow_mut().extend_from_slice(data);
    }
}

fn bus_with_pio() -> (Bus<Sink>, Sink) {
    let mut bus = Bus::new();
    let dev = Sink(Rc::new(RefCell::new(Vec::new())));
    bus.register_pio(BusRange::new(0x3F8, 8), dev.clone()).unwrap();
    (bus, dev)
}

#[test]
fn io_out_reaches_device() {
    let (mut bus, dev) = bus_with_pio();
    let act = handle_exit(
        VcpuExit::IoOut {
            port: 0x3F8,
            data: b"X".to_vec(),
        },
        &mut bus,
    )
    .unwrap();
    assert!(matches!(act, ExitAction::Continue));
    assert_eq!(&*dev.0.borrow(), b"X");
}

#[test]
fn io_in_returns_completed_read() {
    let (mut bus, _dev) = bus_with_pio();
    let act = handle_exit(VcpuExit::IoIn { port: 0x3F8, len: 1 }, &mut bus).unwrap();
    match act {
        ExitAction::ReadCompleted(d) => assert_eq!(d, vec![0x42]),
        _ => panic!("expected ReadCompleted"),
    }
}

#[test]
fn shutdown_maps_to_shutdown_action() {
    let mut bus: Bus<Sink> = Bus::new();
    assert!(matches!(
        handle_exit(VcpuExit::Shutdown, &mut bus).unwrap(),
        ExitAction::Shutdown
    ));
}

#[test]
fn unknown_exit_is_error() {
    let mut bus: Bus<Sink> = Bus::new();
    let err = handle_exit(VcpuExit::Unhandled("weird".into()), &mut bus).unwrap_err();
    assert!(matches!(err, DispatchError::UnhandledExit(_)));
}

#[test]
fn unknown_exit_is_quoted() {
    let mut bus: Bus<Sink> = Bus::new();
    let err = handle_exit(VcpuExit::Unhandled("a\"b\n".into()), &mut bus).unwrap_err();
    assert_eq!(err.message(), "unhandled vcpu exit: Unhandled(\"a\\\"b\\n\")");
}

#[test]
fn memory_accesses_reach_the_bus() {
    let mut bus = Bus::new();
    let dev = Sink(Rc::new(RefCell::new(Vec::new())));
    bus.register_mmio(BusRange::new(0x1000, 8), dev.clone()).unwrap();
    match after_run(Ok(VcpuExit::MmioRead { addr: 0x1000, len: 4 }), &mut bus) {
        Turn::Answer(b) => assert_eq!(b, vec![0x42; 4]),
        _ => panic!("expected an answer"),
    }
    match after_run(Ok(VcpuExit::MmioRead { addr: 0x2000, len: 2 }), &mut bus) {
        Turn::Answer(b) => assert_eq!(b, vec![0xff; 2]),
        _ => panic!("expected an answer"),
    }
    let w = VcpuExit::MmioWrite { addr: 0x1000, data: vec![1, 2] };
    assert!(matches!(after_run(Ok(w), &mut bus), Turn::Continue));
    assert_eq!(*dev.0.borrow(), vec![1, 2]);
    assert!(matches!(after_run(Ok(VcpuExit::Hlt), &mut bus), Turn::Halted));
    match after_run(Ok(VcpuExit::Shutdown), &mut bus) {
        Turn::Exited(t) => assert_eq!(t, "guest shutdown"),
        _ => panic!("expected the end"),
    }
    match after_run(Ok(VcpuExit::Unhandled("x".into())), &mut bus) {
        Turn::Exited(t) => assert_eq!(t, "unhandled exit: unhandled vcpu exit: Unhandled(\"x\")"),
        _ => panic!("expected the end"),
    }
    match after_run(Err(HypervisorError::Memory("m".into())), &mut bus) {
        Turn::Exited(t) => assert_eq!(t, "vcpu error: guest memory error: m"),
        _ => panic!("expected the end"),
    }
    assert!(matches!(after_answer(Ok(())), Turn::Continue));
    match after_answer(Err(HypervisorError::MissingCapability("c"))) {
        Turn::Exited(t) => assert_eq!(t, "completion: required KVM capability missing: c"),
        _ => panic!("expected the end"),
    }
}

/// A processor that stops for what it is given, and keeps what it is answered.
struct Script {
    exits: Vec<VcpuExit>,
    pending: PendingRead,
    answers: Vec<Vec<u8>>,
}

impl Vcpu for Script {
    fn setup_initial_state(&mut self, _entry_point: u64) -> Result<(), HypervisorError> {
        Ok(())
    }
    fn set_instruction_pointer(&mut self, _rip: u64) -> Result<(), HypervisorError> {
        Ok(())
    }
    fn setup_long_mode(&mut self, _entry: LongModeEntry) -> Result<(), HypervisorError> {
        Ok(())
    }
    fn run(&mut self) -> Result<VcpuExit, HypervisorError> {
        let e = self.exits.remove(0);
        self.pending = pending_after(&e);
        Ok(e)
    }
    fn debug_registers(&self) -> Result<String, HypervisorError> {
        Ok(String::new())
    }
    fn set_exit_result(&mut self, data: &[u8]) -> Result<(), HypervisorError> {
        check_completion(self.pending, data.len())?;
        self.answers.push(data.to_vec());
        Ok(())
    }
}

#[test]
fn turns_of_a_processor() {
    let (mut bus, dev) = bus_with_pio();
    let mut cpu = Script {
        exits: vec![
            VcpuExit::IoIn { port: 0x3f8, len: 2 },
            VcpuExit::IoOut { port: 0x3f9, data: vec![7] },
            VcpuExit::Hlt,
            VcpuExit::Shutdown,
        ],
        pending: PendingRead::Nothing,
        answers: Vec::new(),
    };
    assert!(matches!(step(&mut cpu, &mut bus), Turn::Continue));
    assert_eq!(cpu.answers, vec![vec![0x42, 0x42]]);
    assert!(matches!(step(&mut cpu, &mut bus), Turn::Continue));
    assert_eq!(*dev.0.borrow(), vec![7]);
    assert!(matches!(step(&mut cpu, &mut bus), Turn::Halted));
    assert!(matches!(step(&mut cpu, &mut bus), Turn::Exited(_)));
}

#[test]
fn answers_must_fit() {
    let mmio = pending_after(&VcpuExit::MmioRead { addr: 1, len: 4 });
    assert!(check_completion(mmio, 4).is_ok());
    assert_eq!(
        check_completion(mmio, 3).unwrap_err().message(),
        "guest memory error: mmio completion length mismatch: expected 4, got 3"
    );
    let io = pending_after(&VcpuExit::IoIn { port: 1, len: 1 });
    assert_eq!(
        check_completion(io, 12).unwrap_err().message(),
        "guest memory error: io completion length mismatch: expected 1, got 12"
    );
    let none = pending_after(&VcpuExit::Hlt);
    assert_eq!(
        check_completion(none, 0).unwrap_err().message(),
        "attempted to complete a vcpu exit (no pending read exit) that does not expect a data payload"
    );
}

#[test]
fn hypervisor_errors_in_words() {
    let io = || std::io::Error::from(std::io::ErrorKind::NotFound);
    let e = HypervisorError::Ioctl { ioctl: "KVM_RUN", source: io() };
    assert_eq!(e.message_with("busy"), "kvm ioctl `KVM_RUN` failed: busy");
    assert!(e.message().starts_with("kvm ioctl `KVM_RUN` failed: "));
    assert!(e.message().len() > "kvm ioctl `KVM_RUN` failed: ".len());
    assert_eq!(
        HypervisorError::Open(io()).message_with("x"),
        "failed to open the hypervisor device: x"
    );
    assert_eq!(
        check_api_version(-3).unwrap_err().message(),
        "unsupported KVM API version -3, expected 12"
    );
    assert!(check_api_version(12).is_ok());
    assert_eq!(pinned_tsc_khz(0), 2_000_000);
    assert_eq!(pinned_tsc_khz(7), 7);
}

fn segment() -> Segment {
    Segment {
        base: 1,
        limit: 2,
        selector: 3,
        type_: 4,
        present: 5,
        dpl: 6,
        db: 7,
        s: 8,
        l: 9,
        g: 10,
        avl: 11,
        unusable: 12,
        padding: 13,
    }
}

fn special() -> SpecialRegs {
    SpecialRegs {
        cs: segment(),
        ds: segment(),
        es: segment(),
        fs: segment(),
        gs: segment(),
        ss: segment(),
        gdt_base: 1,
        gdt_limit: 2,
        cr0: 0x6000_0010,
        cr3: 4,
        cr4: 0x40,
        efer: 1,
    }
}

#[test]
fn long_mode_registers() {
    let entry = LongModeEntry {
        entry_point: 0x10_0200,
        boot_params: 0x7000,
        stack_top: 0x8000,
        pml4_addr: 0x9000,
        gdt_addr: 0x500,
    };
    let s = long_mode_special(special(), entry);
    assert_eq!(s.cr0, 0xe000_0013);
    assert_eq!(s.cr3, 0x9000);
    assert_eq!(s.cr4, 0x60);
    assert_eq!(s.efer, 0x501);
    assert_eq!((s.cs.selector, s.cs.type_, s.cs.l, s.cs.db), (8, 11, 1, 0));
    assert_eq!((s.ss.selector, s.ss.type_, s.ss.l, s.ss.db), (16, 3, 0, 1));
    assert_eq!((s.gdt_base, s.gdt_limit), (0x500, 23));
    let g = long_mode_general(entry);
    assert_eq!((g.rip, g.rsi, g.rsp, g.rbp, g.rflags), (0x10_0200, 0x7000, 0x8000, 0x8000, 2));
}

#[test]
fn registers_in_words() {
    let g = GeneralRegs { rip: 0x10_0200, rsi: 0x7000, rsp: u64::MAX, rbp: 3, rflags: 2 };
    let mut s = special();
    s.cs.selector = 0x18;
    let (r, c) = (g, s);
    let want = format!(
        "RIP={:#018x} RSP={:#018x} RFLAGS={:#x} RSI={:#x}\n\
         CR0={:#x} CR3={:#x} CR4={:#x} EFER={:#x}\n\
         CS.base={:#x} CS.sel={:#x} CS.l={} CS.db={} CS.present={}\n\
         GDT.base={:#x} GDT.limit={:#x}",
        r.rip, r.rsp, r.rflags, r.rsi,
        c.cr0, c.cr3, c.cr4, c.efer,
        c.cs.base, c.cs.selector, c.cs.l, c.cs.db, c.cs.present,
        c.gdt_base, c.gdt_limit,
    );
    assert_eq!(registers_text(&s, &g), want);
    assert!(want.starts_with("RIP=0x0000000000100200 RSP=0xffffffffffffffff RFLAGS=0x2 "));
}

#[test]
fn ram_over_a_mapping() {
    let map = || GuestMemoryMmap::from_ranges(&[(GuestAddress(0x4000), 0x1000)]).unwrap();
    let m = map();
    let first = m.get_host_address(GuestAddress(0x4000)).unwrap() as u64;
    let mut ram = GuestRam::over(m, 0x4000, 0x1000, 7).unwrap();
    let r = ram.regions()[0];
    assert_eq!((r.slot, r.guest_phys_addr, r.size, r.host_addr), (7, 0x4000, 0x1000, first));
    assert_eq!(ram.regions().len(), 1);
    ram.write_u16(0x4ffe, 0x0102).unwrap();
    assert_eq!(ram.read_vec(0x4ffe, 2).unwrap(), vec![2, 1]);
    match GuestRam::over(map(), 0x5000, 0x1000, 7) {
        Err(e) => assert_eq!(e.message(), "guest memory error: region vanished after creation"),
        Ok(_) => panic!("there is nothing at that address"),
    }
    assert_eq!(
        GuestRam::not_mapped("no room").message(),
        "guest memory error: mmap guest RAM: no room"
    );
}

#[test]
fn real_mode_registers() {
    let s = real_mode_special(special(), 0x2_1234);
    assert_eq!(s.cs.base, 0x2_0000);
    assert_eq!(s.cs.selector, 0x2000);
    assert_eq!(s.cs.limit, 2);
    assert_eq!(s.cr0, 0x6000_0010);
    let g = GeneralRegs { rip: 0, rsi: 1, rsp: 2, rbp: 3, rflags: 4 };
    let g = real_mode_general(g, 0x2_1234);
    assert_eq!((g.rip, g.rsi, g.rflags), (0x1234, 1, 2));
}

fn leaf(function: u32, index: u32, ecx: u32) -> CpuidEntry {
    CpuidEntry { function, index, flags: 5, eax: 1, ebx: 2, ecx, edx: 4, padding: [0; 3] }
}

#[test]
fn paravirt_leaves_are_set_anew() {
    let host = vec![
        leaf(1, 0, 0xffff_ffff),
        leaf(0x4000_0000, 0, 0),
        leaf(1, 1, 0xffff_ffff),
        leaf(0x4000_0001, 0, 0),
        leaf(7, 0, 0x0100_0000),
    ];
    let t = CpuidTable::from_leaves(&host).unwrap();
    assert_eq!(t.leaves().len(), 5);
    assert_eq!(t.leaves()[4].function, 7);
    let g = add_kvm_paravirt_leaves(&t).unwrap().leaves();
    assert_eq!(g.len(), 5);
    assert_eq!((g[0].function, g[0].ecx, g[0].flags), (1, 0xfeff_ffff, 5));
    assert_eq!((g[1].index, g[1].ecx), (1, 0xffff_ffff));
    assert_eq!((g[2].function, g[2].ecx), (7, 0x0100_0000));
    assert_eq!(g[3].function, 0x4000_0000);
    assert_eq!(g[3].eax, 0x4000_0001);
    let mut name = Vec::new();
    for r in [g[3].ebx, g[3].ecx, g[3].edx] {
        name.extend_from_slice(&r.to_le_bytes());
    }
    assert_eq!(name, b"KVMKVMKVM\0\0\0");
    assert_eq!((g[4].function, g[4].eax), (0x4000_0001, 0x0100_0009));
}

#[test]
fn too_many_leaves_are_refused() {
    let host: Vec<CpuidEntry> = (0..80).map(|i| leaf(i, 0, 0)).collect();
    let t = CpuidTable::from_leaves(&host).unwrap();
    match add_kvm_paravirt_leaves(&t) {
        Err(e) => assert_eq!(
            e.message(),
            "guest memory error: failed to rebuild CPUID with kvm paravirt leaves"
        ),
        Ok(_) => panic!("there is no room"),
    }
    assert!(CpuidTable::from_leaves(&host[..78].to_vec()).is_some());
    assert!(add_kvm_paravirt_leaves(&CpuidTable::from_leaves(&host[..78].to_vec()).unwrap()).is_ok());
    let more: Vec<CpuidEntry> = (0..81).map(|i| leaf(i, 0, 0)).collect();
    assert!(CpuidTable::from_leaves(&more).is_none());
}

#[test]
fn guest_ram_reads_back() {
    let mut ram = GuestRam::new_single(0x1000, 0x2000, 3).unwrap();
    assert_eq!(ram.total_size(), 0x2000);
    let r = ram.regions()[0];
    assert_eq!((r.slot, r.guest_phys_addr, r.size), (3, 0x1000, 0x2000));
    // The region's host address is where its first byte stands.
    let first = ram.inner().get_host_address(GuestAddress(0x1000)).unwrap();
    assert_eq!(r.host_addr, first as u64);
    ram.write_slice(0x1ffe, &[1, 2, 3, 4]).unwrap();
    assert_eq!(ram.read_vec(0x1ffe, 4).unwrap(), vec![1, 2, 3, 4]);
    assert_eq!(ram.read_u16(0x1fff), Some(0x0302));
    assert_eq!(ram.read_u32(0x1ffe), Some(0x0403_0201));
    assert_eq!(ram.read_u64(0x1ffe), Some(0x0403_0201));
    ram.write_u32(0x1100, 0xdead_beef).unwrap();
    ram.write_u16(0x1104, 0x1234).unwrap();
    assert_eq!(ram.read_vec(0x1100, 6).unwrap(), vec![0xef, 0xbe, 0xad, 0xde, 0x34, 0x12]);
    // A run is accepted only whole, at both ends; the empty one where there is memory.
    assert!(ram.read_vec(0x2ffe, 2).is_ok());
    assert!(ram.read_vec(0x2fff, 2).is_err());
    assert!(ram.read_vec(0xfff, 1).is_err());
    assert!(ram.read_vec(0x1000, 0).is_ok());
    assert!(ram.read_vec(0x3000, 0).is_err());
    // What fits of a refused store is stored.
    let e = ram.write_slice(0x2fff, &[9, 9]).unwrap_err();
    assert_eq!(
        e.message(),
        "guest memory error: write @ 0x2fff: Guest memory error: only used 1 bytes in 2 long buffer"
    );
    assert_eq!(ram.read_vec(0x2fff, 1).unwrap(), vec![9]);
    assert_eq!(ram.write_u32(0x3000, 1), None);
    assert_eq!(ram.read_u64(u64::MAX), None);
    let e = ram.read_vec(0x10, 1).unwrap_err();
    assert_eq!(
        e.message(),
        "guest memory error: read @ 0x10: Guest memory error: invalid guest address 16"
    );
    let e = GuestWrite::write(&mut ram, 0, &[1]).unwrap_err();
    assert_eq!(e, "guest memory error: write @ 0x0: Guest memory error: invalid guest address 0");
    assert!(GuestWrite::write(&mut ram, 0x1000, &[1]).is_ok());
    assert!(vm_memory_len(&ram) > 0);
}

fn vm_memory_len(ram: &GuestRam) -> u64 {
    ram.inner().iter().map(|r| r.len()).sum()
}

#[test]
fn empty_ram_is_refused() {
    match GuestRam::new_single(0, 0, 0) {
        Err(e) => assert!(e.message().starts_with("guest memory error: mmap guest RAM: ")),
        Ok(_) => panic!("there is nothing to map"),
    }
    assert!(GuestRam::new_single(u64::MAX - 0xfff, 0x1000, 0).is_err());
}

#[test]
fn boot_gdt_in_memory() {
    let mut ram = GuestRam::new_single(0, 0x1000, 0).unwrap();
    ram.write_boot_gdt(0x500).unwrap();
    assert_eq!(ram.read_u64(0x500), Some(0));
    assert_eq!(ram.read_u64(0x508), Some(0x00af_9b00_0000_ffff));
    assert_eq!(ram.read_u64(0x510), Some(0x00cf_9300_0000_ffff));
    assert!(ram.write_boot_gdt(0xff0).is_err());
}

/// The physical address of `va`, as a processor finds it.
fn walk(ram: &GuestRam, cr3: u64, va: u64) -> Option<u64> {
    let l4 = ram.read_u64(cr3 + 8 * (va >> 39 & 511))?;
    let l3 = ram.read_u64((l4 & !0xfff) + 8 * (va >> 30 & 511))?;
    let l2 = ram.read_u64((l3 & !0xfff) + 8 * (va >> 21 & 511))?;
    if l4 & l3 & l2 & 1 == 0 || l2 & 0x80 == 0 {
        return None;
    }
    Some((l2 & !0x1f_ffff) + (va & 0x1f_ffff))
}

#[test]
fn page_tables_map_the_first_gib_to_itself() {
    let mut ram = GuestRam::new_single(0, 0x10_0000, 0).unwrap();
    ram.write_identity_page_tables(0x9000, 0xa000, 0xb000).unwrap();
    for va in [0, 0x1234, 0x20_0000, 0x1fff_ffff, 0x3fff_ffff] {
        assert_eq!(walk(&ram, 0x9000, va), Some(va));
    }
    assert_eq!(ram.read_u64(0xb008), Some(0x20_0083));
    assert!(ram.write_identity_page_tables(0x9000, 0xa000, 0xff_f000).is_err());
}

fn kernel() -> Vec<u8> {
    let mut img = vec![0u8; 0x2000];
    img[0x1f1] = 1;
    img[0x202..0x206].copy_from_slice(b"HdrS");
    img[0x206] = 0x0c;
    img[0x207] = 0x02;
    img[0x211] = 1;
    img[1024] = 0x99;
    img
}

#[test]
fn guest_is_made_ready() {
    let size = memory_size(256).unwrap();
    assert_eq!(size, 256 * 1024 * 1024);
    let usable = usable_memory(size);
    let mut ram = GuestRam::new_single(0, size, 0).unwrap();
    write_tables(&mut ram).unwrap();
    let img = kernel();
    assert!(can_load(&img, "quiet", Some(FbGeometry::new(8, 4))));
    let fb = FbGeometry::new(8, 4);
    let info: BootInfo = load(&mut ram, &img, "quiet", usable, Some(&[5, 6]), Some(fb)).unwrap();
    assert_eq!(walk(&ram, 0x9000, 0x12_3456), Some(0x12_3456));
    assert_eq!(ram.read_vec(layout::MPTABLE_START, 4).unwrap(), b"_MP_");
    assert_eq!(ram.read_vec(layout::HIGH_RAM_START, 1).unwrap(), vec![0x99]);
    assert_eq!(ram.read_vec(layout::CMDLINE_START, 6).unwrap(), b"quiet\0");
    assert_eq!(ram.read_vec(layout::INITRD_START, 2).unwrap(), vec![5, 6]);
    assert_eq!(ram.read_u32(layout::ZERO_PAGE_START + 0x1c), Some(8 * 4 * 4));
    assert_eq!(ram.read_u64(layout::BOOT_GDT_START + 8), Some(0x00af_9b00_0000_ffff));
    let e = long_mode_entry(&info, usable);
    assert_eq!(e.entry_point, 0x10_0200);
    assert_eq!(e.boot_params, 0x7000);
    assert_eq!(e.stack_top, 256 * 1024 * 1024 - 0x1000);
    assert_eq!((e.pml4_addr, e.gdt_addr), (0x9000, 0x500));
}

#[test]
fn guest_that_cannot_be_made_ready() {
    let mut ram = GuestRam::new_single(0, 0x8000, 0).unwrap();
    assert!(matches!(write_tables(&mut ram), Err(BootRunError::Hypervisor(_))));
    let mut ram = GuestRam::new_single(0, 0xf_0000, 0).unwrap();
    match write_tables(&mut ram) {
        Err(BootRunError::Boot(BootError::Memory(e))) => {
            assert_eq!(
                e,
                "guest memory error: write @ 0xf0000: Guest memory error: invalid guest address 983040"
            )
        }
        _ => panic!("no room for the MP tables"),
    }
    let mut ram = GuestRam::new_single(0, 0x10_0000, 0).unwrap();
    assert!(matches!(
        load(&mut ram, &kernel(), "x", 0x10_0000, None, None),
        Err(BootError::Memory(_))
    ));
    assert!(matches!(
        load(&mut ram, &kernel()[..100], "x", 0x10_0000, None, None),
        Err(BootError::TooSmall(100))
    ));
    let mut short = kernel();
    short[0x1f1] = 255;
    assert!(!can_load(&short, "x", None));
    assert!(can_load(&short[..100], "x", None));
    assert!(!can_load(&kernel(), "x", Some(FbGeometry::new(0x8000, 0x8000))));
    assert!(!can_load(&kernel(), "x", Some(FbGeometry::new(0, 1))));
    // What is refused with an error can be asked for: too long a line, whatever the rest is.
    let long = "x".repeat(2048);
    let wide = Some(FbGeometry::new(0x8000, 0x8000));
    assert!(can_load(&short, &long, wide));
    assert!(matches!(
        load(&mut ram, &short, &long, 0x10_0000, None, wide),
        Err(BootError::CmdlineTooLong(2048))
    ));
}

#[test]
fn memory_is_planned() {
    assert_eq!(memory_size(u64::MAX), None);
    assert_eq!(usable_memory(0x1_0000_0000), 0xFE00_0000);
    assert_eq!(usable_memory(0x1000), 0x1000);
    assert_eq!(stack_top(0x1000), 0);
    assert_eq!(stack_top(0x2007), 0x1000);
    assert_eq!(stack_top(0xFE00_0000), 0x3fff_f000);
}

#[test]
fn boot_run_errors_in_words() {
    let io = || std::io::Error::from(std::io::ErrorKind::NotFound);
    let read = BootRunError::KernelRead { path: "k".into(), source: io() };
    assert_eq!(read.message_with("gone"), "failed to read kernel image k: gone");
    assert_eq!(BootRunError::Tap(io()).message_with("x"), "tap network device: x");
    assert_eq!(BootRunError::NoKernel.message_with(""), "no kernel configured for this VM");
    assert_eq!(
        BootRunError::Boot(BootError::Memory("m".into())).message_with(""),
        "boot loader: guest memory error: m"
    );
    assert_eq!(
        BootRunError::Framebuffer(FbError::BadSize).message_with(""),
        "framebuffer: invalid framebuffer size"
    );
    assert_eq!(
        BootRunError::Framebuffer(FbError::Syscall("e".into())).message_with(""),
        "framebuffer: memfd/mmap syscall failed: e"
    );
    assert_eq!(
        BootRunError::Hypervisor(HypervisorError::Open(io())).message_with("e"),
        "hypervisor: failed to open the hypervisor device: e"
    );
}

#[test]
fn framebuffer_sizes() {
    assert_eq!(mapping_size(FbGeometry::new(640, 480)).unwrap(), 1_228_800);
    assert!(matches!(mapping_size(FbGeometry::new(0, 480)), Err(FbError::BadSize)));
    assert!(describable(FbGeometry::new(0x7fff, 0x7fff)));
    assert!(!describable(FbGeometry::new(0x8000, 0x8000)));
    assert!(!describable(FbGeometry::new(0, 9)));
}

#[test]
fn tap_decisions() {
    assert_eq!(interface_name("tap0").unwrap()[..5], *b"tap0\0");
    assert_eq!(interface_name("tap0").unwrap()[15], 0);
    assert!(interface_name("0123456789abcde").is_some());
    assert!(interface_name("0123456789abcdef").is_none());
    assert!(matches!(after_write(60, false), Sent::Done));
    assert!(matches!(after_write(-1, true), Sent::Done));
    assert!(matches!(after_write(-1, false), Sent::Failed));
    assert!(matches!(after_read(60, false), Received::Frame(60)));
    assert!(matches!(after_read(0, false), Received::Nothing));
    assert!(matches!(after_read(-1, true), Received::Nothing));
    assert!(matches!(after_read(-1, false), Received::Failed));
}

struct NoNet;
impl NetBackend for NoNet {
    fn transmit(&mut self, _frame: &[u8]) -> std::io::Result<()> {
        Ok(())
    }
    fn receive(&mut self) -> std::io::Result<Option<Vec<u8>>> {
        Ok(None)
    }
}

type Pc = RunningVm<NullSink, NullIrq, GuestRam, NoNet>;

fn pc(disk: bool, net: bool) -> Pc {
    let ram = || GuestRam::new_single(0, 0x1000, 0).unwrap();
    let blk = if disk { Some(VirtioBlkMmio::new(64, ram(), NullIrq)) } else { None };
    let card = if net { Some(VirtioNetMmio::new(NoNet, ram(), NullIrq, NET_MAC)) } else { None };
    let bus: Bus<PcDevice<NullSink, NullIrq, GuestRam, NoNet>> =
        assemble(Uart::new(NullSink), blk, card).unwrap();
    RunningVm::new(bus, Some(FbShare { fd: 4, width: 1, height: 1, size: 4 }))
}

#[test]
fn devices_answer_where_they_belong() {
    let mut vm = pc(true, true);
    let mut b = [0u8; 4];
    vm.bus().read_mmio(0xFE00_0008, &mut b);
    assert_eq!(u32::from_le_bytes(b), 2);
    vm.bus().read_mmio(0xFE00_1008, &mut b);
    assert_eq!(u32::from_le_bytes(b), 1);
    vm.bus().read_mmio(0xFE00_2008, &mut b);
    assert_eq!(b, [0xff; 4]);
    vm.bus().read_pio(0xcfc, &mut b);
    assert_eq!(b, [0xff; 4]);
    vm.bus().read_pio(0xcf8, &mut b);
    assert_eq!(b, [0; 4]);
    let mut one = [0u8; 1];
    vm.bus().read_pio(0x3fd, &mut one);
    assert_eq!(one, [0x60]);
    vm.bus().write_pio(0x70, &[0x0d]);
    vm.bus().read_pio(0x71, &mut one);
    assert_eq!(one, [0x80]);
    let mut mac = [0u8; 6];
    vm.bus().read_mmio(0xFE00_1100, &mut mac);
    assert_eq!(mac, [0x52, 0x54, 0x00, 0x12, 0x34, 0x56]);
}

#[test]
fn running_machine_takes_input_and_stops() {
    let mut vm = pc(false, true);
    vm.feed_serial(b"q");
    let mut one = [0u8; 1];
    vm.bus().read_pio(0x3f8 + REG_DATA, &mut one);
    assert_eq!(one, *b"q");
    assert!(!vm.is_stopping());
    vm.stop();
    assert!(vm.is_stopping());
    assert_eq!(vm.framebuffer().unwrap().fd, 4);
    assert!(matches!(vm.poll_rx_once(), Some(Ok(false))));
    assert!(vm.disk_op().is_none());
    vm.disk_done(DiskReply::Done);
    let mut vm = pc(true, true);
    assert!(matches!(vm.poll_rx_once(), Some(Ok(false))));
    assert!(vm.disk_op().is_none());
    let mut vm = pc(true, false);
    assert!(vm.poll_rx_once().is_none());
    let mut b = [0u8; 8];
    vm.bus().read_mmio(0xFE00_0100, &mut b);
    assert_eq!(u64::from_le_bytes(b), 64);
}
