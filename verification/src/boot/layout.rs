//! The guest physical memory map: where the boot loader, the device bus and the machine agree
//! that things are.

use vstd::prelude::*;

verus! {

/// Base of low RAM.
pub const RAM_START: u64 = 0x0000_0000;

/// Where the boot parameters ("zero page") are loaded.
pub const ZERO_PAGE_START: u64 = 0x0000_7000;

/// The boot GDT: null, code and data descriptors.
pub const BOOT_GDT_START: u64 = 0x0000_0500;

/// The boot IDT, which is empty.
pub const BOOT_IDT_START: u64 = 0x0000_0520;

/// The page tables that map the first GiB to itself.
pub const PML4_START: u64 = 0x0000_9000;

pub const PDPTE_START: u64 = 0x0000_a000;

pub const PDE_START: u64 = 0x0000_b000;

/// Where the kernel command line is loaded.
pub const CMDLINE_START: u64 = 0x0002_0000;

/// The MP floating pointer, in the range that a guest scans for it; the configuration table
/// follows it.
pub const MPTABLE_START: u64 = 0x000F_0000;

/// Physical address of the local APIC.
pub const APIC_DEFAULT_PHYS: u32 = 0xFEE0_0000;

/// Physical address of the IO-APIC.
pub const IOAPIC_DEFAULT_PHYS: u32 = 0xFEC0_0000;

/// The longest kernel command line, with the zero byte that ends it.
pub const CMDLINE_MAX_LEN: usize = 2048;

/// Where the protected-mode kernel is loaded: 1 MiB.
pub const HIGH_RAM_START: u64 = 0x0010_0000;

/// Where the initrd is loaded.
pub const INITRD_START: u64 = 0x0f00_0000;

/// Base of the virtio-mmio device windows.
pub const VIRTIO_MMIO_BASE: u64 = 0xFE00_0000;

/// Size of each virtio-mmio device's window.
pub const VIRTIO_MMIO_SIZE: u64 = 0x1000;

/// How many virtio-mmio windows are reserved.
pub const VIRTIO_MMIO_COUNT: u64 = 8;

/// Base of the framebuffer aperture.
pub const FRAMEBUFFER_BASE: u64 = 0xD000_0000;

/// Base port of the first serial port.
pub const COM1_PORT_BASE: u16 = 0x3F8;

/// Number of ports of a serial port.
pub const COM1_PORT_SIZE: u16 = 8;

/// Interrupt line of the first serial port.
pub const COM1_IRQ: u32 = 4;

/// Interrupt line of the first virtio-mmio device.
pub const VIRTIO_IRQ_BASE: u32 = 5;

/// The MMIO base of virtio device number `n`, from 0.
pub fn virtio_mmio_addr(n: u64) -> (r: u64)
    requires
        VIRTIO_MMIO_BASE + n * VIRTIO_MMIO_SIZE <= u64::MAX,
    ensures
        r == VIRTIO_MMIO_BASE + n * VIRTIO_MMIO_SIZE,
{
    VIRTIO_MMIO_BASE + n * VIRTIO_MMIO_SIZE
}

/// The windows of two virtio devices share no address, and all of the reserved ones lie
/// behind the framebuffer's base and below 4 GiB, clear of both APICs.
pub proof fn windows_apart(a: u64, b: u64)
    requires
        a < b < VIRTIO_MMIO_COUNT,
    ensures
        VIRTIO_MMIO_BASE + a * VIRTIO_MMIO_SIZE + VIRTIO_MMIO_SIZE <= VIRTIO_MMIO_BASE + b
            * VIRTIO_MMIO_SIZE,
        FRAMEBUFFER_BASE < VIRTIO_MMIO_BASE,
        VIRTIO_MMIO_BASE + b * VIRTIO_MMIO_SIZE + VIRTIO_MMIO_SIZE <= IOAPIC_DEFAULT_PHYS,
        IOAPIC_DEFAULT_PHYS < APIC_DEFAULT_PHYS,
{
}

/// The first virtio device is found at 0xfe00_0000, and each further one a page behind.
pub proof fn windows_follow_each_other(n: u64, a: u64, b: u64)
    requires
        n < 0x1000,
        call_ensures(virtio_mmio_addr, (n,), a),
        call_ensures(virtio_mmio_addr, ((n + 1) as u64,), b),
    ensures
        n == 0 ==> a == 0xfe00_0000,
        b == a + 0x1000,
        a == 0xfe00_0000 + 0x1000 * n,
{
}

/// The boot structures below 1 MiB share no byte: descriptor tables, zero page, the three
/// page tables, a command line of any accepted length, and MP tables for any number of
/// processors, all below the kernel.
pub proof fn boot_structures_apart()
    ensures
        BOOT_GDT_START + 32 <= BOOT_IDT_START,
        BOOT_IDT_START + 8 <= ZERO_PAGE_START,
        ZERO_PAGE_START + 0x1000 <= PML4_START,
        PML4_START + 0x1000 <= PDPTE_START,
        PDPTE_START + 0x1000 <= PDE_START,
        PDE_START + 0x1000 <= CMDLINE_START,
        CMDLINE_START + CMDLINE_MAX_LEN <= MPTABLE_START,
        MPTABLE_START + 16 + 44 + 20 * 255 + 8 * 21 <= HIGH_RAM_START,
        HIGH_RAM_START < INITRD_START < FRAMEBUFFER_BASE,
{
}

} // verus!
