//! Emulated devices.

pub mod access_laws;
pub mod bus;
pub mod device;
pub mod fb;
pub mod pci_stub;
pub mod rtc_cmos;
pub mod uart;
pub mod uart_laws;
pub mod virtio;
