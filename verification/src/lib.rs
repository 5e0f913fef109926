//! The logic of a small virtual machine monitor: guest memory preparation, device models,
//! virtual processor set-up, machine life cycle and the control protocol.

pub mod boot;
pub mod bytes;
pub mod control;
pub mod devices;
pub mod hypervisor;
pub mod text;
pub mod vm;
