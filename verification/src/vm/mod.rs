//! A virtual machine: its life cycle, how it boots and how it runs.

pub mod boot;
pub mod boot_laws;
pub mod exit;
pub mod framebuffer;
pub mod machine;
pub mod message_laws;
pub mod run_laws;
pub mod state;
pub mod tap;
pub mod vm;
