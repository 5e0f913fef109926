//! Guest memory, virtual processor state and the boundary towards the hypervisor, in plain
//! values.

pub mod cpuid;
pub mod laws;
pub mod memory;
pub mod paging;
pub mod traits;
pub mod vcpu;
