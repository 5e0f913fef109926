//! What a guest kernel finds in memory when it starts.

pub mod layout;
pub mod linux;
pub mod mptable;
pub mod page_laws;
