//! The control plane: the protocol, the machines' manager, what a client's connection does,
//! and the bridge for events.

pub mod events;
pub mod laws;
pub mod manager;
pub mod protocol;
pub mod server;
pub mod session_laws;
