//! The per-machine node: its configuration, the connectors it serves, and
//! the decisions it makes while reverse-dialing the hub.
//!
//! A node dials out to the hub, serves the node service there, and registers
//! itself; it never binds a local listener, and it requires a hub to be
//! configured.

pub mod config;
pub mod connector;
pub mod daemon;
pub mod dial;
pub mod files;
pub mod reconnect;
pub mod stub;
pub mod tcp;
