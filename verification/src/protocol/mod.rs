//! The protocol boundary: the messages and identities every role exchanges.
//!
//! Nodes, consumers and the hub all bind to these types; what sits behind
//! them (the registry, the connectors, which node hosts what) stays swappable.

pub mod connector;
pub mod discovery;
pub mod errors;
pub mod identity;
pub mod registration;
pub mod routing;
pub mod service;
pub mod targeting;
