//! The hub side: the live registry of connected links, and the fan-out of
//! topology changes to subscribers.
//!
//! The hub owns nothing durable except routing — the registry is a projection
//! of who is connected right now.

pub mod lanes;
pub mod registry;
pub mod route;
pub mod subscribers;
