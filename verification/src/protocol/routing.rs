//! Routed calls — the opaque envelope the hub relays to a node's connector.
//!
//! The hub is a router, not an interpreter: it delivers a call to the
//! addressed connector without inspecting the payload.
use vstd::prelude::*;

verus! {

/// One call addressed to a connector on the selected node/link.
///
/// `payload` is opaque to the hub; the connector on the far side decodes it.
#[derive(Debug, PartialEq, Eq)]
pub struct RoutedCall {
    /// Which connector on the target link this addresses (its descriptor id).
    pub connector: String,
    /// A connector-defined method name; opaque to the hub.
    pub method: String,
    /// Connector-defined request bytes; the hub never decodes these.
    pub payload: Vec<u8>,
}

/// The connector's reply to a [`RoutedCall`], relayed back unmodified.
#[derive(Debug, PartialEq, Eq)]
pub struct RoutedReply {
    /// Connector-defined response bytes; opaque to the hub.
    pub payload: Vec<u8>,
}

} // verus!
