//! The services each role answers.
//!
//! The hub dials back toward a node over [`NodeService`]; the node answers
//! there and never binds a local listener. The transport-facing services
//! (what nodes and consumers dial into the hub) sit outside this library.
use vstd::prelude::*;

use crate::protocol::errors::NodeError;
use crate::protocol::identity::NodeId;
use crate::protocol::routing::{RoutedCall, RoutedReply};

verus! {

/// A node's liveness answer — also the out-of-band deploy check.
///
/// After a self-restarting deploy the honest success signal is "the node
/// answers a trivial command again"; `Pong` carries enough to confirm which
/// version answered.
#[derive(Debug, PartialEq, Eq)]
pub struct Pong {
    pub node: NodeId,
    pub agent_version: String,
}

/// What the hub calls on a node.
pub trait NodeService {
    /// Liveness probe. Trivial by design: it is the out-of-band signal that a
    /// node survived a deploy restart.
    fn ping(&self) -> Pong;

    /// Deliver a routed consumer call to one of this node's connectors.
    fn deliver(&self, call: RoutedCall) -> Result<RoutedReply, NodeError>;
}

} // verus!
