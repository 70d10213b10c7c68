//! [`StubNode`] — a node that answers the node service but serves no
//! connectors.
use vstd::prelude::*;

use crate::node::config::NodeConfig;
use crate::protocol::errors::NodeError;
use crate::protocol::identity::NodeId;
use crate::protocol::routing::{RoutedCall, RoutedReply};
use crate::protocol::service::{NodeService, Pong};

verus! {

/// A node-side handler with no connectors wired.
///
/// It answers the hub's liveness probe honestly (so out-of-band deploy
/// checks work) but refuses every routed call — there is nothing behind the
/// edge.
#[derive(Debug)]
pub struct StubNode {
    node: NodeId,
    agent_version: String,
}

impl StubNode {
    /// The node this stub answers for.
    pub closed spec fn node_spec(&self) -> NodeId {
        self.node
    }

    /// The daemon version this stub reports.
    pub closed spec fn version_spec(&self) -> String {
        self.agent_version
    }

    /// A stub identified by its node name and daemon version.
    pub fn new(node: NodeId, agent_version: String) -> (r: Self)
        ensures
            r.node_spec() == node,
            r.version_spec() == agent_version,
    {
        StubNode { node, agent_version }
    }

    /// A stub for the node described by `config`.
    pub fn from_config(config: &NodeConfig) -> (r: Self)
        ensures
            r.node_spec() == config.node,
            r.version_spec() == config.agent_version,
    {
        Self::new(config.node.clone(), config.agent_version.clone())
    }
}

impl Clone for StubNode {
    fn clone(&self) -> (r: Self)
        ensures
            r.node_spec() == self.node_spec(),
            r.version_spec() == self.version_spec(),
    {
        StubNode { node: self.node.clone(), agent_version: self.agent_version.clone() }
    }
}

impl NodeService for StubNode {
    /// Answers with this node's identity and version.
    fn ping(&self) -> (r: Pong)
        ensures
            r.node == self.node_spec(),
            r.agent_version == self.version_spec(),
    {
        Pong { node: self.node.clone(), agent_version: self.agent_version.clone() }
    }

    /// No connectors are wired in the stub — every call is refused.
    fn deliver(&self, call: RoutedCall) -> (r: Result<RoutedReply, NodeError>)
        ensures
            r == Err::<RoutedReply, NodeError>(NodeError::UnknownConnector),
    {
        Err(NodeError::UnknownConnector)
    }
}

} // verus!
