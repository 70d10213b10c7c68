//! [`NodeDaemon`] — the node's service side, dispatching to connectors.
use std::sync::Arc;

use vstd::prelude::*;

use crate::node::config::NodeConfig;
use crate::node::connector::{dispatch_answers, Connectors, Connector};
use crate::protocol::errors::NodeError;
use crate::protocol::identity::NodeId;
use crate::protocol::routing::{RoutedCall, RoutedReply};
use crate::protocol::service::{NodeService, Pong};

verus! {

/// Answers the hub, dispatching routed calls to connectors.
///
/// With no connectors registered every call is refused.
pub struct NodeDaemon {
    node: NodeId,
    agent_version: String,
    connectors: Arc<Connectors>,
}

impl NodeDaemon {
    /// The node this daemon answers for.
    pub closed spec fn node_spec(&self) -> NodeId {
        self.node
    }

    /// The daemon version it reports.
    pub closed spec fn version_spec(&self) -> String {
        self.agent_version
    }

    /// The connectors it serves.
    pub closed spec fn connectors_spec(&self) -> Map<Seq<char>, Box<dyn Connector>> {
        (*self.connectors)@
    }

    /// A daemon for `config`, serving `connectors`.
    pub fn new(config: &NodeConfig, connectors: Arc<Connectors>) -> (r: Self)
        ensures
            r.node_spec() == config.node,
            r.version_spec() == config.agent_version,
            r.connectors_spec() == (*connectors)@,
    {
        NodeDaemon {
            node: config.node.clone(),
            agent_version: config.agent_version.clone(),
            connectors,
        }
    }

    /// A daemon that offers nothing — every routed call is refused.
    pub fn stub(config: &NodeConfig) -> (r: Self)
        ensures
            r.node_spec() == config.node,
            r.version_spec() == config.agent_version,
            r.connectors_spec() == Map::<Seq<char>, Box<dyn Connector>>::empty(),
    {
        Self::new(config, Arc::new(Connectors::new()))
    }
}

impl Clone for NodeDaemon {
    fn clone(&self) -> (r: Self)
        ensures
            r.node_spec() == self.node_spec(),
            r.version_spec() == self.version_spec(),
            r.connectors_spec() == self.connectors_spec(),
    {
        NodeDaemon {
            node: self.node.clone(),
            agent_version: self.agent_version.clone(),
            connectors: Arc::clone(&self.connectors),
        }
    }
}

impl NodeService for NodeDaemon {
    /// Answers with this node's identity and version.
    fn ping(&self) -> (r: Pong)
        ensures
            r.node == self.node_spec(),
            r.agent_version == self.version_spec(),
    {
        Pong { node: self.node.clone(), agent_version: self.agent_version.clone() }
    }

    /// Hands the call to the addressed connector, as
    /// [`Connectors::dispatch`] does: an unknown id is refused, and a known
    /// one answers as its connector does.
    fn deliver(&self, call: RoutedCall) -> (r: Result<RoutedReply, NodeError>)
        ensures
            dispatch_answers(self.connectors_spec(), call.connector@, call.method@, call.payload@, r),
    {
        self.connectors.dispatch(&call)
    }
}

} // verus!
