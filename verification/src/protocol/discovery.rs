//! Live topology — what the hub reports about who is connected.
//!
//! The node list a consumer sees is built from live topology: the hub reports
//! which nodes are connected right now, derived from its registry — not a
//! static list that drifts. These types are that report, and the changes
//! that keep it current.
use vstd::prelude::*;

use crate::protocol::connector::Connector;
use crate::protocol::identity::{LinkLabel, NodeId, NodeLink};

verus! {

/// One connected link of a node, with the connectors it currently serves.
#[derive(Debug, PartialEq, Eq)]
pub struct LinkInfo {
    pub link: LinkLabel,
    pub connectors: Vec<Connector>,
}

/// A connected node and all of its currently-connected links.
///
/// One node, many links: `links` carries every link presently registered
/// under this `node`.
#[derive(Debug, PartialEq, Eq)]
pub struct NodeInfo {
    pub node: NodeId,
    pub links: Vec<LinkInfo>,
}

/// A point-in-time view of the whole mesh.
#[derive(Debug, PartialEq, Eq)]
pub struct TopologySnapshot {
    pub nodes: Vec<NodeInfo>,
}

/// One change to the live topology, as sent to subscribers.
#[derive(Debug, PartialEq, Eq)]
pub enum TopologyEvent {
    /// A node became visible with its first link.
    NodeConnected(NodeInfo),
    /// An already-visible node gained another link.
    LinkConnected(NodeId, LinkInfo),
    /// A node lost its last link and is gone.
    NodeDisconnected(NodeId),
    /// A node lost one link and still has others.
    LinkDisconnected(NodeLink),
}

/// Which links each node has: node name to the set of its link labels.
pub type Topology = Map<Seq<char>, Set<Seq<char>>>;

/// The labels listed in a sequence of link reports.
pub open spec fn labels_of(links: Seq<LinkInfo>) -> Set<Seq<char>> {
    Set::new(|l: Seq<char>| exists|j: int| 0 <= j < links.len() && #[trigger] links[j].link@ == l)
}

/// The topology after a subscriber applies `event` to `t`.
pub open spec fn apply_event(t: Topology, event: TopologyEvent) -> Topology {
    match event {
        TopologyEvent::NodeConnected(info) => t.insert(info.node@, labels_of(info.links@)),
        TopologyEvent::LinkConnected(node, info) => t.insert(node@, t[node@].insert(info.link@)),
        TopologyEvent::NodeDisconnected(node) => t.remove(node@),
        TopologyEvent::LinkDisconnected(target) => t.insert(
            target.node@,
            t[target.node@].remove(target.link@),
        ),
    }
}

/// The topology after a subscriber applies a change, or none.
pub open spec fn apply_change(t: Topology, change: Option<TopologyEvent>) -> Topology {
    match change {
        Some(e) => apply_event(t, e),
        None => t,
    }
}

} // verus!
