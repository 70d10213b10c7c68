//! Registration — what a reverse-dialing link announces to the hub.
//!
//! Every node dials out to the hub and offers itself there; it never listens
//! for the hub to reach in. A [`Registration`] is the payload of that
//! announcement: which node, which link, and the connectors it serves.
use vstd::prelude::*;

use crate::protocol::connector::{copy_connectors, Connector};
use crate::protocol::identity::{LinkLabel, NodeId};

verus! {

/// A link's self-announcement to the hub on connect.
///
/// The hub keys its registry on `(node, link)`: one node may register several
/// links. Re-registration by an already-known `(node, link)` is expected churn
/// (a reconnect), not an error.
#[derive(Debug, PartialEq, Eq)]
pub struct Registration {
    /// The registry identity this link belongs to.
    pub node: NodeId,
    /// Which link of that node this is; `stable` by default.
    pub link: LinkLabel,
    /// The connectors this link serves.
    pub connectors: Vec<Connector>,
    /// The daemon's version string, for operator visibility during deploys.
    pub agent_version: String,
}

impl Clone for Registration {
    fn clone(&self) -> (r: Self)
        ensures
            r.node == self.node,
            r.link == self.link,
            r.connectors@ == self.connectors@,
            r.agent_version == self.agent_version,
    {
        Registration {
            node: self.node.clone(),
            link: self.link.clone(),
            connectors: copy_connectors(&self.connectors),
            agent_version: self.agent_version.clone(),
        }
    }
}

} // verus!
