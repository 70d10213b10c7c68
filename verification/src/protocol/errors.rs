//! Domain errors carried on the wire.
//!
//! These are protocol errors — the failures a peer can report through a
//! reply. Transport-level failures (a dropped connection) are not modelled
//! here; a node reappears on its own after the hub blinks.
use vstd::prelude::*;

verus! {

/// Why the hub could not satisfy a consumer request.
#[derive(Debug, PartialEq, Eq)]
pub enum HubError {
    /// No node by that name is currently connected (discovery is live).
    UnknownNode,
    /// The node is connected but the requested link is absent and there is
    /// no `stable` link to fall back to.
    UnknownLink,
    /// The selected link's daemon did not accept the routed call.
    Rejected(String),
    /// An unexpected hub-side failure.
    Internal(String),
}

impl Clone for HubError {
    fn clone(&self) -> (r: Self)
        ensures
            r == *self,
    {
        match self {
            HubError::UnknownNode => HubError::UnknownNode,
            HubError::UnknownLink => HubError::UnknownLink,
            HubError::Rejected(m) => HubError::Rejected(m.clone()),
            HubError::Internal(m) => HubError::Internal(m.clone()),
        }
    }
}

/// Why a node could not satisfy a routed call the hub delivered.
#[derive(Debug, PartialEq, Eq)]
pub enum NodeError {
    /// This link offers no connector with that id.
    UnknownConnector,
    /// The connector refused the call.
    Rejected(String),
}

impl Clone for NodeError {
    fn clone(&self) -> (r: Self)
        ensures
            r == *self,
    {
        match self {
            NodeError::UnknownConnector => NodeError::UnknownConnector,
            NodeError::Rejected(m) => NodeError::Rejected(m.clone()),
        }
    }
}

/// Why a routed call failed, keeping where it failed.
///
/// [`RouteError::Hub`] if the hub could not deliver, [`RouteError::Node`] if
/// the addressed connector refused.
#[derive(Debug, PartialEq, Eq)]
pub enum RouteError {
    Hub(HubError),
    Node(NodeError),
}

impl Clone for RouteError {
    fn clone(&self) -> (r: Self)
        ensures
            r == *self,
    {
        match self {
            RouteError::Hub(e) => RouteError::Hub(e.clone()),
            RouteError::Node(e) => RouteError::Node(e.clone()),
        }
    }
}

} // verus!
