//! Targeting — how a consumer names the link it wants a request routed to.
//!
//! A consumer request targets a node plus an optional link label; the hub
//! routes to the selected link, defaulting to `stable` and falling back to
//! `stable` when the requested link is absent.
use vstd::prelude::*;

use crate::protocol::identity::{stable_name, LinkLabel, NodeId};

verus! {

/// A routing target: a node and, optionally, which of its links to reach.
///
/// `link == None` means the default link, `stable`. An explicit label
/// requests that link; the hub falls back to `stable` if it is not connected.
#[derive(Debug, PartialEq, Eq)]
pub struct LinkSelector {
    pub node: NodeId,
    pub link: Option<LinkLabel>,
}

impl LinkSelector {
    /// The text of the link this selector prefers.
    pub open spec fn preferred_view(&self) -> Seq<char> {
        match self.link {
            Some(l) => l@,
            None => stable_name(),
        }
    }

    /// Target a node's default (`stable`) link.
    pub fn node(node: NodeId) -> (r: Self)
        ensures
            r.node == node,
            r.link is None,
    {
        LinkSelector { node, link: None }
    }

    /// Target a specific link of a node.
    pub fn link(node: NodeId, link: LinkLabel) -> (r: Self)
        ensures
            r.node == node,
            r.link == Some(link),
    {
        LinkSelector { node, link: Some(link) }
    }

    /// The link this selector prefers, resolving `None` to the `stable`
    /// default.
    ///
    /// This is the preferred label only; the hub still falls back to
    /// `stable` if the preferred link is not currently connected.
    pub fn preferred_link(&self) -> (r: LinkLabel)
        ensures
            r@ == self.preferred_view(),
            self.link matches Some(l) ==> r == l,
    {
        match &self.link {
            Some(l) => l.clone(),
            None => LinkLabel::default(),
        }
    }
}

impl Clone for LinkSelector {
    fn clone(&self) -> (r: Self)
        ensures
            r == *self,
    {
        let link = match &self.link {
            Some(l) => Some(l.clone()),
            None => None,
        };
        LinkSelector { node: self.node.clone(), link }
    }
}

} // verus!
