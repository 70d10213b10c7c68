//! Node and link identity — how the mesh is addressed.
//!
//! A node is reached by its name in the hub's registry, never by a local
//! endpoint. One machine is one node; a node may offer several links (a
//! default `stable` link and, say, a session-scoped `dev` link), told apart by
//! a [`LinkLabel`].
use vstd::prelude::*;

use crate::sorted_map::TextKey;
use crate::text::same_text;

verus! {

/// A node's stable identity: its name in the hub registry.
///
/// This is the only way a node is addressed. It is stable across a node's
/// links and across daemon restarts.
#[derive(Debug, PartialEq, Eq, Hash)]
pub struct NodeId(pub String);

impl View for NodeId {
    type V = Seq<char>;

    open spec fn view(&self) -> Seq<char> {
        self.0@
    }
}

impl Clone for NodeId {
    fn clone(&self) -> (r: Self)
        ensures
            r == *self,
    {
        NodeId(self.0.clone())
    }
}

impl TextKey for NodeId {
    open spec fn key_view(&self) -> Seq<char> {
        self@
    }

    fn key_text(&self) -> (r: &str) {
        self.0.as_str()
    }
}

/// The text of the distinguished default link.
pub open spec fn stable_name() -> Seq<char> {
    seq!['s', 't', 'a', 'b', 'l', 'e']
}

/// The text of the conventional development link.
pub open spec fn dev_name() -> Seq<char> {
    seq!['d', 'e', 'v']
}

/// Which link of a node a request concerns.
///
/// `stable` is distinguished: it is the routing default and the fallback when
/// a requested link is absent. Other labels (e.g. `dev`) are carried as-is.
#[derive(Debug, PartialEq, Eq, Hash)]
pub struct LinkLabel(pub String);

impl View for LinkLabel {
    type V = Seq<char>;

    open spec fn view(&self) -> Seq<char> {
        self.0@
    }
}

impl Clone for LinkLabel {
    fn clone(&self) -> (r: Self)
        ensures
            r == *self,
    {
        LinkLabel(self.0.clone())
    }
}

impl TextKey for LinkLabel {
    open spec fn key_view(&self) -> Seq<char> {
        self@
    }

    fn key_text(&self) -> (r: &str) {
        self.0.as_str()
    }
}

impl LinkLabel {
    /// The distinguished default/fallback link.
    pub const STABLE: &'static str = "stable";

    /// The conventional development link (its own toolchain environment).
    pub const DEV: &'static str = "dev";

    /// The `stable` link — the routing default.
    pub fn stable() -> (r: Self)
        ensures
            r@ == stable_name(),
    {
        proof {
            reveal_strlit("stable");
        }
        LinkLabel("stable".to_owned())
    }

    /// The `dev` link.
    pub fn dev() -> (r: Self)
        ensures
            r@ == dev_name(),
    {
        proof {
            reveal_strlit("dev");
        }
        LinkLabel("dev".to_owned())
    }

    /// Whether this is the distinguished `stable` link.
    pub fn is_stable(&self) -> (r: bool)
        ensures
            r == (self@ == stable_name()),
    {
        proof {
            reveal_strlit("stable");
            assert("stable"@ =~= stable_name());
        }
        same_text(self.0.as_str(), "stable")
    }
}

impl Default for LinkLabel {
    /// Absent an explicit label, routing targets `stable`.
    fn default() -> (r: Self)
        ensures
            r@ == stable_name(),
    {
        Self::stable()
    }
}

/// A fully-qualified target: a specific link of a specific node.
#[derive(Debug, PartialEq, Eq, Hash)]
pub struct NodeLink {
    pub node: NodeId,
    pub link: LinkLabel,
}

impl Clone for NodeLink {
    fn clone(&self) -> (r: Self)
        ensures
            r == *self,
    {
        NodeLink { node: self.node.clone(), link: self.link.clone() }
    }
}

} // verus!
