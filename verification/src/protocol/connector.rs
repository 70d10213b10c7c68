//! Connector descriptors — the capabilities a link offers over the hub.
//!
//! A [`Connector`] here only identifies a capability on the wire; what the
//! capability does lives on the node, outside this contract.
use vstd::prelude::*;

verus! {

/// The kind of capability a connector provides.
///
/// [`ConnectorKind::Other`] keeps the set open: a node may offer capabilities
/// this protocol version does not name, without a wire break.
#[derive(Debug, PartialEq, Eq)]
pub enum ConnectorKind {
    /// Spawn / observe / manage processes.
    ProcessManager,
    /// Interactive sessions (e.g. PTYs).
    Sessions,
    /// File access.
    Files,
    /// One-shot command execution.
    Commands,
    /// A capability not named by this protocol version.
    Other(String),
}

impl Clone for ConnectorKind {
    fn clone(&self) -> (r: Self)
        ensures
            r == *self,
    {
        match self {
            ConnectorKind::ProcessManager => ConnectorKind::ProcessManager,
            ConnectorKind::Sessions => ConnectorKind::Sessions,
            ConnectorKind::Files => ConnectorKind::Files,
            ConnectorKind::Commands => ConnectorKind::Commands,
            ConnectorKind::Other(name) => ConnectorKind::Other(name.clone()),
        }
    }
}

/// A descriptor for one connector a link offers.
///
/// `id` tells apart several connectors of the same kind on one link; it is
/// opaque to the hub.
#[derive(Debug, PartialEq, Eq)]
pub struct Connector {
    pub id: String,
    pub kind: ConnectorKind,
}

impl Clone for Connector {
    fn clone(&self) -> (r: Self)
        ensures
            r == *self,
    {
        Connector { id: self.id.clone(), kind: self.kind.clone() }
    }
}

/// A copy of a list of descriptors.
pub fn copy_connectors(v: &Vec<Connector>) -> (r: Vec<Connector>)
    ensures
        r@ == v@,
{
    let r = v.clone();
    assert(r@ =~= v@);
    r
}

} // verus!
