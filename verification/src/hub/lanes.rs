//! Which inbound service a connection asks for decides who it is: nodes
//! arrive on the node ingress, consumers on the consumer API, and nothing
//! else is served.
use vstd::prelude::*;

use crate::text::same_text;

verus! {

/// Who an inbound connection serves.
#[derive(Debug, PartialEq, Eq)]
pub enum Audience {
    /// A node registering its link.
    Node,
    /// A consumer reading the topology and routing calls.
    Consumer,
}

/// The service name nodes dial.
pub open spec fn node_ingress_name() -> Seq<char> {
    "NodeIngress"@
}

/// The service name consumers dial.
pub open spec fn consumer_api_name() -> Seq<char> {
    "ConsumerApi"@
}

/// The audience a connection for `service` belongs to; an unknown service
/// is refused.
pub fn audience_of(service: &str) -> (r: Option<Audience>)
    ensures
        service@ == node_ingress_name() ==> r == Some(Audience::Node),
        service@ == consumer_api_name() ==> r == Some(Audience::Consumer),
        service@ != node_ingress_name() && service@ != consumer_api_name() ==> r is None,
{
    proof {
        reveal_strlit("NodeIngress");
        reveal_strlit("ConsumerApi");
        assert(node_ingress_name()[0] != consumer_api_name()[0]);
    }
    if same_text(service, "NodeIngress") {
        Some(Audience::Node)
    } else if same_text(service, "ConsumerApi") {
        Some(Audience::Consumer)
    } else {
        None
    }
}

} // verus!
