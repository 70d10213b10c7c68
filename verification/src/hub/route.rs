//! Routing a consumer's call: where a failure is reported from.
//!
//! Once the hub has picked the link, the call is handed to the node. The
//! node's own refusal comes back intact as [`RouteError::Node`]; a failure
//! to reach a link the registry believed connected is the hub's to report,
//! as [`RouteError::Hub`].
use vstd::prelude::*;

use crate::protocol::errors::{HubError, NodeError, RouteError};
use crate::protocol::routing::RoutedReply;

verus! {

/// How handing a call to a node went wrong.
#[derive(Debug, PartialEq, Eq)]
pub enum DeliveryFailure {
    /// The node answered with its own refusal.
    Refused(NodeError),
    /// The node could not be reached; the text describes the failure.
    Unreachable(String),
}

/// The consumer's answer once the call has been handed to the node.
pub fn delivery_outcome(delivery: Result<RoutedReply, DeliveryFailure>) -> (r: Result<
    RoutedReply,
    RouteError,
>)
    ensures
        match delivery {
            Ok(reply) => r == Ok::<RoutedReply, RouteError>(reply),
            Err(DeliveryFailure::Refused(e)) => r == Err::<RoutedReply, RouteError>(
                RouteError::Node(e),
            ),
            Err(DeliveryFailure::Unreachable(m)) => r == Err::<RoutedReply, RouteError>(
                RouteError::Hub(HubError::Rejected(m)),
            ),
        },
{
    match delivery {
        Ok(reply) => Ok(reply),
        Err(DeliveryFailure::Refused(e)) => Err(RouteError::Node(e)),
        Err(DeliveryFailure::Unreachable(m)) => Err(RouteError::Hub(HubError::Rejected(m))),
    }
}

/// The consumer's answer when the hub could not pick a link.
pub fn resolution_failure(e: HubError) -> (r: RouteError)
    ensures
        r == RouteError::Hub(e),
{
    RouteError::Hub(e)
}

} // verus!
