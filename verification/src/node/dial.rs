//! Reverse-dialing the hub: what a node announces, and how a refused dial is
//! reported.
use vstd::prelude::*;
use vstd::string::*;

use crate::node::config::NodeConfig;
use crate::node::connector::{lists_descriptors, Connectors, Connector};
use crate::protocol::errors::HubError;
use crate::protocol::registration::Registration;

verus! {

/// Why a reverse-dial attempt failed.
#[derive(Debug, PartialEq, Eq)]
pub enum DialError {
    /// The connection handshake did not complete.
    Establish(String),
    /// The node ingress lane could not be opened.
    OpenIngress(String),
    /// The hub received the registration and refused it.
    Rejected(HubError),
    /// The register call never got an answer (transport-level failure).
    RegisterTransport(String),
}

impl Clone for DialError {
    fn clone(&self) -> (r: Self)
        ensures
            r == *self,
    {
        match self {
            DialError::Establish(m) => DialError::Establish(m.clone()),
            DialError::OpenIngress(m) => DialError::OpenIngress(m.clone()),
            DialError::Rejected(e) => DialError::Rejected(e.clone()),
            DialError::RegisterTransport(m) => DialError::RegisterTransport(m.clone()),
        }
    }
}

/// What `{:?}` writes for `e`: the text of its derived `Debug`.
pub uninterp spec fn debug_text_of(e: HubError) -> Seq<char>;

/// The debugging text of a hub error.
///
/// Formats `e` with `{:?}`, through the `Debug` that `derive` writes for
/// [`HubError`]. Claimed: the text is [`debug_text_of`] `e`, which depends on
/// `e` alone.
#[verifier::external_body]
fn debug_text(e: &HubError) -> (s: String)
    ensures
        s@ == debug_text_of(*e),
{
    format!("{:?}", e)
}

impl DialError {
    /// The text that reports this error to a person.
    pub fn message(&self) -> (r: String)
        ensures
            match self {
                DialError::Establish(m) => r@ == "hub connection handshake failed: "@ + m@,
                DialError::OpenIngress(m) => r@ == "could not open the NodeIngress lane: "@ + m@,
                DialError::Rejected(e) => r@ == "hub refused registration: "@ + debug_text_of(*e),
                DialError::RegisterTransport(m) => r@ == "register call failed: "@ + m@,
            },
    {
        match self {
            DialError::Establish(m) => {
                let mut t = String::from_str("hub connection handshake failed: ");
                t.append(m.as_str());
                t
            },
            DialError::OpenIngress(m) => {
                let mut t = String::from_str("could not open the NodeIngress lane: ");
                t.append(m.as_str());
                t
            },
            DialError::Rejected(e) => {
                let mut t = String::from_str("hub refused registration: ");
                let d = debug_text(e);
                t.append(d.as_str());
                t
            },
            DialError::RegisterTransport(m) => {
                let mut t = String::from_str("register call failed: ");
                t.append(m.as_str());
                t
            },
        }
    }
}

/// How a register call went wrong.
#[derive(Debug, PartialEq, Eq)]
pub enum RegisterFailure {
    /// The hub answered with its own refusal.
    Refused(HubError),
    /// The call got no answer; the text describes the failure.
    Transport(String),
}

/// The dial error a failed register call amounts to: the hub's refusal kept
/// intact, anything else a transport failure.
pub fn register_outcome(result: Result<(), RegisterFailure>) -> (r: Result<(), DialError>)
    ensures
        match result {
            Ok(()) => r == Ok::<(), DialError>(()),
            Err(RegisterFailure::Refused(e)) => r == Err::<(), DialError>(DialError::Rejected(e)),
            Err(RegisterFailure::Transport(m)) => r == Err::<(), DialError>(
                DialError::RegisterTransport(m),
            ),
        },
{
    match result {
        Ok(()) => Ok(()),
        Err(RegisterFailure::Refused(e)) => Err(DialError::Rejected(e)),
        Err(RegisterFailure::Transport(m)) => Err(DialError::RegisterTransport(m)),
    }
}

/// The registration a node announces when it serves `connectors`: the
/// configured identity, with the descriptors of what is actually served in
/// place of the configured list — unless nothing is served, in which case
/// the configured list stands.
pub fn registration_for(config: &NodeConfig, connectors: &Connectors) -> (r: Registration)
    ensures
        r.node == config.node,
        r.link == config.link,
        r.agent_version == config.agent_version,
        connectors@ == Map::<Seq<char>, Box<dyn Connector>>::empty() ==> r.connectors@
            == config.connectors@,
        connectors@ != Map::<Seq<char>, Box<dyn Connector>>::empty() ==> lists_descriptors(
            r.connectors@,
            connectors@,
        ),
{
    let mut registration = config.registration();
    if !connectors.is_empty() {
        registration.connectors = connectors.descriptors();
    }
    registration
}

} // verus!
