//! Node configuration — and the rule that a hub is mandatory.
use vstd::prelude::*;
use vstd::string::*;

use crate::protocol::connector::{copy_connectors, Connector};
use crate::protocol::identity::{LinkLabel, NodeId};
use crate::protocol::registration::Registration;

verus! {

/// Where the node dials to reach the hub (e.g. `tcp://127.0.0.1:15400`).
///
/// This is an address the node dials out to; a node never listens for the
/// hub. The text is checked when the transport uses it — see
/// [`HubEndpoint::dial_target`].
#[derive(Debug, PartialEq, Eq)]
pub struct HubEndpoint(pub String);

impl View for HubEndpoint {
    type V = Seq<char>;

    open spec fn view(&self) -> Seq<char> {
        self.0@
    }
}

impl Clone for HubEndpoint {
    fn clone(&self) -> (r: Self)
        ensures
            r == *self,
    {
        HubEndpoint(self.0.clone())
    }
}

/// Why a node could not be configured.
#[derive(Debug, PartialEq, Eq)]
pub enum ConfigError {
    /// No hub endpoint was configured. The hub is mandatory infrastructure,
    /// so this is a hard error, not an idle wait.
    MissingHub,
    /// The hub address names a transport this node cannot dial.
    UnsupportedScheme(String),
}

impl ConfigError {
    /// The text that reports this error to a person.
    pub fn message(&self) -> (r: String)
        ensures
            match self {
                ConfigError::MissingHub => r@ == "no hub configured — a node requires a hub to dial"@,
                ConfigError::UnsupportedScheme(scheme) => r@ == "unsupported hub address scheme `"@
                    + scheme@ + "` (expected tcp)"@,
            },
    {
        match self {
            ConfigError::MissingHub => String::from_str("no hub configured — a node requires a hub to dial"),
            ConfigError::UnsupportedScheme(scheme) => {
                let mut m = String::from_str("unsupported hub address scheme `");
                m.append(scheme.as_str());
                m.append("` (expected tcp)");
                m
            },
        }
    }
}

impl Clone for ConfigError {
    fn clone(&self) -> (r: Self)
        ensures
            r == *self,
    {
        match self {
            ConfigError::MissingHub => ConfigError::MissingHub,
            ConfigError::UnsupportedScheme(s) => ConfigError::UnsupportedScheme(s.clone()),
        }
    }
}

/// Static configuration a node daemon starts from.
///
/// A `NodeConfig` cannot exist without a [`HubEndpoint`]: the only
/// constructor that takes an optional hub ([`NodeConfig::new`]) rejects the
/// `None` case, so the hub-required rule holds by construction.
#[derive(Debug)]
pub struct NodeConfig {
    pub node: NodeId,
    pub link: LinkLabel,
    pub hub: HubEndpoint,
    pub connectors: Vec<Connector>,
    pub agent_version: String,
}

impl Clone for NodeConfig {
    fn clone(&self) -> (r: Self)
        ensures
            r.node == self.node,
            r.link == self.link,
            r.hub == self.hub,
            r.connectors@ == self.connectors@,
            r.agent_version == self.agent_version,
    {
        NodeConfig {
            node: self.node.clone(),
            link: self.link.clone(),
            hub: self.hub.clone(),
            connectors: copy_connectors(&self.connectors),
            agent_version: self.agent_version.clone(),
        }
    }
}

impl NodeConfig {
    /// Build a config from parts, where the hub may be absent (as when read
    /// from the environment). A missing hub is a hard error.
    pub fn new(
        node: NodeId,
        link: LinkLabel,
        hub: Option<HubEndpoint>,
        connectors: Vec<Connector>,
        agent_version: String,
    ) -> (r: Result<Self, ConfigError>)
        ensures
            match r {
                Ok(c) => hub == Some(c.hub) && c.node == node && c.link == link && c.connectors
                    == connectors && c.agent_version == agent_version,
                Err(e) => hub is None && e == ConfigError::MissingHub,
            },
    {
        let hub = match hub {
            Some(h) => h,
            None => {
                return Err(ConfigError::MissingHub);
            },
        };
        Ok(NodeConfig { node, link, hub, connectors, agent_version })
    }

    /// The [`Registration`] this node's link announces to the hub.
    pub fn registration(&self) -> (r: Registration)
        ensures
            r.node == self.node,
            r.link == self.link,
            r.connectors@ == self.connectors@,
            r.agent_version == self.agent_version,
    {
        Registration {
            node: self.node.clone(),
            link: self.link.clone(),
            connectors: copy_connectors(&self.connectors),
            agent_version: self.agent_version.clone(),
        }
    }
}

} // verus!
