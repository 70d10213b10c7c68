use std::sync::Arc;
use std::time::Duration;

use hub_mesh::node::config::{ConfigError, HubEndpoint, NodeConfig};
use hub_mesh::node::connector::{Connector, Connectors};
use hub_mesh::node::daemon::NodeDaemon;
use hub_mesh::node::files::FilesConnector;
use hub_mesh::node::reconnect::Backoff;
use hub_mesh::node::stub::StubNode;
use hub_mesh::protocol::connector::{Connector as ConnectorDescriptor, ConnectorKind};
use hub_mesh::protocol::errors::NodeError;
use hub_mesh::protocol::identity::{LinkLabel, NodeId};
use hub_mesh::protocol::routing::RoutedCall;
use hub_mesh::protocol::service::NodeService;

fn parts() -> (NodeId, LinkLabel, Vec<ConnectorDescriptor>, String) {
    (
        NodeId("alpha".to_string()),
        LinkLabel::stable(),
        vec![ConnectorDescriptor {
            id: "pm-0".to_string(),
            kind: ConnectorKind::ProcessManager,
        }],
        "0.0.0".to_string(),
    )
}

#[test]
fn missing_hub_is_a_hard_error() {
    let (node, link, connectors, version) = parts();
    let err = NodeConfig::new(node, link, None, connectors, version).unwrap_err();
    assert_eq!(err, ConfigError::MissingHub);
}

#[test]
fn config_with_hub_is_accepted() {
    let (node, link, connectors, version) = parts();
    let cfg = NodeConfig::new(
        node,
        link,
        Some(HubEndpoint("tcp://127.0.0.1:15400".to_string())),
        connectors,
        version,
    )
    .unwrap();
    assert_eq!(cfg.hub, HubEndpoint("tcp://127.0.0.1:15400".to_string()));
}

#[test]
fn registration_carries_config_identity_and_connectors() {
    let (node, link, connectors, version) = parts();
    let cfg = NodeConfig::new(
        node.clone(),
        link.clone(),
        Some(HubEndpoint("tcp://127.0.0.1:15400".to_string())),
        connectors.clone(),
        version.clone(),
    )
    .unwrap();
    let reg = cfg.registration();
    assert_eq!(reg.node, node);
    assert_eq!(reg.link, link);
    assert_eq!(reg.connectors, connectors);
    assert_eq!(reg.agent_version, version);
}

struct Echo;

impl Connector for Echo {
    fn descriptor(&self) -> ConnectorDescriptor {
        ConnectorDescriptor {
            id: "echo-0".to_string(),
            kind: ConnectorKind::Other("echo".to_string()),
        }
    }

    fn call(&self, method: &str, payload: &[u8]) -> Result<Vec<u8>, NodeError> {
        match method {
            "echo" => Ok(payload.to_vec()),
            other => Err(NodeError::Rejected(format!("unknown method `{other}`"))),
        }
    }
}

fn call(connector: &str, method: &str) -> RoutedCall {
    RoutedCall {
        connector: connector.to_string(),
        method: method.to_string(),
        payload: vec![1, 2, 3],
    }
}

fn registry() -> Connectors {
    let mut c = Connectors::new();
    c.register(Box::new(Echo));
    c
}

#[test]
fn dispatch_reaches_the_addressed_connector() {
    let reply = registry().dispatch(&call("echo-0", "echo")).unwrap();
    assert_eq!(reply.payload, vec![1, 2, 3]);
}

#[test]
fn an_unknown_connector_id_is_refused() {
    let err = registry().dispatch(&call("nope-0", "echo")).unwrap_err();
    assert_eq!(err, NodeError::UnknownConnector);
}

#[test]
fn an_unknown_method_is_refused_by_the_connector() {
    let err = registry().dispatch(&call("echo-0", "nope")).unwrap_err();
    assert!(matches!(err, NodeError::Rejected(_)));
}

#[test]
fn a_node_with_no_connectors_refuses_everything() {
    let err = Connectors::new().dispatch(&call("echo-0", "echo")).unwrap_err();
    assert_eq!(err, NodeError::UnknownConnector);
}

#[test]
fn descriptors_advertise_what_is_registered() {
    let descriptors = registry().descriptors();
    assert_eq!(descriptors.len(), 1);
    assert_eq!(descriptors[0].id, "echo-0");
}

fn config() -> NodeConfig {
    NodeConfig::new(
        NodeId("alpha".to_string()),
        LinkLabel::stable(),
        Some(HubEndpoint("127.0.0.1:1".to_string())),
        Vec::new(),
        "0.0.0".to_string(),
    )
    .unwrap()
}

fn daemon_call() -> RoutedCall {
    RoutedCall {
        connector: "echo-0".to_string(),
        method: "echo".to_string(),
        payload: vec![9],
    }
}

#[test]
fn ping_answers_with_identity_and_version() {
    let pong = NodeDaemon::stub(&config()).ping();
    assert_eq!(pong.node, NodeId("alpha".to_string()));
    assert_eq!(pong.agent_version, "0.0.0");
}

#[test]
fn a_stub_refuses_every_call() {
    let result = NodeDaemon::stub(&config()).deliver(daemon_call());
    assert_eq!(result, Err(NodeError::UnknownConnector));
}

#[test]
fn a_registered_connector_answers() {
    let mut connectors = Connectors::new();
    connectors.register(Box::new(Echo));
    let daemon = NodeDaemon::new(&config(), Arc::new(connectors));
    let reply = daemon.deliver(daemon_call()).unwrap();
    assert_eq!(reply.payload, vec![9]);
}

fn stub() -> StubNode {
    StubNode::new(NodeId("alpha".to_string()), "0.0.0".to_string())
}

#[test]
fn ping_answers_with_node_identity_and_version() {
    let pong = stub().ping();
    assert_eq!(pong.node, NodeId("alpha".to_string()));
    assert_eq!(pong.agent_version, "0.0.0");
}

#[test]
fn deliver_refuses_every_call_in_the_stub() {
    let call = RoutedCall {
        connector: "pm-0".to_string(),
        method: "spawn".to_string(),
        payload: vec![],
    };
    let result = stub().deliver(call);
    assert_eq!(result, Err(NodeError::UnknownConnector));
}

#[test]
fn backoff_grows_then_caps() {
    let b = Backoff {
        initial: Duration::from_millis(100),
        max: Duration::from_millis(500),
    };
    assert_eq!(b.delay(0), Duration::ZERO, "first attempt is immediate");
    assert_eq!(b.delay(1), Duration::from_millis(100));
    assert_eq!(b.delay(2), Duration::from_millis(200));
    assert_eq!(b.delay(3), Duration::from_millis(400));
    assert_eq!(b.delay(4), Duration::from_millis(500), "capped");
    assert_eq!(b.delay(99), Duration::from_millis(500), "stays capped");
}

#[test]
fn accepts_a_bare_host_port() {
    let e = HubEndpoint("127.0.0.1:15400".to_string());
    assert_eq!(e.dial_target().unwrap(), "127.0.0.1:15400");
}

#[test]
fn accepts_a_tcp_url() {
    let e = HubEndpoint("tcp://127.0.0.1:15400".to_string());
    assert_eq!(e.dial_target().unwrap(), "127.0.0.1:15400");
}

#[test]
fn rejects_an_unsupported_scheme() {
    let e = HubEndpoint("ws://127.0.0.1:15400".to_string());
    assert_eq!(
        e.dial_target().unwrap_err(),
        ConfigError::UnsupportedScheme("ws".to_string())
    );
}

#[test]
fn refuses_parent_traversal() {
    let err = FilesConnector::check_request_path("../secret").unwrap_err();
    assert!(
        matches!(&err, NodeError::Rejected(m) if m.contains("escapes")),
        "got {err:?}"
    );
}

#[test]
fn refuses_an_absolute_path() {
    let err = FilesConnector::check_request_path("/etc/hostname").unwrap_err();
    assert!(
        matches!(&err, NodeError::Rejected(m) if m.contains("escapes")),
        "got {err:?}"
    );
}

#[test]
fn refuses_an_unknown_method() {
    let err = FilesConnector::method_of("delete").unwrap_err();
    assert!(matches!(err, NodeError::Rejected(_)));
}

#[test]
fn advertises_itself_as_a_files_connector() {
    let c = FilesConnector::new("files-0".to_string(), b"/srv/files".to_vec());
    let d = c.descriptor();
    assert_eq!(d.id, "files-0");
    assert_eq!(d.kind, ConnectorKind::Files);
}
