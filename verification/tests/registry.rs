use hub_mesh::hub::registry::Registry;
use hub_mesh::hub::subscribers::Subscribers;
use hub_mesh::protocol::connector::{Connector, ConnectorKind};
use hub_mesh::protocol::discovery::TopologyEvent;
use hub_mesh::protocol::errors::HubError;
use hub_mesh::protocol::identity::{LinkLabel, NodeId, NodeLink};
use hub_mesh::protocol::registration::Registration;
use hub_mesh::protocol::targeting::LinkSelector;

fn registration(node: &str, link: LinkLabel) -> Registration {
    Registration {
        node: NodeId(node.to_string()),
        link,
        connectors: vec![Connector {
            id: "pm-0".to_string(),
            kind: ConnectorKind::ProcessManager,
        }],
        agent_version: "0.0.0".to_string(),
    }
}

#[test]
fn first_link_makes_the_node_appear() {
    let mut reg = Registry::new();
    let event = reg.register(registration("alpha", LinkLabel::stable()), 1);
    match event {
        Some(TopologyEvent::NodeConnected(info)) => {
            assert_eq!(info.node, NodeId("alpha".to_string()));
            assert_eq!(info.links.len(), 1);
        }
        other => panic!("expected NodeConnected, got {other:?}"),
    }
}

#[test]
fn a_second_link_is_a_link_event_under_the_same_node() {
    let mut reg = Registry::new();
    reg.register(registration("alpha", LinkLabel::stable()), 1);
    let event = reg.register(registration("alpha", LinkLabel::dev()), 2);
    match event {
        Some(TopologyEvent::LinkConnected(node, info)) => {
            assert_eq!(node, NodeId("alpha".to_string()));
            assert_eq!(info.link, LinkLabel::dev());
        }
        other => panic!("expected LinkConnected, got {other:?}"),
    }
    assert_eq!(reg.snapshot().nodes[0].links.len(), 2);
}

#[test]
fn re_registration_is_accepted_churn_not_an_event() {
    let mut reg = Registry::new();
    reg.register(registration("alpha", LinkLabel::stable()), 1);
    let event = reg.register(registration("alpha", LinkLabel::stable()), 2);
    assert!(event.is_none(), "a reconnect changes no topology");
    // ...but the handle is refreshed to the new connection.
    let entry = reg
        .resolve(&LinkSelector::node(NodeId("alpha".to_string())))
        .unwrap()
        .1;
    assert_eq!(entry.handle, 2);
}

#[test]
fn node_disappears_with_its_last_link() {
    let mut reg = Registry::new();
    reg.register(registration("alpha", LinkLabel::stable()), 1);
    reg.register(registration("alpha", LinkLabel::dev()), 2);

    let event = reg.remove(&NodeLink {
        node: NodeId("alpha".to_string()),
        link: LinkLabel::dev(),
    });
    assert!(matches!(event, Some(TopologyEvent::LinkDisconnected(_))));
    assert!(!reg.is_empty(), "stable link still connected");

    let event = reg.remove(&NodeLink {
        node: NodeId("alpha".to_string()),
        link: LinkLabel::stable(),
    });
    assert!(matches!(event, Some(TopologyEvent::NodeDisconnected(_))));
    assert!(reg.is_empty(), "node vanished with its last link");
}

#[test]
fn removing_an_unknown_link_is_a_no_op() {
    let mut reg: Registry<u8> = Registry::new();
    let event = reg.remove(&NodeLink {
        node: NodeId("ghost".to_string()),
        link: LinkLabel::stable(),
    });
    assert!(event.is_none());
}

#[test]
fn route_defaults_to_stable() {
    let mut reg = Registry::new();
    reg.register(registration("alpha", LinkLabel::stable()), 1);
    reg.register(registration("alpha", LinkLabel::dev()), 2);
    let (label, entry) = reg
        .resolve(&LinkSelector::node(NodeId("alpha".to_string())))
        .unwrap();
    assert!(label.is_stable());
    assert_eq!(entry.handle, 1);
}

#[test]
fn route_honours_an_explicit_link() {
    let mut reg = Registry::new();
    reg.register(registration("alpha", LinkLabel::stable()), 1);
    reg.register(registration("alpha", LinkLabel::dev()), 2);
    let (label, entry) = reg
        .resolve(&LinkSelector::link(
            NodeId("alpha".to_string()),
            LinkLabel::dev(),
        ))
        .unwrap();
    assert_eq!(*label, LinkLabel::dev());
    assert_eq!(entry.handle, 2);
}

#[test]
fn route_falls_back_to_stable_when_the_link_is_absent() {
    let mut reg = Registry::new();
    reg.register(registration("alpha", LinkLabel::stable()), 1);
    let (label, entry) = reg
        .resolve(&LinkSelector::link(
            NodeId("alpha".to_string()),
            LinkLabel::dev(),
        ))
        .unwrap();
    assert!(label.is_stable(), "fell back to stable");
    assert_eq!(entry.handle, 1);
}

#[test]
fn route_without_a_stable_fallback_is_unknown_link() {
    let mut reg = Registry::new();
    reg.register(registration("alpha", LinkLabel::dev()), 2);
    let err = reg
        .resolve(&LinkSelector::link(
            NodeId("alpha".to_string()),
            LinkLabel("build".to_string()),
        ))
        .unwrap_err();
    assert_eq!(err, HubError::UnknownLink);
}

#[test]
fn route_to_an_absent_node_is_unknown_node() {
    let reg: Registry<u8> = Registry::new();
    let err = reg
        .resolve(&LinkSelector::node(NodeId("ghost".to_string())))
        .unwrap_err();
    assert_eq!(err, HubError::UnknownNode);
}

#[test]
fn snapshot_reports_every_connected_link() {
    let mut reg = Registry::new();
    reg.register(registration("alpha", LinkLabel::stable()), 1);
    reg.register(registration("beta", LinkLabel::stable()), 2);
    let snap = reg.snapshot();
    assert_eq!(snap.nodes.len(), 2);
    assert_eq!(snap.nodes[0].node, NodeId("alpha".to_string()));
    assert_eq!(snap.nodes[1].node, NodeId("beta".to_string()));
}

#[test]
fn subscribers_start_empty() {
    let subs: Subscribers<u8> = Subscribers::new();
    assert!(subs.is_empty());
    assert_eq!(subs.len(), 0);
}
