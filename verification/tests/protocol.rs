use hub_mesh::protocol::connector::{Connector, ConnectorKind};
use hub_mesh::protocol::discovery::{LinkInfo, NodeInfo, TopologySnapshot};
use hub_mesh::protocol::identity::{LinkLabel, NodeId, NodeLink};
use hub_mesh::protocol::registration::Registration;
use hub_mesh::protocol::targeting::LinkSelector;

#[test]
fn stable_is_the_default_link() {
    assert_eq!(LinkLabel::default(), LinkLabel::stable());
    assert!(LinkLabel::default().is_stable());
    assert!(!LinkLabel::dev().is_stable());
}

#[test]
fn bare_node_prefers_stable() {
    let sel = LinkSelector::node(NodeId("alpha".to_string()));
    assert!(sel.preferred_link().is_stable());
}

#[test]
fn explicit_link_is_preserved() {
    let sel = LinkSelector::link(NodeId("alpha".to_string()), LinkLabel::dev());
    assert_eq!(sel.preferred_link(), LinkLabel::dev());
}

fn sample() -> TopologySnapshot {
    TopologySnapshot {
        nodes: vec![NodeInfo {
            node: NodeId("alpha".to_string()),
            links: vec![
                LinkInfo {
                    link: LinkLabel::stable(),
                    connectors: vec![Connector {
                        id: "pm-0".to_string(),
                        kind: ConnectorKind::ProcessManager,
                    }],
                },
                LinkInfo {
                    link: LinkLabel::dev(),
                    connectors: vec![],
                },
            ],
        }],
    }
}

#[test]
fn one_node_can_carry_many_links() {
    let snap = sample();
    assert_eq!(snap.nodes[0].links.len(), 2, "a node may carry many links");
}

#[test]
fn label_constants_name_the_builtin_links() {
    assert_eq!(LinkLabel::stable().0, LinkLabel::STABLE);
    assert_eq!(LinkLabel::dev().0, LinkLabel::DEV);
    assert!(LinkLabel("stable".to_string()).is_stable());
    assert!(!LinkLabel("stable ".to_string()).is_stable());
    assert!(!LinkLabel("Stable".to_string()).is_stable());
}

#[test]
fn clones_keep_every_field() {
    let reg = Registration {
        node: NodeId("alpha".to_string()),
        link: LinkLabel::dev(),
        connectors: vec![
            Connector {
                id: "x-0".to_string(),
                kind: ConnectorKind::Other("metrics".to_string()),
            },
            Connector {
                id: "files-0".to_string(),
                kind: ConnectorKind::Files,
            },
        ],
        agent_version: "1.2.3".to_string(),
    };
    assert_eq!(reg.clone(), reg);
    let target = NodeLink {
        node: NodeId("alpha".to_string()),
        link: LinkLabel::stable(),
    };
    assert_eq!(target.clone(), target);
    let sel = LinkSelector::link(NodeId("beta".to_string()), LinkLabel::dev());
    assert_eq!(sel.clone(), sel);
}
