use std::time::Duration;

use hub_mesh::hub::lanes::{audience_of, Audience};
use hub_mesh::hub::registry::{Attached, Registry};
use hub_mesh::hub::route::{delivery_outcome, DeliveryFailure};
use hub_mesh::hub::subscribers::Subscribers;
use hub_mesh::link_auth::{AuthError, PublicUuidAuthenticator};
use hub_mesh::node::config::{ConfigError, HubEndpoint, NodeConfig};
use hub_mesh::node::connector::Connectors;
use hub_mesh::node::dial::{register_outcome, registration_for, DialError, RegisterFailure};
use hub_mesh::node::files::{sort_entries, DirEntry, FilesConnector, FilesMethod};
use hub_mesh::node::reconnect::{backoff_delay_nanos, MAX_DURATION_NANOS, Backoff, DialOutcome, ReconnectState};
use hub_mesh::protocol::connector::{Connector, ConnectorKind};
use hub_mesh::protocol::discovery::TopologyEvent;
use hub_mesh::protocol::errors::{HubError, NodeError, RouteError};
use hub_mesh::protocol::identity::{LinkLabel, NodeId, NodeLink};
use hub_mesh::protocol::registration::Registration;
use hub_mesh::protocol::routing::RoutedReply;
use hub_mesh::protocol::targeting::LinkSelector;

fn registration(node: &str, link: &str, connector: &str) -> Registration {
    Registration {
        node: NodeId(node.to_string()),
        link: LinkLabel(link.to_string()),
        connectors: vec![Connector {
            id: connector.to_string(),
            kind: ConnectorKind::Files,
        }],
        agent_version: "9.9.9".to_string(),
    }
}

fn target(node: &str, link: &str) -> NodeLink {
    NodeLink {
        node: NodeId(node.to_string()),
        link: LinkLabel(link.to_string()),
    }
}

fn node_names(reg: &Registry<u32>) -> Vec<String> {
    reg.snapshot().nodes.iter().map(|n| n.node.0.clone()).collect()
}

#[test]
fn remove_undoes_a_fresh_registration() {
    let mut reg: Registry<u32> = Registry::new();
    reg.register(registration("beta", "stable", "pm-0"), 1);
    let before = reg.snapshot();
    reg.register(registration("beta", "dev", "pm-1"), 2);
    reg.remove(&target("beta", "dev"));
    assert_eq!(reg.snapshot(), before);
    reg.register(registration("alpha", "stable", "pm-2"), 3);
    reg.remove(&target("alpha", "stable"));
    assert_eq!(reg.snapshot(), before);
}

#[test]
fn a_registered_link_answers_a_request_for_it() {
    let mut reg: Registry<u32> = Registry::new();
    reg.register(registration("alpha", "stable", "pm-0"), 1);
    reg.register(registration("alpha", "build", "pm-1"), 7);
    let (label, entry) = reg
        .resolve(&LinkSelector::link(
            NodeId("alpha".to_string()),
            LinkLabel("build".to_string()),
        ))
        .unwrap();
    assert_eq!(label.0, "build");
    assert_eq!(entry.handle, 7);
    assert_eq!(entry.agent_version, "9.9.9");
    assert_eq!(entry.connectors[0].id, "pm-1");
}

#[test]
fn events_replayed_on_a_snapshot_give_the_next_snapshot() {
    let mut reg: Registry<u32> = Registry::new();
    let mut seen: Vec<(String, Vec<String>)> = Vec::new();
    let steps: Vec<Box<dyn Fn(&mut Registry<u32>) -> Option<TopologyEvent>>> = vec![
        Box::new(|r| r.register(registration("beta", "stable", "a"), 1)),
        Box::new(|r| r.register(registration("alpha", "dev", "b"), 2)),
        Box::new(|r| r.register(registration("beta", "dev", "c"), 3)),
        Box::new(|r| r.register(registration("beta", "dev", "d"), 4)),
        Box::new(|r| r.remove(&target("beta", "stable"))),
        Box::new(|r| r.remove(&target("alpha", "dev"))),
        Box::new(|r| r.remove(&target("ghost", "dev"))),
    ];
    for step in steps {
        let event = step(&mut reg);
        match event {
            Some(TopologyEvent::NodeConnected(info)) => seen.push((
                info.node.0.clone(),
                info.links.iter().map(|l| l.link.0.clone()).collect(),
            )),
            Some(TopologyEvent::LinkConnected(node, info)) => {
                let e = seen.iter_mut().find(|(n, _)| *n == node.0).unwrap();
                e.1.push(info.link.0.clone());
            }
            Some(TopologyEvent::NodeDisconnected(node)) => seen.retain(|(n, _)| *n != node.0),
            Some(TopologyEvent::LinkDisconnected(t)) => {
                let e = seen.iter_mut().find(|(n, _)| *n == t.node.0).unwrap();
                e.1.retain(|l| *l != t.link.0);
            }
            None => {}
        }
        let mut replayed = seen.clone();
        for (_, links) in replayed.iter_mut() {
            links.sort();
        }
        replayed.sort();
        let actual: Vec<(String, Vec<String>)> = reg
            .snapshot()
            .nodes
            .iter()
            .map(|n| (n.node.0.clone(), n.links.iter().map(|l| l.link.0.clone()).collect()))
            .collect();
        assert_eq!(replayed, actual);
    }
}

#[test]
fn snapshot_lists_nodes_and_links_in_name_order() {
    let mut reg: Registry<u32> = Registry::new();
    for (n, l) in [("gamma", "stable"), ("alpha", "zeta"), ("beta", "dev"), ("alpha", "dev"), ("Alpha", "x")] {
        reg.register(registration(n, l, "c"), 0);
    }
    assert_eq!(node_names(&reg), vec!["Alpha", "alpha", "beta", "gamma"]);
    let snap = reg.snapshot();
    let alpha: Vec<String> = snap.nodes[1].links.iter().map(|l| l.link.0.clone()).collect();
    assert_eq!(alpha, vec!["dev", "zeta"]);
}

#[test]
fn snapshots_do_not_depend_on_arrival_order() {
    let pairs = [("gamma", "stable"), ("alpha", "zeta"), ("beta", "dev"), ("alpha", "dev")];
    let mut forward: Registry<u32> = Registry::new();
    for (n, l) in pairs {
        forward.register(registration(n, l, "c"), 0);
    }
    let mut backward: Registry<u32> = Registry::new();
    for (n, l) in pairs.iter().rev() {
        backward.register(registration(n, l, "c"), 1);
    }
    assert_eq!(forward.snapshot(), backward.snapshot());
    assert_eq!(forward.snapshot(), forward.snapshot());
}

#[test]
fn connectors_follow_the_latest_registration() {
    let mut reg: Registry<u32> = Registry::new();
    reg.register(registration("alpha", "stable", "old-0"), 1);
    reg.register(registration("alpha", "stable", "new-0"), 2);
    let snap = reg.snapshot();
    assert_eq!(snap.nodes[0].links[0].connectors[0].id, "new-0");
}

#[test]
fn a_link_other_than_stable_alone_is_unknown_for_other_labels() {
    let mut reg: Registry<u32> = Registry::new();
    reg.register(registration("alpha", "dev", "c"), 1);
    assert_eq!(
        reg.resolve(&LinkSelector::node(NodeId("alpha".to_string()))).unwrap_err(),
        HubError::UnknownLink
    );
}

#[test]
fn backoff_values_are_exact() {
    assert_eq!(backoff_delay_nanos(100, 1_000, 0), 0);
    assert_eq!(backoff_delay_nanos(100, 1_000, 1), 100);
    assert_eq!(backoff_delay_nanos(100, 1_000, 3), 400);
    assert_eq!(backoff_delay_nanos(100, 1_000, 5), 1_000);
    assert_eq!(backoff_delay_nanos(1, u128::MAX, 32), 1u128 << 31);
    assert_eq!(backoff_delay_nanos(1, u128::MAX, 33), 1u128 << 32);
    assert_eq!(backoff_delay_nanos(1, u128::MAX, 80), 1u128 << 79);
    assert_eq!(backoff_delay_nanos(1, u128::MAX, u32::MAX), MAX_DURATION_NANOS);
    assert_eq!(backoff_delay_nanos(0, u128::MAX, u32::MAX), 0);
    let tiny = Backoff {
        initial: Duration::from_nanos(1),
        max: Duration::MAX,
    };
    assert_eq!(tiny.delay(33), Duration::from_nanos(1u64 << 32));
    assert_eq!(tiny.delay(100), Duration::MAX);
    let capped = Backoff {
        initial: Duration::from_nanos(1),
        max: Duration::from_secs(3600),
    };
    assert_eq!(capped.delay(60), Duration::from_secs(3600));
    let d = Backoff::default();
    assert_eq!(d.delay(1), Duration::from_millis(250));
    assert_eq!(d.delay(3), Duration::from_secs(1));
    assert_eq!(d.delay(9), Duration::from_secs(30));
    let huge = Backoff {
        initial: Duration::MAX,
        max: Duration::MAX,
    };
    assert_eq!(huge.delay(2), Duration::MAX);
}

#[test]
fn backoff_never_shrinks_and_never_passes_the_cap() {
    let b = Backoff {
        initial: Duration::from_millis(7),
        max: Duration::from_secs(3),
    };
    let mut last = Duration::ZERO;
    for f in 0..100u32 {
        let d = b.delay(f);
        assert!(d >= last);
        assert!(d <= b.max);
        last = d;
    }
}

#[test]
fn reconnect_state_resets_on_connection_and_counts_failures() {
    let mut s = ReconnectState::new();
    assert_eq!(s.failures, 0);
    s.record(&DialOutcome::Failed(DialError::Establish("x".to_string())));
    s.record(&DialOutcome::Failed(DialError::OpenIngress("y".to_string())));
    assert_eq!(s.failures, 2);
    let b = Backoff {
        initial: Duration::from_millis(10),
        max: Duration::from_secs(1),
    };
    assert_eq!(s.next_delay(&b), Duration::from_millis(20));
    s.record(&DialOutcome::ConnectedThenDropped);
    assert_eq!(s.failures, 0);
    assert_eq!(s.next_delay(&b), Duration::ZERO);
    let mut full = ReconnectState { failures: u32::MAX };
    full.record(&DialOutcome::Failed(DialError::Establish("z".to_string())));
    assert_eq!(full.failures, u32::MAX);
}

#[test]
fn dial_target_edge_cases() {
    assert_eq!(HubEndpoint("".to_string()).dial_target().unwrap(), "");
    assert_eq!(HubEndpoint("tcp://".to_string()).dial_target().unwrap(), "");
    assert_eq!(
        HubEndpoint("tcp://a://b".to_string()).dial_target().unwrap(),
        "a://b"
    );
    assert_eq!(
        HubEndpoint("://host".to_string()).dial_target().unwrap_err(),
        hub_mesh::node::config::ConfigError::UnsupportedScheme("".to_string())
    );
    assert_eq!(
        HubEndpoint("TCP://host:1".to_string()).dial_target().unwrap_err(),
        hub_mesh::node::config::ConfigError::UnsupportedScheme("TCP".to_string())
    );
    assert_eq!(HubEndpoint("host:/1".to_string()).dial_target().unwrap(), "host:/1");
}

#[test]
fn request_paths_that_escape_are_refused() {
    for ok in [".", "", "a/b", "a/./b", "..a", "a..", "a/..b/c", "./x", "a//b"] {
        assert!(FilesConnector::check_request_path(ok).is_ok(), "{ok}");
    }
    for bad in ["..", "../x", "a/..", "a/../b", "/", "/a", "./../x", "a//../b"] {
        assert!(FilesConnector::check_request_path(bad).is_err(), "{bad}");
    }
}

#[test]
fn resolved_paths_must_stay_under_the_root() {
    assert!(FilesConnector::check_confined(b"/srv/files", b"/srv/files").is_ok());
    assert!(FilesConnector::check_confined(b"/srv/files/a/b", b"/srv/files").is_ok());
    assert!(FilesConnector::check_confined(b"/srv/files2", b"/srv/files").is_err());
    assert!(FilesConnector::check_confined(b"/srv", b"/srv/files").is_err());
    assert!(FilesConnector::check_confined(b"/etc", b"/").is_ok());
    assert!(FilesConnector::check_confined(b"/srv/files/\xff", b"/srv/files").is_ok());
    let err = FilesConnector::check_confined(b"/etc/passwd", b"/srv").unwrap_err();
    assert!(matches!(err, NodeError::Rejected(m) if m.contains("escapes")));
}

#[test]
fn files_methods_are_list_and_read() {
    assert_eq!(FilesConnector::method_of("list").unwrap(), FilesMethod::List);
    assert_eq!(FilesConnector::method_of("read").unwrap(), FilesMethod::Read);
    assert_eq!(
        FilesConnector::method_of("delete").unwrap_err(),
        NodeError::Rejected("unknown method `delete`".to_string())
    );
    let c = FilesConnector::new("files-1".to_string(), b"/data".to_vec());
    assert_eq!(c.root(), b"/data");
}

#[test]
fn listings_are_sorted_by_name() {
    let entry = |n: &str, d: bool| DirEntry {
        name: n.to_string(),
        is_dir: d,
    };
    let sorted = sort_entries(vec![
        entry("sub", true),
        entry("hello.txt", false),
        entry("B", false),
        entry("a", true),
    ]);
    let names: Vec<&str> = sorted.iter().map(|e| e.name.as_str()).collect();
    assert_eq!(names, vec!["B", "a", "hello.txt", "sub"]);
    assert!(sorted[3].is_dir);
    assert!(sort_entries(Vec::new()).is_empty());
}

#[test]
fn uuid_link_ids_are_admitted_with_a_fresh_session() {
    let auth = PublicUuidAuthenticator {};
    assert!(!auth.allow_multiple_sessions());
    assert!(auth.kick_old_sessions());
    for id in [
        "550e8400-e29b-41d4-a716-446655440000",
        "550E8400E29B41D4A716446655440000",
        "{550e8400-e29b-41d4-a716-446655440000}",
        "URN:uuid:550e8400-e29b-41d4-a716-446655440000",
    ] {
        let session = auth.auth(id).unwrap();
        assert_eq!(session.0.len(), 36);
        assert_eq!(session.0.as_bytes()[14], b'4');
        assert_eq!(session.0, session.0.to_lowercase());
    }
    for id in ["", "not-a-uuid", "550e8400-e29b-41d4-a716-44665544000g"] {
        assert_eq!(auth.auth(id).unwrap_err(), AuthError::InvalidLinkId);
    }
    let a = auth.auth("550e8400-e29b-41d4-a716-446655440000").unwrap();
    let b = auth.auth("550e8400-e29b-41d4-a716-446655440000").unwrap();
    assert_ne!(a, b);
}

#[test]
fn only_channels_that_took_the_send_stay() {
    let mut subs = Subscribers::new();
    subs.add(1u8);
    subs.add(2);
    subs.add(3);
    let taken = subs.take_all();
    assert_eq!(taken, vec![1, 2, 3]);
    assert!(subs.is_empty());
    let outcomes: Vec<(u8, bool)> = taken.into_iter().map(|c| (c, c != 2)).collect();
    assert_eq!(subs.keep_delivered(outcomes), 2);
    assert_eq!(subs.take_all(), vec![1, 3]);
}

#[test]
fn failures_report_where_they_happened() {
    assert_eq!(
        delivery_outcome(Ok(RoutedReply { payload: vec![5] })),
        Ok(RoutedReply { payload: vec![5] })
    );
    assert_eq!(
        delivery_outcome(Err(DeliveryFailure::Refused(NodeError::UnknownConnector))),
        Err(RouteError::Node(NodeError::UnknownConnector))
    );
    assert_eq!(
        delivery_outcome(Err(DeliveryFailure::Unreachable("gone".to_string()))),
        Err(RouteError::Hub(HubError::Rejected("gone".to_string())))
    );
    assert_eq!(
        register_outcome(Err(RegisterFailure::Refused(HubError::Internal("x".to_string())))),
        Err(DialError::Rejected(HubError::Internal("x".to_string())))
    );
    assert_eq!(
        register_outcome(Err(RegisterFailure::Transport("t".to_string()))),
        Err(DialError::RegisterTransport("t".to_string()))
    );
    assert_eq!(register_outcome(Ok(())), Ok(()));
}

#[test]
fn the_announced_registration_lists_what_is_served() {
    let cfg = NodeConfig::new(
        NodeId("alpha".to_string()),
        LinkLabel::dev(),
        Some(HubEndpoint("h:1".to_string())),
        vec![Connector {
            id: "cfg-0".to_string(),
            kind: ConnectorKind::Commands,
        }],
        "1.0".to_string(),
    )
    .unwrap();
    let none = Connectors::new();
    let reg = registration_for(&cfg, &none);
    assert_eq!(reg.connectors[0].id, "cfg-0");
    let mut some = Connectors::new();
    some.register(Box::new(FilesAdvert));
    let reg = registration_for(&cfg, &some);
    assert_eq!(reg.connectors.len(), 1);
    assert_eq!(reg.connectors[0].id, "files-9");
    assert_eq!(reg.link, LinkLabel::dev());
}

struct FilesAdvert;

impl hub_mesh::node::connector::Connector for FilesAdvert {
    fn descriptor(&self) -> Connector {
        FilesConnector::new("files-9".to_string(), b"/".to_vec()).descriptor()
    }

    fn call(&self, _method: &str, _payload: &[u8]) -> Result<Vec<u8>, NodeError> {
        Err(NodeError::Rejected("read-only".to_string()))
    }
}

#[test]
fn the_announced_registration_lists_every_served_connector_in_id_order() {
    let cfg = NodeConfig::new(
        NodeId("alpha".to_string()),
        LinkLabel::stable(),
        Some(HubEndpoint("h:1".to_string())),
        Vec::new(),
        "1.0".to_string(),
    )
    .unwrap();
    let mut some = Connectors::new();
    some.register(Box::new(FilesAdvert));
    some.register(Box::new(Named("alpha-0")));
    some.register(Box::new(Named("zulu-0")));
    some.register(Box::new(Named("alpha-0")));
    let reg = registration_for(&cfg, &some);
    let ids: Vec<&str> = reg.connectors.iter().map(|c| c.id.as_str()).collect();
    assert_eq!(ids, vec!["alpha-0", "files-9", "zulu-0"]);
    assert_eq!(reg.connectors, some.descriptors());
}

struct Named(&'static str);

impl hub_mesh::node::connector::Connector for Named {
    fn descriptor(&self) -> Connector {
        Connector {
            id: self.0.to_string(),
            kind: ConnectorKind::Commands,
        }
    }

    fn call(&self, method: &str, _payload: &[u8]) -> Result<Vec<u8>, NodeError> {
        Ok(format!("{}:{method}", self.0).into_bytes())
    }
}

#[test]
fn dispatch_answers_as_the_connector_filed_under_the_id() {
    let mut c = Connectors::new();
    c.register(Box::new(Named("one")));
    c.register(Box::new(Named("two")));
    let call = hub_mesh::protocol::routing::RoutedCall {
        connector: "two".to_string(),
        method: "m".to_string(),
        payload: vec![7],
    };
    assert_eq!(c.dispatch(&call).unwrap().payload, b"two:m".to_vec());
    let missing = hub_mesh::protocol::routing::RoutedCall {
        connector: "three".to_string(),
        method: "m".to_string(),
        payload: vec![7],
    };
    assert_eq!(c.dispatch(&missing), Err(NodeError::UnknownConnector));
}

#[test]
fn services_pick_the_audience() {
    assert_eq!(audience_of("NodeIngress"), Some(Audience::Node));
    assert_eq!(audience_of("ConsumerApi"), Some(Audience::Consumer));
    assert_eq!(audience_of("nodeingress"), None);
    assert_eq!(audience_of(""), None);
}

#[test]
fn a_closed_connection_retires_only_what_it_still_holds() {
    let mut reg: Registry<Attached<u32>> = Registry::new();
    reg.register(registration("alpha", "stable", "c"), Attached { connection: 1, handle: 10 });
    reg.register(registration("alpha", "dev", "c"), Attached { connection: 1, handle: 11 });
    // The stable link reconnects over a second connection.
    assert_eq!(
        reg.register(registration("alpha", "stable", "c"), Attached { connection: 2, handle: 20 }),
        None
    );
    // The first connection closes: its dev link goes, the re-registered
    // stable link stays.
    assert_eq!(reg.retire(&target("alpha", "stable"), 1), None);
    assert_eq!(
        reg.retire(&target("alpha", "dev"), 1),
        Some(TopologyEvent::LinkDisconnected(target("alpha", "dev")))
    );
    let (_, entry) = reg.resolve(&LinkSelector::link(NodeId("alpha".to_string()), LinkLabel::stable())).unwrap();
    assert_eq!(entry.handle.handle, 20);
    assert_eq!(
        reg.retire(&target("alpha", "stable"), 2),
        Some(TopologyEvent::NodeDisconnected(NodeId("alpha".to_string())))
    );
    assert!(reg.is_empty());
    assert_eq!(reg.retire(&target("alpha", "stable"), 2), None);
}

#[test]
fn errors_report_themselves_in_words() {

    assert_eq!(
        ConfigError::MissingHub.message(),
        "no hub configured — a node requires a hub to dial"
    );
    assert_eq!(
        ConfigError::UnsupportedScheme("ws".to_string()).message(),
        "unsupported hub address scheme `ws` (expected tcp)"
    );
    assert_eq!(
        DialError::Establish("eof".to_string()).message(),
        "hub connection handshake failed: eof"
    );
    assert_eq!(
        DialError::OpenIngress("x".to_string()).message(),
        "could not open the NodeIngress lane: x"
    );
    assert_eq!(
        DialError::Rejected(HubError::Internal("boom".to_string())).message(),
        "hub refused registration: Internal(\"boom\")"
    );
    assert_eq!(
        DialError::RegisterTransport("t".to_string()).message(),
        "register call failed: t"
    );
}

#[test]
fn sorting_keeps_entries_of_one_name_in_order() {
    let entries = vec![
        DirEntry { name: "b".to_string(), is_dir: false },
        DirEntry { name: "a".to_string(), is_dir: true },
        DirEntry { name: "b".to_string(), is_dir: true },
        DirEntry { name: "a".to_string(), is_dir: false },
    ];
    let sorted = sort_entries(entries);
    let got: Vec<(String, bool)> = sorted.into_iter().map(|e| (e.name, e.is_dir)).collect();
    assert_eq!(
        got,
        vec![
            ("a".to_string(), true),
            ("a".to_string(), false),
            ("b".to_string(), false),
            ("b".to_string(), true),
        ]
    );
}

#[test]
fn the_default_backoff_starts_at_a_quarter_second_and_caps_at_thirty() {
    let d = Backoff::default();
    assert_eq!(d.initial, Duration::from_millis(250));
    assert_eq!(d.max, Duration::from_secs(30));
}
