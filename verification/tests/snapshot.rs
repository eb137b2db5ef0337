use keel::dashboard::control_plane_client::FakeControlPlaneClient;
use keel::dashboard::snapshot::{poll_once, Snapshot};
use keel::wire::{CpuCores, NodeState, NodeStatus, ServiceSummary};

fn cores(n: f64) -> CpuCores {
    CpuCores { bits: n.to_bits(), shown: format!("{n:.2}") }
}

fn sample_node(id: &str) -> NodeStatus {
    NodeStatus {
        id: id.to_string(),
        addr: "192.168.64.4:7621".to_string(),
        pod_cidr: "10.0.4.0/24".to_string(),
        status: NodeState::Alive,
        last_seen_secs: 1,
        capacity_cpu: cores(4.0),
        capacity_memory: 8 * 1024 * 1024 * 1024,
        committed_cpu: cores(1.0),
        committed_memory: 1024 * 1024 * 1024,
        ingresses: vec![],
    }
}

#[test]
fn a_fully_healthy_poll_is_not_stale_anywhere() {
    let mut client = FakeControlPlaneClient::new();
    client.set_nodes(vec![sample_node("node-1")]);
    client.set_services(vec![ServiceSummary { name: "web".to_string(), desired_replicas: 1, vip: "10.0.250.7".to_string(), port: 8080 }]);
    client.set_service("web", vec![]);

    let snapshot = poll_once(&client, &Snapshot::default(), 1_000);
    assert!(!snapshot.stale);
    assert_eq!(snapshot.nodes.len(), 1);
    assert!(!snapshot.nodes[0].data_stale);
    assert_eq!(snapshot.services.len(), 1);
    assert!(!snapshot.services[0].data_stale);
}

#[test]
fn an_unreachable_control_plane_keeps_the_previous_snapshot_and_marks_it_stale() {
    let mut client = FakeControlPlaneClient::new();
    client.set_nodes(vec![sample_node("node-1")]);
    let first = poll_once(&client, &Snapshot::default(), 1_000);
    assert!(!first.stale);

    client.fail_nodes();
    let second = poll_once(&client, &first, 2_000);
    assert!(second.stale);
    assert_eq!(second.stale_as_of_unix, Some(2_000));
    assert_eq!(second.nodes, first.nodes, "the last-good node data must be preserved unchanged");
}

#[test]
fn a_failed_per_node_jails_fetch_marks_only_that_node_stale_and_keeps_its_last_good_jails() {
    let mut client = FakeControlPlaneClient::new();
    client.set_nodes(vec![sample_node("node-1")]);
    client.set_jails("node-1", vec![]);
    let first = poll_once(&client, &Snapshot::default(), 1_000);
    assert!(!first.nodes[0].data_stale);

    client.fail_jails("node-1");
    let second = poll_once(&client, &first, 2_000);
    assert!(!second.stale, "a per-node failure must not mark the whole snapshot stale");
    assert!(second.nodes[0].data_stale);
    assert_eq!(second.nodes[0].jails, first.nodes[0].jails);
}

#[test]
fn a_failed_service_detail_fetch_marks_only_that_service_stale() {
    let mut client = FakeControlPlaneClient::new();
    client.set_services(vec![ServiceSummary { name: "web".to_string(), desired_replicas: 1, vip: "10.0.250.7".to_string(), port: 8080 }]);
    client.set_service("web", vec![]);
    let first = poll_once(&client, &Snapshot::default(), 1_000);
    assert!(!first.services[0].data_stale);

    client.fail_service("web");
    let second = poll_once(&client, &first, 2_000);
    assert!(!second.stale);
    assert!(second.services[0].data_stale);
    assert_eq!(second.services[0].detail, first.services[0].detail);
}
