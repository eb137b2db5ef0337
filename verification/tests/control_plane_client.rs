use keel::dashboard::control_plane_client::{ControlPlaneClient, FakeControlPlaneClient};
use keel::wire::{CpuCores, NodeState, NodeStatus, ServiceReplica};

fn cores(n: f64) -> CpuCores {
    CpuCores { bits: n.to_bits(), shown: format!("{n:.2}") }
}

fn client_sample_node(id: &str) -> NodeStatus {
    NodeStatus {
        id: id.to_string(),
        addr: "192.168.64.4:7621".to_string(),
        pod_cidr: "10.0.4.0/24".to_string(),
        status: NodeState::Alive,
        last_seen_secs: 1,
        capacity_cpu: cores(4.0),
        capacity_memory: 8 * 1024 * 1024 * 1024,
        committed_cpu: cores(1.0),
        committed_memory: 1024 * 1024 * 1024,
        ingresses: vec![],
    }
}

#[test]
fn fake_returns_seeded_nodes() {
    let mut fake = FakeControlPlaneClient::new();
    fake.set_nodes(vec![client_sample_node("node-1")]);
    let nodes = fake.fetch_nodes().unwrap();
    assert_eq!(nodes.len(), 1);
    assert_eq!(nodes[0].id, "node-1");
}

#[test]
fn fake_fetch_nodes_fails_once_marked_failing() {
    let mut fake = FakeControlPlaneClient::new();
    fake.set_nodes(vec![client_sample_node("node-1")]);
    fake.fail_nodes();
    assert!(fake.fetch_nodes().is_err());
}

#[test]
fn fake_fetch_jails_fails_only_for_the_marked_node() {
    let mut fake = FakeControlPlaneClient::new();
    fake.set_jails("node-1", vec![]);
    fake.set_jails("node-2", vec![]);
    fake.fail_jails("node-1");
    assert!(fake.fetch_jails("node-1").is_err());
    assert!(fake.fetch_jails("node-2").is_ok());
}

#[test]
fn fake_returns_seeded_service_detail() {
    let mut fake = FakeControlPlaneClient::new();
    let replicas = vec![ServiceReplica {
        name: "web-0".to_string(),
        node: "node-1".to_string(),
        address: "10.0.4.5".to_string(),
    }];
    fake.set_service("web", replicas.clone());
    assert_eq!(fake.fetch_service("web").unwrap(), replicas);
}

#[test]
fn fake_fetch_service_on_an_unknown_name_fails() {
    let fake = FakeControlPlaneClient::new();
    assert!(fake.fetch_service("missing").is_err());
}
