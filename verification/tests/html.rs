use keel::backoff::BackoffStatus;
use keel::dashboard::html::{escape_html, render};
use keel::dashboard::snapshot::{NodeSnapshot, ServiceSnapshot, Snapshot};
use keel::jail::{JailRecord, JailSpec, Metadata, NetworkSpec, ResourcesSpec, RestartPolicy, Spec};
use keel::wire::{
    CpuCores, IngressHealth, JailStatus, NodeState, NodeStatus, ServiceReplica, ServiceSummary, VolumeStatus,
};

fn cores(n: f64) -> CpuCores {
    CpuCores { bits: n.to_bits(), shown: format!("{n:.2}") }
}

fn sample_node_status() -> NodeStatus {
    NodeStatus {
        id: "node-1".to_string(),
        addr: "192.168.64.4:7621".to_string(),
        pod_cidr: "10.0.4.0/24".to_string(),
        status: NodeState::Alive,
        last_seen_secs: 3,
        capacity_cpu: cores(4.0),
        capacity_memory: 8 * 1024 * 1024 * 1024,
        committed_cpu: cores(1.5),
        committed_memory: 1024 * 1024 * 1024,
        ingresses: vec![IngressHealth {
            name: "blog".to_string(),
            host: "example.com".to_string(),
            backend_service: "hugo-site".to_string(),
            backend_port: 8080,
            cert_expires_at_unix: Some(1_000_000_000 + 10 * 24 * 60 * 60),
        }],
    }
}

fn jail_record(name: &str) -> JailRecord {
    JailRecord {
        spec: JailSpec {
            api_version: "keel/v1".to_string(),
            kind: "Jail".to_string(),
            metadata: Metadata { name: name.to_string() },
            spec: Spec {
                image: "base/14.2-web".to_string(),
                command: vec!["/usr/local/bin/myapp".to_string()],
                network: NetworkSpec { vnet: true, bridge: "keel0".to_string(), address: "10.0.0.5/24".to_string() },
                resources: ResourcesSpec { cpu: "1".to_string(), memory: "512M".to_string() },
                restart_policy: RestartPolicy::Always,
                volumes: vec![],
                replicate_to: None,
                generation: 0,
            },
        },
        epair_ordinal: 0,
        deleting: false,
    }
}

#[test]
fn renders_a_running_jail_as_running() {
    let node = NodeSnapshot {
        status: sample_node_status(),
        jails: vec![JailStatus { record: jail_record("web-0"), running: true, backoff: BackoffStatus::default() }],
        volumes: vec![],
        data_stale: false,
    };
    let snapshot = Snapshot { nodes: vec![node], services: vec![], stale: false, stale_as_of_unix: None };
    let html = render(&snapshot, 1_000_000_000);
    assert!(html.contains("web-0"), "got: {html}");
    assert!(html.contains("running"), "got: {html}");
}

#[test]
fn renders_a_backed_off_non_running_jail_as_crash_looping() {
    let node = NodeSnapshot {
        status: sample_node_status(),
        jails: vec![JailStatus {
            record: jail_record("web-0"),
            running: false,
            backoff: BackoffStatus { retry_in_secs: Some(4), current_delay_secs: Some(8) },
        }],
        volumes: vec![],
        data_stale: false,
    };
    let snapshot = Snapshot { nodes: vec![node], services: vec![], stale: false, stale_as_of_unix: None };
    let html = render(&snapshot, 1_000_000_000);
    assert!(html.contains("crash-looping"), "got: {html}");
}

#[test]
fn renders_a_freshly_applied_non_running_jail_as_not_running_not_crash_looping() {
    let node = NodeSnapshot {
        status: sample_node_status(),
        jails: vec![JailStatus { record: jail_record("web-0"), running: false, backoff: BackoffStatus::default() }],
        volumes: vec![],
        data_stale: false,
    };
    let snapshot = Snapshot { nodes: vec![node], services: vec![], stale: false, stale_as_of_unix: None };
    let html = render(&snapshot, 1_000_000_000);
    assert!(!html.contains("crash-looping"), "got: {html}");
}

#[test]
fn renders_a_volume_name_grouped_under_its_node() {
    let node = NodeSnapshot {
        status: sample_node_status(),
        jails: vec![],
        volumes: vec![VolumeStatus { name: "web-data".to_string() }],
        data_stale: false,
    };
    let snapshot = Snapshot { nodes: vec![node], services: vec![], stale: false, stale_as_of_unix: None };
    let html = render(&snapshot, 1_000_000_000);
    assert!(html.contains("web-data"), "got: {html}");
}

#[test]
fn renders_a_service_with_desired_and_actual_replica_counts() {
    let service = ServiceSnapshot {
        summary: ServiceSummary { name: "web".to_string(), desired_replicas: 3, vip: "10.0.250.7".to_string(), port: 8080 },
        detail: Some(vec![ServiceReplica {
            name: "web-0".to_string(),
            node: "node-1".to_string(),
            address: "10.0.4.5".to_string(),
        }]),
        data_stale: false,
    };
    let snapshot = Snapshot { nodes: vec![], services: vec![service], stale: false, stale_as_of_unix: None };
    let html = render(&snapshot, 1_000_000_000);
    assert!(html.contains("10.0.250.7"), "got: {html}");
    assert!(html.contains("web-0"), "got: {html}");
}

#[test]
fn renders_a_cert_expiry_warning_inside_the_thirty_day_threshold() {
    let mut node_status = sample_node_status();
    node_status.ingresses[0].cert_expires_at_unix = Some(1_000_000_000 + 20 * 24 * 60 * 60);
    let node = NodeSnapshot { status: node_status, jails: vec![], volumes: vec![], data_stale: false };
    let snapshot = Snapshot { nodes: vec![node], services: vec![], stale: false, stale_as_of_unix: None };
    let html = render(&snapshot, 1_000_000_000);
    assert!(html.contains("expiry-warning"), "got: {html}");
}

#[test]
fn does_not_render_a_cert_expiry_warning_outside_the_threshold() {
    let mut node_status = sample_node_status();
    node_status.ingresses[0].cert_expires_at_unix = Some(1_000_000_000 + 60 * 24 * 60 * 60);
    let node = NodeSnapshot { status: node_status, jails: vec![], volumes: vec![], data_stale: false };
    let snapshot = Snapshot { nodes: vec![node], services: vec![], stale: false, stale_as_of_unix: None };
    let html = render(&snapshot, 1_000_000_000);
    assert!(!html.contains("expiry-warning"), "got: {html}");
}

#[test]
fn renders_a_stale_banner_when_the_snapshot_is_stale() {
    let snapshot = Snapshot { nodes: vec![], services: vec![], stale: true, stale_as_of_unix: Some(1_000_000_000) };
    let html = render(&snapshot, 1_000_000_500);
    assert!(html.contains("control plane unreachable"), "got: {html}");
}

#[test]
fn does_not_render_a_stale_banner_when_the_snapshot_is_fresh() {
    let snapshot = Snapshot { nodes: vec![], services: vec![], stale: false, stale_as_of_unix: None };
    let html = render(&snapshot, 1_000_000_000);
    assert!(!html.contains("control plane unreachable"), "got: {html}");
}

#[test]
fn renders_a_stale_marker_cell_for_a_stale_node() {
    let node = NodeSnapshot { status: sample_node_status(), jails: vec![], volumes: vec![], data_stale: true };
    let snapshot = Snapshot { nodes: vec![node], services: vec![], stale: false, stale_as_of_unix: None };
    let html = render(&snapshot, 1_000_000_000);
    assert!(html.contains("<td>stale</td>"), "got: {html}");
}

#[test]
fn renders_a_stale_marker_cell_for_a_stale_service() {
    let service = ServiceSnapshot {
        summary: ServiceSummary { name: "web".to_string(), desired_replicas: 3, vip: "10.0.250.7".to_string(), port: 8080 },
        detail: None,
        data_stale: true,
    };
    let snapshot = Snapshot { nodes: vec![], services: vec![service], stale: false, stale_as_of_unix: None };
    let html = render(&snapshot, 1_000_000_000);
    assert!(html.contains("<td>stale</td>"), "got: {html}");
}

#[test]
fn renders_none_for_an_ingress_with_no_cert_expiry() {
    let mut node_status = sample_node_status();
    node_status.ingresses[0].cert_expires_at_unix = None;
    let node = NodeSnapshot { status: node_status, jails: vec![], volumes: vec![], data_stale: false };
    let snapshot = Snapshot { nodes: vec![node], services: vec![], stale: false, stale_as_of_unix: None };
    let html = render(&snapshot, 1_000_000_000);
    assert!(html.contains("<td>none</td>"), "got: {html}");
}

#[test]
fn escapes_html_special_characters_in_dynamic_values() {
    let mut node_status = sample_node_status();
    node_status.id = "<script>alert(1)</script>".to_string();
    node_status.ingresses[0].host = "a & b".to_string();
    let node = NodeSnapshot { status: node_status, jails: vec![], volumes: vec![], data_stale: false };
    let snapshot = Snapshot { nodes: vec![node], services: vec![], stale: false, stale_as_of_unix: None };
    let html = render(&snapshot, 1_000_000_000);
    assert!(!html.contains("<script>alert(1)</script>"), "got: {html}");
    assert!(html.contains("&lt;script&gt;alert(1)&lt;/script&gt;"), "got: {html}");
    assert!(html.contains("a &amp; b"), "got: {html}");
}

#[test]
fn renders_a_js_fetch_poll_loop_instead_of_a_meta_refresh() {
    let snapshot = Snapshot { nodes: vec![], services: vec![], stale: false, stale_as_of_unix: None };
    let html = render(&snapshot, 1_000_000_000);
    assert!(html.contains("fetch('/api/snapshot')"), "got: {html}");
    assert!(!html.contains("http-equiv=\"refresh\""), "got: {html}");
}

#[test]
fn escaping_goes_part_by_part_and_can_be_undone() {
    let texts = ["", "&", "amp;", "&amp;", "<", "&lt;", "lt;", ">", "\"", "&quot;", "a<b", "a&lt;b", "&amp;lt;"];
    for a in texts {
        for b in texts {
            assert_eq!(escape_html(&format!("{a}{b}")), escape_html(a) + &escape_html(b));
            assert_eq!(escape_html(a) == escape_html(b), a == b, "{a} {b}");
        }
    }
    assert_eq!(escape_html("&lt;"), "&amp;lt;");
}
