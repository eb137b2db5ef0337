//! The values that nodes, the control plane and the dashboard tell each other.

use crate::backoff::BackoffStatus;
use crate::jail::{JailRecord, JailRecordView};
use crate::views::{duplicate_all, views, Duplicate};
use vstd::prelude::*;

verus! {

/// What is answered to a request that went wrong.
#[derive(Debug, Clone, PartialEq, Eq)]
pub struct ErrorBody {
    pub error: String,
}

/// The YAML of a mapping from one text to another.
pub uninterp spec fn yaml_entry(key: Seq<char>, value: Seq<char>) -> Seq<u8>;

/// `serde_yaml::to_string` of a mapping with one entry. Its bytes are named by [`yaml_entry`].
#[verifier::external_body]
fn write_entry(key: &str, value: &str) -> (r: Vec<u8>)
    ensures
        r@ == yaml_entry(key@, value@),
{
    let entry = std::collections::BTreeMap::from([(key, value)]);
    serde_yaml::to_string(&entry).expect("texts can be written as YAML").into_bytes()
}

impl ErrorBody {
    /// The body of the answer, in YAML.
    pub fn to_yaml(&self) -> (r: Vec<u8>)
        ensures
            r@ == yaml_entry("error"@, self.error@),
    {
        write_entry("error", self.error.as_str())
    }
}

/// The status and the body of the answer to a request that went wrong.
pub fn error_response(status: u16, message: String) -> (r: (u16, Vec<u8>))
    ensures
        r.0 == status,
        r.1@ == yaml_entry("error"@, message@),
{
    let body = ErrorBody { error: message };
    (status, body.to_yaml())
}

/// Whether a node has been heard from lately.
#[derive(Debug, Clone, Copy, PartialEq, Eq, Structural)]
pub enum NodeState {
    Alive,
    Dead,
}

/// A number of processor cores: the bits of the double-precision value, and the value in decimal
/// with two digits after the point.
#[derive(Debug, Clone, PartialEq, Eq)]
pub struct CpuCores {
    pub bits: u64,
    pub shown: String,
}

/// What a [`CpuCores`] holds.
#[verifier::ext_equal]
pub struct CpuCoresView {
    pub bits: u64,
    pub shown: Seq<char>,
}

impl View for CpuCores {
    type V = CpuCoresView;

    open spec fn view(&self) -> CpuCoresView {
        CpuCoresView {
            bits: self.bits,
            shown: self.shown@,
        }
    }
}

impl Duplicate for CpuCores {
    fn duplicate(&self) -> (r: Self) {
        CpuCores {
            bits: self.bits,
            shown: self.shown.clone(),
        }
    }
}

/// How an ingress of a node stands.
#[derive(Debug, Clone, PartialEq, Eq)]
pub struct IngressHealth {
    pub name: String,
    pub host: String,
    pub backend_service: String,
    pub backend_port: u16,
    pub cert_expires_at_unix: Option<i64>,
}

/// What a [`IngressHealth`] holds.
#[verifier::ext_equal]
pub struct IngressHealthView {
    pub name: Seq<char>,
    pub host: Seq<char>,
    pub backend_service: Seq<char>,
    pub backend_port: u16,
    pub cert_expires_at_unix: Option<i64>,
}

impl View for IngressHealth {
    type V = IngressHealthView;

    open spec fn view(&self) -> IngressHealthView {
        IngressHealthView {
            name: self.name@,
            host: self.host@,
            backend_service: self.backend_service@,
            backend_port: self.backend_port,
            cert_expires_at_unix: self.cert_expires_at_unix,
        }
    }
}

impl Duplicate for IngressHealth {
    fn duplicate(&self) -> (r: Self) {
        IngressHealth {
            name: self.name.clone(),
            host: self.host.clone(),
            backend_service: self.backend_service.clone(),
            backend_port: self.backend_port,
            cert_expires_at_unix: self.cert_expires_at_unix,
        }
    }
}

/// How a node stands.
#[derive(Debug, Clone, PartialEq, Eq)]
pub struct NodeStatus {
    pub id: String,
    pub addr: String,
    pub pod_cidr: String,
    pub status: NodeState,
    pub last_seen_secs: u64,
    pub capacity_cpu: CpuCores,
    pub capacity_memory: u64,
    pub committed_cpu: CpuCores,
    pub committed_memory: u64,
    pub ingresses: Vec<IngressHealth>,
}

/// What a [`NodeStatus`] holds.
#[verifier::ext_equal]
pub struct NodeStatusView {
    pub id: Seq<char>,
    pub addr: Seq<char>,
    pub pod_cidr: Seq<char>,
    pub status: NodeState,
    pub last_seen_secs: u64,
    pub capacity_cpu: CpuCoresView,
    pub capacity_memory: u64,
    pub committed_cpu: CpuCoresView,
    pub committed_memory: u64,
    pub ingresses: Seq<IngressHealthView>,
}

impl View for NodeStatus {
    type V = NodeStatusView;

    open spec fn view(&self) -> NodeStatusView {
        NodeStatusView {
            id: self.id@,
            addr: self.addr@,
            pod_cidr: self.pod_cidr@,
            status: self.status,
            last_seen_secs: self.last_seen_secs,
            capacity_cpu: self.capacity_cpu@,
            capacity_memory: self.capacity_memory,
            committed_cpu: self.committed_cpu@,
            committed_memory: self.committed_memory,
            ingresses: views(self.ingresses@),
        }
    }
}

impl Duplicate for NodeStatus {
    fn duplicate(&self) -> (r: Self) {
        NodeStatus {
            id: self.id.clone(),
            addr: self.addr.clone(),
            pod_cidr: self.pod_cidr.clone(),
            status: self.status,
            last_seen_secs: self.last_seen_secs,
            capacity_cpu: self.capacity_cpu.duplicate(),
            capacity_memory: self.capacity_memory,
            committed_cpu: self.committed_cpu.duplicate(),
            committed_memory: self.committed_memory,
            ingresses: duplicate_all(&self.ingresses),
        }
    }
}

/// Whether a jail of a node runs.
#[derive(Debug, Clone, PartialEq, Eq)]
pub struct JailHealth {
    pub name: String,
    pub running: bool,
}

/// What a [`JailHealth`] holds.
#[verifier::ext_equal]
pub struct JailHealthView {
    pub name: Seq<char>,
    pub running: bool,
}

impl View for JailHealth {
    type V = JailHealthView;

    open spec fn view(&self) -> JailHealthView {
        JailHealthView {
            name: self.name@,
            running: self.running,
        }
    }
}

impl Duplicate for JailHealth {
    fn duplicate(&self) -> (r: Self) {
        JailHealth {
            name: self.name.clone(),
            running: self.running,
        }
    }
}

/// Where a replica of a service is.
#[derive(Debug, Clone, PartialEq, Eq)]
pub struct ServiceReplica {
    pub name: String,
    pub node: String,
    pub address: String,
}

/// What a [`ServiceReplica`] holds.
#[verifier::ext_equal]
pub struct ServiceReplicaView {
    pub name: Seq<char>,
    pub node: Seq<char>,
    pub address: Seq<char>,
}

impl View for ServiceReplica {
    type V = ServiceReplicaView;

    open spec fn view(&self) -> ServiceReplicaView {
        ServiceReplicaView {
            name: self.name@,
            node: self.node@,
            address: self.address@,
        }
    }
}

impl Duplicate for ServiceReplica {
    fn duplicate(&self) -> (r: Self) {
        ServiceReplica {
            name: self.name.clone(),
            node: self.node.clone(),
            address: self.address.clone(),
        }
    }
}

/// A service, without its replicas.
#[derive(Debug, Clone, PartialEq, Eq)]
pub struct ServiceSummary {
    pub name: String,
    pub desired_replicas: u32,
    pub vip: String,
    pub port: u16,
}

/// What a [`ServiceSummary`] holds.
#[verifier::ext_equal]
pub struct ServiceSummaryView {
    pub name: Seq<char>,
    pub desired_replicas: u32,
    pub vip: Seq<char>,
    pub port: u16,
}

impl View for ServiceSummary {
    type V = ServiceSummaryView;

    open spec fn view(&self) -> ServiceSummaryView {
        ServiceSummaryView {
            name: self.name@,
            desired_replicas: self.desired_replicas,
            vip: self.vip@,
            port: self.port,
        }
    }
}

impl Duplicate for ServiceSummary {
    fn duplicate(&self) -> (r: Self) {
        ServiceSummary {
            name: self.name.clone(),
            desired_replicas: self.desired_replicas,
            vip: self.vip.clone(),
            port: self.port,
        }
    }
}

/// A service, with its healthy replicas.
#[derive(Debug, Clone, PartialEq, Eq)]
pub struct ServiceProxyEntry {
    pub name: String,
    pub vip: String,
    pub port: u16,
    pub replicas: Vec<ServiceReplica>,
}

/// What a [`ServiceProxyEntry`] holds.
#[verifier::ext_equal]
pub struct ServiceProxyEntryView {
    pub name: Seq<char>,
    pub vip: Seq<char>,
    pub port: u16,
    pub replicas: Seq<ServiceReplicaView>,
}

impl View for ServiceProxyEntry {
    type V = ServiceProxyEntryView;

    open spec fn view(&self) -> ServiceProxyEntryView {
        ServiceProxyEntryView {
            name: self.name@,
            vip: self.vip@,
            port: self.port,
            replicas: views(self.replicas@),
        }
    }
}

impl Duplicate for ServiceProxyEntry {
    fn duplicate(&self) -> (r: Self) {
        ServiceProxyEntry {
            name: self.name.clone(),
            vip: self.vip.clone(),
            port: self.port,
            replicas: duplicate_all(&self.replicas),
        }
    }
}

/// A volume of a node.
#[derive(Debug, Clone, PartialEq, Eq)]
pub struct VolumeStatus {
    pub name: String,
}

/// What a [`VolumeStatus`] holds.
#[verifier::ext_equal]
pub struct VolumeStatusView {
    pub name: Seq<char>,
}

impl View for VolumeStatus {
    type V = VolumeStatusView;

    open spec fn view(&self) -> VolumeStatusView {
        VolumeStatusView {
            name: self.name@,
        }
    }
}

impl Duplicate for VolumeStatus {
    fn duplicate(&self) -> (r: Self) {
        VolumeStatus {
            name: self.name.clone(),
        }
    }
}

/// A jail of a node, with what its agent knows of it.
#[derive(Debug, Clone, PartialEq, Eq)]
pub struct JailStatus {
    pub record: JailRecord,
    pub running: bool,
    pub backoff: BackoffStatus,
}

/// What a [`JailStatus`] holds.
#[verifier::ext_equal]
pub struct JailStatusView {
    pub record: JailRecordView,
    pub running: bool,
    pub backoff: BackoffStatus,
}

impl View for JailStatus {
    type V = JailStatusView;

    open spec fn view(&self) -> JailStatusView {
        JailStatusView {
            record: self.record@,
            running: self.running,
            backoff: self.backoff,
        }
    }
}

impl Duplicate for JailStatus {
    fn duplicate(&self) -> (r: Self) {
        JailStatus {
            record: self.record.duplicate(),
            running: self.running,
            backoff: self.backoff,
        }
    }
}

} // verus!
