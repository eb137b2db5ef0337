//! What a jail is asked to be, and what an agent records of it.

use crate::views::{duplicate_all, duplicate_opt, opt_view, same_all, views, Duplicate, Same};
use vstd::prelude::*;

verus! {

/// When a stopped jail is started again.
#[derive(Debug, Clone, PartialEq, Eq)]
pub enum RestartPolicy {
    Always,
    /// A policy that the control plane carries without reading it.
    Named(String),
}

/// What a [`RestartPolicy`] holds.
#[verifier::ext_equal]
pub enum RestartPolicyView {
    Always,
    Named(Seq<char>),
}

impl View for RestartPolicy {
    type V = RestartPolicyView;

    open spec fn view(&self) -> RestartPolicyView {
        match self {
            RestartPolicy::Always => RestartPolicyView::Always,
            RestartPolicy::Named(name) => RestartPolicyView::Named(name@),
        }
    }
}

impl Duplicate for RestartPolicy {
    fn duplicate(&self) -> (r: Self) {
        match self {
            RestartPolicy::Always => RestartPolicy::Always,
            RestartPolicy::Named(name) => RestartPolicy::Named(name.clone()),
        }
    }
}

impl Same for RestartPolicy {
    fn same_as(&self, other: &Self) -> (r: bool) {
        match (self, other) {
            (RestartPolicy::Always, RestartPolicy::Always) => true,
            (RestartPolicy::Named(a), RestartPolicy::Named(b)) => *a == *b,
            _ => false,
        }
    }
}

/// The network of a replica, before it has an address.
#[derive(Debug, Clone, PartialEq, Eq)]
pub struct TemplateNetworkSpec {
    pub vnet: bool,
    pub bridge: String,
}

/// What a [`TemplateNetworkSpec`] holds.
#[verifier::ext_equal]
pub struct TemplateNetworkSpecView {
    pub vnet: bool,
    pub bridge: Seq<char>,
}

impl View for TemplateNetworkSpec {
    type V = TemplateNetworkSpecView;

    open spec fn view(&self) -> TemplateNetworkSpecView {
        TemplateNetworkSpecView {
            vnet: self.vnet,
            bridge: self.bridge@,
        }
    }
}

impl Duplicate for TemplateNetworkSpec {
    fn duplicate(&self) -> (r: Self) {
        TemplateNetworkSpec {
            vnet: self.vnet,
            bridge: self.bridge.clone(),
        }
    }
}

impl Same for TemplateNetworkSpec {
    fn same_as(&self, other: &Self) -> (r: bool) {
        self.vnet == other.vnet
            && self.bridge == other.bridge
    }
}

/// The network of a jail.
#[derive(Debug, Clone, PartialEq, Eq)]
pub struct NetworkSpec {
    pub vnet: bool,
    pub bridge: String,
    pub address: String,
}

/// What a [`NetworkSpec`] holds.
#[verifier::ext_equal]
pub struct NetworkSpecView {
    pub vnet: bool,
    pub bridge: Seq<char>,
    pub address: Seq<char>,
}

impl View for NetworkSpec {
    type V = NetworkSpecView;

    open spec fn view(&self) -> NetworkSpecView {
        NetworkSpecView {
            vnet: self.vnet,
            bridge: self.bridge@,
            address: self.address@,
        }
    }
}

impl Duplicate for NetworkSpec {
    fn duplicate(&self) -> (r: Self) {
        NetworkSpec {
            vnet: self.vnet,
            bridge: self.bridge.clone(),
            address: self.address.clone(),
        }
    }
}

/// How much of a node a jail takes, as it is written down.
#[derive(Debug, Clone, PartialEq, Eq)]
pub struct ResourcesSpec {
    pub cpu: String,
    pub memory: String,
}

/// What a [`ResourcesSpec`] holds.
#[verifier::ext_equal]
pub struct ResourcesSpecView {
    pub cpu: Seq<char>,
    pub memory: Seq<char>,
}

impl View for ResourcesSpec {
    type V = ResourcesSpecView;

    open spec fn view(&self) -> ResourcesSpecView {
        ResourcesSpecView {
            cpu: self.cpu@,
            memory: self.memory@,
        }
    }
}

impl Duplicate for ResourcesSpec {
    fn duplicate(&self) -> (r: Self) {
        ResourcesSpec {
            cpu: self.cpu.clone(),
            memory: self.memory.clone(),
        }
    }
}

impl Same for ResourcesSpec {
    fn same_as(&self, other: &Self) -> (r: bool) {
        self.cpu == other.cpu
            && self.memory == other.memory
    }
}

/// A volume of a jail, and where it is mounted.
#[derive(Debug, Clone, PartialEq, Eq)]
pub struct VolumeMount {
    pub name: String,
    pub mount_path: String,
    pub size: String,
}

/// What a [`VolumeMount`] holds.
#[verifier::ext_equal]
pub struct VolumeMountView {
    pub name: Seq<char>,
    pub mount_path: Seq<char>,
    pub size: Seq<char>,
}

impl View for VolumeMount {
    type V = VolumeMountView;

    open spec fn view(&self) -> VolumeMountView {
        VolumeMountView {
            name: self.name@,
            mount_path: self.mount_path@,
            size: self.size@,
        }
    }
}

impl Duplicate for VolumeMount {
    fn duplicate(&self) -> (r: Self) {
        VolumeMount {
            name: self.name.clone(),
            mount_path: self.mount_path.clone(),
            size: self.size.clone(),
        }
    }
}

impl Same for VolumeMount {
    fn same_as(&self, other: &Self) -> (r: bool) {
        self.name == other.name
            && self.mount_path == other.mount_path
            && self.size == other.size
    }
}

/// What every replica of a service is made from.
#[derive(Debug, Clone, PartialEq, Eq)]
pub struct JailTemplate {
    pub image: String,
    pub command: Vec<String>,
    pub network: TemplateNetworkSpec,
    pub resources: ResourcesSpec,
    pub restart_policy: RestartPolicy,
    pub volumes: Vec<VolumeMount>,
}

/// What a [`JailTemplate`] holds.
#[verifier::ext_equal]
pub struct JailTemplateView {
    pub image: Seq<char>,
    pub command: Seq<Seq<char>>,
    pub network: TemplateNetworkSpecView,
    pub resources: ResourcesSpecView,
    pub restart_policy: RestartPolicyView,
    pub volumes: Seq<VolumeMountView>,
}

impl View for JailTemplate {
    type V = JailTemplateView;

    open spec fn view(&self) -> JailTemplateView {
        JailTemplateView {
            image: self.image@,
            command: views(self.command@),
            network: self.network@,
            resources: self.resources@,
            restart_policy: self.restart_policy@,
            volumes: views(self.volumes@),
        }
    }
}

impl Duplicate for JailTemplate {
    fn duplicate(&self) -> (r: Self) {
        JailTemplate {
            image: self.image.clone(),
            command: duplicate_all(&self.command),
            network: self.network.duplicate(),
            resources: self.resources.duplicate(),
            restart_policy: self.restart_policy.duplicate(),
            volumes: duplicate_all(&self.volumes),
        }
    }
}

impl Same for JailTemplate {
    fn same_as(&self, other: &Self) -> (r: bool) {
        self.image == other.image
            && same_all(&self.command, &other.command)
            && self.network.same_as(&other.network)
            && self.resources.same_as(&other.resources)
            && self.restart_policy.same_as(&other.restart_policy)
            && same_all(&self.volumes, &other.volumes)
    }
}

/// The name of a jail.
#[derive(Debug, Clone, PartialEq, Eq)]
pub struct Metadata {
    pub name: String,
}

/// What a [`Metadata`] holds.
#[verifier::ext_equal]
pub struct MetadataView {
    pub name: Seq<char>,
}

impl View for Metadata {
    type V = MetadataView;

    open spec fn view(&self) -> MetadataView {
        MetadataView {
            name: self.name@,
        }
    }
}

impl Duplicate for Metadata {
    fn duplicate(&self) -> (r: Self) {
        Metadata {
            name: self.name.clone(),
        }
    }
}

/// What one jail runs, and with what.
#[derive(Debug, Clone, PartialEq, Eq)]
pub struct Spec {
    pub image: String,
    pub command: Vec<String>,
    pub network: NetworkSpec,
    pub resources: ResourcesSpec,
    pub restart_policy: RestartPolicy,
    pub volumes: Vec<VolumeMount>,
    pub replicate_to: Option<String>,
    pub generation: u64,
}

/// What a [`Spec`] holds.
#[verifier::ext_equal]
pub struct SpecView {
    pub image: Seq<char>,
    pub command: Seq<Seq<char>>,
    pub network: NetworkSpecView,
    pub resources: ResourcesSpecView,
    pub restart_policy: RestartPolicyView,
    pub volumes: Seq<VolumeMountView>,
    pub replicate_to: Option<Seq<char>>,
    pub generation: u64,
}

impl View for Spec {
    type V = SpecView;

    open spec fn view(&self) -> SpecView {
        SpecView {
            image: self.image@,
            command: views(self.command@),
            network: self.network@,
            resources: self.resources@,
            restart_policy: self.restart_policy@,
            volumes: views(self.volumes@),
            replicate_to: opt_view(self.replicate_to),
            generation: self.generation,
        }
    }
}

impl Duplicate for Spec {
    fn duplicate(&self) -> (r: Self) {
        Spec {
            image: self.image.clone(),
            command: duplicate_all(&self.command),
            network: self.network.duplicate(),
            resources: self.resources.duplicate(),
            restart_policy: self.restart_policy.duplicate(),
            volumes: duplicate_all(&self.volumes),
            replicate_to: duplicate_opt(&self.replicate_to),
            generation: self.generation,
        }
    }
}

/// A jail as it is asked for.
#[derive(Debug, Clone, PartialEq, Eq)]
pub struct JailSpec {
    pub api_version: String,
    pub kind: String,
    pub metadata: Metadata,
    pub spec: Spec,
}

/// What a [`JailSpec`] holds.
#[verifier::ext_equal]
pub struct JailSpecView {
    pub api_version: Seq<char>,
    pub kind: Seq<char>,
    pub metadata: MetadataView,
    pub spec: SpecView,
}

impl View for JailSpec {
    type V = JailSpecView;

    open spec fn view(&self) -> JailSpecView {
        JailSpecView {
            api_version: self.api_version@,
            kind: self.kind@,
            metadata: self.metadata@,
            spec: self.spec@,
        }
    }
}

impl Duplicate for JailSpec {
    fn duplicate(&self) -> (r: Self) {
        JailSpec {
            api_version: self.api_version.clone(),
            kind: self.kind.clone(),
            metadata: self.metadata.duplicate(),
            spec: self.spec.duplicate(),
        }
    }
}

/// A jail as an agent keeps it.
#[derive(Debug, Clone, PartialEq, Eq)]
pub struct JailRecord {
    pub spec: JailSpec,
    pub epair_ordinal: u32,
    pub deleting: bool,
}

/// What a [`JailRecord`] holds.
#[verifier::ext_equal]
pub struct JailRecordView {
    pub spec: JailSpecView,
    pub epair_ordinal: u32,
    pub deleting: bool,
}

impl View for JailRecord {
    type V = JailRecordView;

    open spec fn view(&self) -> JailRecordView {
        JailRecordView {
            spec: self.spec@,
            epair_ordinal: self.epair_ordinal,
            deleting: self.deleting,
        }
    }
}

impl Duplicate for JailRecord {
    fn duplicate(&self) -> (r: Self) {
        JailRecord {
            spec: self.spec.duplicate(),
            epair_ordinal: self.epair_ordinal,
            deleting: self.deleting,
        }
    }
}

} // verus!
