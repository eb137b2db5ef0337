//! The commands of the control plane, and what each of them answers and changes.

use crate::controlplane::addresses::{address_text, dotted, first_free, first_free_address, Ipv4Cidr, UsedAddresses};
use crate::controlplane::cordoned::Cordoned;
use crate::controlplane::pending_fences::{names_on, PendingFences};
use crate::controlplane::placements::Placements;
use crate::controlplane::reconcile::{cluster_of, PassView, ReconcilePass, ReplicaAction, ReplicaActionView};
use crate::controlplane::registry::{
    resolution, NodeView, PodCidrCollision, Registration, Registry, RegistryView, Report, ResolveError,
    ResolveErrorView, UnknownNode,
};
use crate::controlplane::scheduler::{
    candidates, candidates_of, picked, schedulable_nodes, schedulable_of, NodeResources, NodeResourcesView,
    ScheduleError,
};
use crate::controlplane::services::{
    applied, owner_of, owner_of_spec, replica_index, replica_index_of, replica_name, replica_name_of,
    ApplyServiceError, Owner, OwnerView, ServiceRecordView, Services, UnknownService,
};
use crate::controlplane::standbys::Standbys;
use crate::jail::{JailTemplate, JailTemplateView};
use crate::strmap::StrMap;
use crate::text::between;
use crate::views::{opt_view, views, Duplicate};
use crate::wire::{
    NodeStatus, ServiceProxyEntry, ServiceProxyEntryView, ServiceReplica, ServiceReplicaView, ServiceSummary,
    ServiceSummaryView,
};
use vstd::prelude::*;
use vstd::string::*;

verus! {

/// Why there is no node for a jail.
#[derive(Debug, Clone, PartialEq, Eq)]
pub enum ScheduleOrResolveError {
    Schedule(ScheduleError),
    Resolve(ResolveError),
}

/// Why the node of a jail cannot be told.
#[derive(Debug, Clone, PartialEq, Eq)]
pub enum PlacementError {
    NotPlaced(String),
    Resolve(ResolveError),
}

impl ScheduleOrResolveError {
    pub open spec fn text(self) -> Seq<char> {
        match self {
            ScheduleOrResolveError::Schedule(e) => e.text(),
            ScheduleOrResolveError::Resolve(e) => e@.text(),
        }
    }

    /// The error in words.
    pub fn message(&self) -> (r: String)
        ensures
            r@ == self.text(),
    {
        match self {
            ScheduleOrResolveError::Schedule(e) => e.message(),
            ScheduleOrResolveError::Resolve(e) => e.message(),
        }
    }
}

impl PlacementError {
    pub open spec fn text(self) -> Seq<char> {
        match self {
            PlacementError::NotPlaced(name) => "no known placement for jail '"@ + name@ + "'"@,
            PlacementError::Resolve(e) => e@.text(),
        }
    }

    /// The error in words.
    pub fn message(&self) -> (r: String)
        ensures
            r@ == self.text(),
    {
        match self {
            PlacementError::NotPlaced(name) => between("no known placement for jail '", name.as_str(), "'"),
            PlacementError::Resolve(e) => e.message(),
        }
    }
}

/// Everything that is needed to promote the standby of a replica.
#[derive(Debug, Clone, PartialEq, Eq)]
pub struct ForceRepinPrep {
    pub old_node_id: String,
    pub old_node_last_known_addr: Option<String>,
    pub standby_node_id: String,
    pub standby_addr: String,
    pub template: JailTemplate,
    pub fresh_standby_node_id: String,
    pub fresh_standby_addr: String,
    pub address: u32,
    pub prefix_len: u8,
    /// The generation that the promoted standby carries: strictly higher than that of the old
    /// primary, so a standby refuses the streams of an old primary that was merely partitioned.
    pub next_generation: u64,
}

/// What a [`ForceRepinPrep`] holds.
#[verifier::ext_equal]
pub struct ForceRepinPrepView {
    pub old_node_id: Seq<char>,
    pub old_node_last_known_addr: Option<Seq<char>>,
    pub standby_node_id: Seq<char>,
    pub standby_addr: Seq<char>,
    pub template: JailTemplateView,
    pub fresh_standby_node_id: Seq<char>,
    pub fresh_standby_addr: Seq<char>,
    pub address: u32,
    pub prefix_len: u8,
    pub next_generation: u64,
}

impl View for ForceRepinPrep {
    type V = ForceRepinPrepView;

    open spec fn view(&self) -> ForceRepinPrepView {
        ForceRepinPrepView {
            old_node_id: self.old_node_id@,
            old_node_last_known_addr: opt_view(self.old_node_last_known_addr),
            standby_node_id: self.standby_node_id@,
            standby_addr: self.standby_addr@,
            template: self.template@,
            fresh_standby_node_id: self.fresh_standby_node_id@,
            fresh_standby_addr: self.fresh_standby_addr@,
            address: self.address,
            prefix_len: self.prefix_len,
            next_generation: self.next_generation,
        }
    }
}

/// Why a replica cannot be moved to its standby.
#[derive(Debug, Clone, PartialEq, Eq)]
pub enum ForceRepinError {
    NotPlaced(String),
    /// It is not a stateful replica with a standby.
    NotStateful(String),
    /// The node of the primary is alive.
    PrimaryStillAlive(String),
    StandbyUnresolvable(ResolveError),
    /// No node is left to be the next standby.
    NoFreshStandby,
    /// No address is free for the promoted primary.
    NoFreeAddress,
}

/// What a [`ForceRepinError`] holds.
#[verifier::ext_equal]
pub enum ForceRepinErrorView {
    NotPlaced(Seq<char>),
    NotStateful(Seq<char>),
    PrimaryStillAlive(Seq<char>),
    StandbyUnresolvable(ResolveErrorView),
    NoFreshStandby,
    NoFreeAddress,
}

impl View for ForceRepinError {
    type V = ForceRepinErrorView;

    open spec fn view(&self) -> ForceRepinErrorView {
        match self {
            ForceRepinError::NotPlaced(name) => ForceRepinErrorView::NotPlaced(name@),
            ForceRepinError::NotStateful(name) => ForceRepinErrorView::NotStateful(name@),
            ForceRepinError::PrimaryStillAlive(id) => ForceRepinErrorView::PrimaryStillAlive(id@),
            ForceRepinError::StandbyUnresolvable(e) => ForceRepinErrorView::StandbyUnresolvable(e@),
            ForceRepinError::NoFreshStandby => ForceRepinErrorView::NoFreshStandby,
            ForceRepinError::NoFreeAddress => ForceRepinErrorView::NoFreeAddress,
        }
    }
}

impl ForceRepinErrorView {
    pub open spec fn text(self) -> Seq<char> {
        match self {
            ForceRepinErrorView::NotPlaced(name) => "no known placement for replica '"@ + name + "'"@,
            ForceRepinErrorView::NotStateful(name) => "'"@ + name + "' is not a stateful replica with a standby"@,
            ForceRepinErrorView::PrimaryStillAlive(id) => "current primary node '"@ + id
                + "' still resolves as alive"@,
            ForceRepinErrorView::StandbyUnresolvable(e) => "standby node is unreachable: "@ + e.text(),
            ForceRepinErrorView::NoFreshStandby => "no alive node available to serve as a fresh standby"@,
            ForceRepinErrorView::NoFreeAddress => "no free address available for the promoted primary"@,
        }
    }
}

impl ForceRepinError {
    /// The error in words.
    pub fn message(&self) -> (r: String)
        ensures
            r@ == self@.text(),
    {
        match self {
            ForceRepinError::NotPlaced(name) => between("no known placement for replica '", name.as_str(), "'"),
            ForceRepinError::NotStateful(name) => between(
                "'",
                name.as_str(),
                "' is not a stateful replica with a standby",
            ),
            ForceRepinError::PrimaryStillAlive(id) => between(
                "current primary node '",
                id.as_str(),
                "' still resolves as alive",
            ),
            ForceRepinError::StandbyUnresolvable(e) => {
                let mut out = "standby node is unreachable: ".to_owned();
                out.append(e.message().as_str());
                out
            },
            ForceRepinError::NoFreshStandby => "no alive node available to serve as a fresh standby".to_owned(),
            ForceRepinError::NoFreeAddress => "no free address available for the promoted primary".to_owned(),
        }
    }
}

/// The result of a preparation, by what it holds.
pub open spec fn repin_view(r: Result<ForceRepinPrep, ForceRepinError>) -> Result<
    ForceRepinPrepView,
    ForceRepinErrorView,
> {
    match r {
        Ok(prep) => Ok(prep@),
        Err(e) => Err(e@),
    }
}

/// A table that has to be written down.
#[derive(Debug, Clone, Copy, PartialEq, Eq, Structural)]
pub enum StateFile {
    Placements,
    Services,
    UsedAddresses,
    Standbys,
    PendingFences,
    Cordoned,
}

impl StateFile {
    /// The name of the file that holds the table.
    pub open spec fn name(self) -> Seq<char> {
        match self {
            StateFile::Placements => "placements.yaml"@,
            StateFile::Services => "services.yaml"@,
            StateFile::UsedAddresses => "used_addresses.yaml"@,
            StateFile::Standbys => "standbys.yaml"@,
            StateFile::PendingFences => "pending_fences.yaml"@,
            StateFile::Cordoned => "cordoned.yaml"@,
        }
    }

    /// The name of the file that holds the table.
    pub fn file_name(self) -> (r: &'static str)
        ensures
            r@ == self.name(),
    {
        match self {
            StateFile::Placements => "placements.yaml",
            StateFile::Services => "services.yaml",
            StateFile::UsedAddresses => "used_addresses.yaml",
            StateFile::Standbys => "standbys.yaml",
            StateFile::PendingFences => "pending_fences.yaml",
            StateFile::Cordoned => "cordoned.yaml",
        }
    }
}

/// Something to ask of the control plane.
pub enum Command {
    /// A node registers.
    Register(String, Registration),
    /// A node reports.
    Heartbeat(String, Report),
    List,
    Resolve(String),
    ResolveOrSchedule(String),
    ResolvePlacement(String),
    RecordPlacement(String, String),
    RemovePlacement(String),
    OwnerOf(String),
    /// A service with its number of replicas, its template, its port, and the address that it gets
    /// if it is new.
    ApplyService(String, u32, JailTemplate, u16, u32),
    /// Computes what to do from what is recorded now, and reserves nothing: what comes of the
    /// actions is recorded by further commands, once each of them was carried out.
    ReconcileServices,
    DiscoverService(String),
    ListServices,
    ListServiceProxyEntries,
    DeleteService(String),
    RecordReplicaAddress(String, String, u32),
    ReleaseReplicaAddress(String),
    RecordStandby(String, String),
    RemoveStandby(String),
    RecordPendingFence(String, String),
    PendingFencesForNode(String),
    RemovePendingFence(String),
    PrepareForceRepin(String),
    PrepareDrainRepin(String),
    Cordon(String),
    Uncordon(String),
}

/// What a command answers.
#[derive(Debug, PartialEq, Eq)]
pub enum Reply {
    Registered(Result<Ipv4Cidr, PodCidrCollision>),
    Heartbeat(Result<(), UnknownNode>),
    Nodes(Vec<NodeStatus>),
    Resolved(Result<String, ResolveError>),
    Scheduled(Result<(String, String), ScheduleOrResolveError>),
    Placement(Result<(String, String), PlacementError>),
    Done,
    Owner(Option<Owner>),
    Applied(Result<(), ApplyServiceError>),
    Actions(Vec<ReplicaAction>),
    Replicas(Result<Vec<ServiceReplica>, UnknownService>),
    Services(Vec<ServiceSummary>),
    ProxyEntries(Vec<ServiceProxyEntry>),
    Deleted(Result<Vec<ReplicaAction>, UnknownService>),
    PendingFences(Vec<String>),
    Repin(Result<ForceRepinPrep, ForceRepinError>),
    Cordon(Result<(), UnknownNode>),
}

/// What a command answers, and which table it changed.
pub struct Outcome {
    pub reply: Reply,
    pub persist: Option<StateFile>,
}

/// The state of the control plane.
pub struct ControlPlane {
    pub registry: Registry,
    pub placements: Placements,
    pub services: Services,
    pub used_addresses: UsedAddresses,
    pub standbys: Standbys,
    pub pending_fences: PendingFences,
    pub cordoned: Cordoned,
}

/// The picks that `best` may make among some nodes. It is not asked about none.
pub open spec fn may_pick<F: Fn(&Vec<NodeResources>) -> Option<usize>>(
    best: F,
    nodes: Seq<NodeResourcesView>,
    pick: Option<usize>,
) -> bool {
    if nodes.len() == 0 {
        pick is None
    } else {
        exists|v: Vec<NodeResources>| views(v@) == nodes && #[trigger] call_ensures(best, (&v,), pick)
    }
}

/// `best` is a choice between nodes: it can be asked about any, and picks the same among the same nodes.
pub open spec fn can_pick<F: Fn(&Vec<NodeResources>) -> Option<usize>>(best: F) -> bool {
    &&& forall|v: Vec<NodeResources>| #[trigger] call_requires(best, (&v,))
    &&& forall|a: Vec<NodeResources>, p: Option<usize>, b: Vec<NodeResources>, q: Option<usize>|
        #![trigger call_ensures(best, (&a,), p), call_ensures(best, (&b,), q)]
        call_ensures(best, (&a,), p) && call_ensures(best, (&b,), q) && views(a@) == views(b@) ==> p == q
}

fn ask<F: Fn(&Vec<NodeResources>) -> Option<usize>>(best: &F, nodes: &Vec<NodeResources>) -> (r: Option<usize>)
    requires
        can_pick(*best),
    ensures
        may_pick(*best, views(nodes@), r),
{
    if nodes.len() == 0 {
        None
    } else {
        best(nodes)
    }
}

/// The healthy replicas of a service: those whose node is alive and reported them running, and whose
/// address is known.
pub open spec fn healthy_of(
    name: Seq<char>,
    placed: Seq<(Seq<char>, Seq<char>)>,
    registry: RegistryView,
    used: Map<Seq<char>, (Seq<char>, u32)>,
    now: u64,
) -> Seq<ServiceReplicaView>
    decreases placed.len(),
{
    if placed.len() == 0 {
        Seq::empty()
    } else {
        let prior = healthy_of(name, placed.drop_last(), registry, used, now);
        let (jail, node) = placed.last();
        if is_healthy(name, jail, node, registry, used, now) {
            prior.push(ServiceReplicaView { name: jail, node, address: dotted(used[jail].1) })
        } else {
            prior
        }
    }
}

/// Whether a placed jail is a healthy replica of a service.
pub open spec fn is_healthy(
    name: Seq<char>,
    jail: Seq<char>,
    node: Seq<char>,
    registry: RegistryView,
    used: Map<Seq<char>, (Seq<char>, u32)>,
    now: u64,
) -> bool {
    &&& replica_index_of(name, jail) is Some
    &&& registry.resolve(node, now) is Ok
    &&& registry.is_jail_running(node, jail)
    &&& used.dom().contains(jail)
}

/// The replicas of a service that are alive and running, in ascending order of their names.
pub fn healthy_replicas(
    name: &str,
    placements: &Placements,
    registry: &Registry,
    used_addresses: &UsedAddresses,
    now: u64,
) -> (r: Vec<ServiceReplica>)
    requires
        registry.wf(),
        used_addresses.wf(),
    ensures
        views(r@) == healthy_of(name@, placements.placed(), registry@, used_addresses@, now),
{
    let ghost placed = placements.placed();
    let mut out: Vec<ServiceReplica> = Vec::new();
    let mut i: usize = 0;
    assert(placed.take(0) =~= Seq::empty());
    while i < placements.len()
        invariant
            registry.wf(),
            used_addresses.wf(),
            placed == placements.placed(),
            i <= placed.len(),
            views(out@) == healthy_of(name@, placed.take(i as int), registry@, used_addresses@, now),
        decreases placed.len() - i,
    {
        assert(placed.take(i + 1).drop_last() =~= placed.take(i as int));
        let (jail, node) = placements.at(i);
        if replica_index(name, jail).is_some() && registry.resolve(node, now).is_ok() && registry.is_jail_running(
            node,
            jail,
        ) {
            if let Some(address) = used_addresses.address_of(jail) {
                let ghost before_push = out@;
                let replica = ServiceReplica {
                    name: jail.to_owned(),
                    node: node.to_owned(),
                    address: address_text(address),
                };
                let ghost added = replica@;
                out.push(replica);
                assert(views(out@) =~= views(before_push).push(added));
            }
        }
        i = i + 1;
    }
    assert(placed.take(i as int) =~= placed);
    out
}

/// The tear-downs of the placed replicas of a service whose nodes are alive, in the order of the list.
pub open spec fn teardowns_of(
    name: Seq<char>,
    placed: Seq<(Seq<char>, Seq<char>)>,
    registry: RegistryView,
    now: u64,
) -> Seq<ReplicaActionView>
    decreases placed.len(),
{
    if placed.len() == 0 {
        Seq::empty()
    } else {
        let prior = teardowns_of(name, placed.drop_last(), registry, now);
        let (jail, node) = placed.last();
        if replica_index_of(name, jail) is Some && registry.resolve(node, now) is Ok {
            prior.push(
                ReplicaActionView::TearDown {
                    replica_name: jail,
                    node_id: node,
                    node_addr: registry.resolve(node, now)->Ok_0,
                },
            )
        } else {
            prior
        }
    }
}

fn teardowns(name: &str, placements: &Placements, registry: &Registry, now: u64) -> (r: Vec<ReplicaAction>)
    requires
        registry.wf(),
    ensures
        views(r@) == teardowns_of(name@, placements.placed(), registry@, now),
{
    let ghost placed = placements.placed();
    let mut out: Vec<ReplicaAction> = Vec::new();
    let mut i: usize = 0;
    assert(placed.take(0) =~= Seq::empty());
    while i < placements.len()
        invariant
            registry.wf(),
            placed == placements.placed(),
            i <= placed.len(),
            views(out@) == teardowns_of(name@, placed.take(i as int), registry@, now),
        decreases placed.len() - i,
    {
        assert(placed.take(i + 1).drop_last() =~= placed.take(i as int));
        let (jail, node) = placements.at(i);
        if replica_index(name, jail).is_some() {
            if let Ok(addr) = registry.resolve(node, now) {
                assert(resolution(Ok(addr)) == registry@.resolve(node@, now));
                let ghost before_push = out@;
                let action = ReplicaAction::TearDown {
                    replica_name: jail.to_owned(),
                    node_id: node.to_owned(),
                    node_addr: addr,
                };
                let ghost added = action@;
                out.push(action);
                assert(views(out@) =~= views(before_push).push(added));
            }
        }
        i = i + 1;
    }
    assert(placed.take(i as int) =~= placed);
    out
}

/// What a service looks like from outside.
pub open spec fn summary_of(name: Seq<char>, record: ServiceRecordView) -> ServiceSummaryView {
    ServiceSummaryView {
        name,
        desired_replicas: record.desired_replicas,
        vip: dotted(record.vip),
        port: record.port,
    }
}

/// A replica that would have the name of a jail that belongs to something else.
pub open spec fn conflicts(
    service: Seq<char>,
    index: u32,
    placed: Map<Seq<char>, Seq<char>>,
    services: Map<Seq<char>, ServiceRecordView>,
) -> bool {
    owner_of_spec(replica_name_of(service, index), placed, services) matches Some(owner) && owner
        != OwnerView::Service(service)
}

/// What the preparations for moving a replica know before the next standby is picked.
pub struct RepinReady {
    old_node_id: String,
    old_node_last_known_addr: Option<String>,
    standby_node_id: String,
    standby_addr: String,
    template: JailTemplate,
}

/// What a [`RepinReady`] holds.
#[verifier::ext_equal]
pub struct RepinReadyView {
    pub old_node_id: Seq<char>,
    pub old_node_last_known_addr: Option<Seq<char>>,
    pub standby_node_id: Seq<char>,
    pub standby_addr: Seq<char>,
    pub template: JailTemplateView,
}

impl View for RepinReady {
    type V = RepinReadyView;

    closed spec fn view(&self) -> RepinReadyView {
        RepinReadyView {
            old_node_id: self.old_node_id@,
            old_node_last_known_addr: opt_view(self.old_node_last_known_addr),
            standby_node_id: self.standby_node_id@,
            standby_addr: self.standby_addr@,
            template: self.template@,
        }
    }
}

impl ControlPlane {
    pub open spec fn wf(&self) -> bool {
        &&& self.registry.wf()
        &&& self.placements.wf()
        &&& self.services.wf()
        &&& self.used_addresses.wf()
        &&& self.standbys.wf()
        &&& self.pending_fences.wf()
        &&& self.cordoned.wf()
    }

    /// The nodes that take new replicas.
    pub open spec fn schedulable(&self, now: u64) -> Seq<NodeResourcesView> {
        schedulable_of(self.registry.members(), now, self.registry@.dead_after, self.cordoned@)
    }

    /// The pass over the services, before its first pick.
    pub open spec fn pass(&self, now: u64) -> PassView {
        PassView::start(
            self.schedulable(now),
            self.used_addresses@,
            cluster_of(&self.registry, &self.placements, now).jobs(self.services.listed()),
        )
    }

    /// What a pass with these picks decides.
    pub open spec fn reconciled<F: Fn(&Vec<NodeResources>) -> Option<usize>>(
        &self,
        now: u64,
        best: F,
        picks: Seq<Option<usize>>,
        actions: Seq<ReplicaActionView>,
    ) -> bool {
        &&& self.pass(now).run(self.registry@, now, picks).done()
        &&& self.pass(now).run(self.registry@, now, picks).actions == actions
        &&& forall|k: int|
            0 <= k < picks.len() ==> may_pick(
                best,
                self.pass(now).run(self.registry@, now, picks.take(k)).candidates(),
                #[trigger] picks[k],
            )
    }

    /// What a pass may decide.
    pub open spec fn may_decide<F: Fn(&Vec<NodeResources>) -> Option<usize>>(
        &self,
        now: u64,
        best: F,
        actions: Seq<ReplicaActionView>,
    ) -> bool {
        exists|picks: Seq<Option<usize>>| #[trigger] self.reconciled(now, best, picks, actions)
    }

    /// The node and address of a placed jail.
    pub open spec fn located(&self, jail: Seq<char>, now: u64) -> Result<(Seq<char>, Seq<char>), ResolveErrorView> {
        match self.registry@.resolve(self.placements.nodes()[jail], now) {
            Ok(addr) => Ok((self.placements.nodes()[jail], addr)),
            Err(e) => Err(e),
        }
    }

    /// What is known before the next standby is picked, or why the replica cannot be moved.
    pub open spec fn repin_ready(&self, replica: Seq<char>, allow_alive_primary: bool, now: u64) -> Result<
        RepinReadyView,
        ForceRepinErrorView,
    > {
        let owner = owner_of_spec(replica, self.placements.nodes(), self.services@);
        if !self.placements.nodes().dom().contains(replica) {
            Err(ForceRepinErrorView::NotPlaced(replica))
        } else if !self.standbys@.dom().contains(replica) {
            Err(ForceRepinErrorView::NotStateful(replica))
        } else if !allow_alive_primary && self.registry@.resolve(self.placements.nodes()[replica], now) is Ok {
            Err(ForceRepinErrorView::PrimaryStillAlive(self.placements.nodes()[replica]))
        } else {
            match self.registry@.resolve(self.standbys@[replica], now) {
                Err(e) => Err(ForceRepinErrorView::StandbyUnresolvable(e)),
                Ok(standby_addr) => match owner {
                    Some(OwnerView::Service(service)) => Ok(
                        RepinReadyView {
                            old_node_id: self.placements.nodes()[replica],
                            old_node_last_known_addr: self.registry@.last_known_addr(
                                self.placements.nodes()[replica],
                            ),
                            standby_node_id: self.standbys@[replica],
                            standby_addr,
                            template: self.services@[service].template,
                        },
                    ),
                    _ => Err(ForceRepinErrorView::NotStateful(replica)),
                },
            }
        }
    }

    /// The nodes to pick the next standby from.
    pub open spec fn repin_candidates(&self, ready: RepinReadyView, now: u64) -> Seq<NodeResourcesView> {
        candidates_of(self.schedulable(now), set![ready.old_node_id, ready.standby_node_id])
    }

    /// The preparations with a picked next standby, or why the replica cannot be moved.
    pub open spec fn repin_with(&self, replica: Seq<char>, ready: RepinReadyView, now: u64, pick: Option<usize>) -> Result<
        ForceRepinPrepView,
        ForceRepinErrorView,
    > {
        match picked(self.repin_candidates(ready, now), pick) {
            None => Err(ForceRepinErrorView::NoFreshStandby),
            Some(fresh) => if fresh == ready.old_node_id || fresh == ready.standby_node_id {
                Err(ForceRepinErrorView::NoFreshStandby)
            } else {
                match self.registry@.replicate_addr(fresh) {
                    None => Err(ForceRepinErrorView::NoFreshStandby),
                    Some(fresh_addr) => match self.registry@.pod_cidr(ready.standby_node_id) {
                        None => Err(ForceRepinErrorView::NoFreeAddress),
                        Some(cidr) => match first_free(cidr, ready.standby_node_id, self.used_addresses@) {
                            None => Err(ForceRepinErrorView::NoFreeAddress),
                            Some(address) => Ok(
                                ForceRepinPrepView {
                                    old_node_id: ready.old_node_id,
                                    old_node_last_known_addr: ready.old_node_last_known_addr,
                                    standby_node_id: ready.standby_node_id,
                                    standby_addr: ready.standby_addr,
                                    template: ready.template,
                                    fresh_standby_node_id: fresh,
                                    fresh_standby_addr: fresh_addr,
                                    address,
                                    prefix_len: cidr.prefix_len,
                                    next_generation: (self.placements.count(replica) + 1) as u64,
                                },
                            ),
                        },
                    },
                }
            },
        }
    }

    /// The preparations for moving a replica with a pick of the next standby. The pick matters only
    /// where everything before it went well.
    pub open spec fn repin(&self, replica: Seq<char>, allow_alive_primary: bool, now: u64, pick: Option<usize>) -> Result<
        ForceRepinPrepView,
        ForceRepinErrorView,
    > {
        match self.repin_ready(replica, allow_alive_primary, now) {
            Err(e) => Err(e),
            Ok(ready) => self.repin_with(replica, ready, now, pick),
        }
    }

    /// The result of preparing to move a replica, for some pick that `best` may make.
    pub open spec fn repinned<F: Fn(&Vec<NodeResources>) -> Option<usize>>(
        &self,
        replica: Seq<char>,
        allow_alive_primary: bool,
        now: u64,
        best: F,
        r: Result<ForceRepinPrep, ForceRepinError>,
    ) -> bool {
        match self.repin_ready(replica, allow_alive_primary, now) {
            Err(e) => repin_view(r) == Err::<ForceRepinPrepView, ForceRepinErrorView>(e),
            Ok(ready) => exists|pick: Option<usize>| #[trigger]
                may_pick(best, self.repin_candidates(ready, now), pick) && repin_view(r) == self.repin_with(
                    replica,
                    ready,
                    now,
                    pick,
                ),
        }
    }

    /// An empty control plane, in which a node is dead once it was silent for `dead_after`.
    pub fn new(dead_after: u64) -> (r: Self)
        ensures
            r.wf(),
            r.registry@ == (RegistryView { nodes: Map::empty(), dead_after }),
            r.placements.nodes() == Map::<Seq<char>, Seq<char>>::empty(),
            r.placements.counts() == Map::<Seq<char>, u64>::empty(),
            r.services@ == Map::<Seq<char>, ServiceRecordView>::empty(),
            r.used_addresses@ == Map::<Seq<char>, (Seq<char>, u32)>::empty(),
            r.standbys@ == Map::<Seq<char>, Seq<char>>::empty(),
            r.pending_fences@ == Map::<Seq<char>, Seq<char>>::empty(),
            r.cordoned@ == Set::<Seq<char>>::empty(),
    {
        ControlPlane {
            registry: Registry::new(dead_after),
            placements: Placements::new(),
            services: Services::new(),
            used_addresses: UsedAddresses::new(),
            standbys: Standbys::new(),
            pending_fences: PendingFences::new(),
            cordoned: Cordoned::new(),
        }
    }

    /// Decides which replicas to schedule and which to tear down. `best` says which of some nodes has
    /// the most to spare.
    pub fn reconcile_services<F: Fn(&Vec<NodeResources>) -> Option<usize>>(&self, now: u64, best: &F) -> (r: Vec<
        ReplicaAction,
    >)
        requires
            self.wf(),
            self.placements.countable(),
            can_pick(*best),
        ensures
            self.may_decide(now, *best, views(r@)),
    {
        let nodes = schedulable_nodes(&self.registry, &self.cordoned, now);
        let mut pass = ReconcilePass::begin(
            nodes,
            &self.registry,
            &self.placements,
            &self.services,
            &self.used_addresses,
            now,
        );
        let ghost start = pass@;
        let ghost mut picks: Seq<Option<usize>> = Seq::empty();
        assert(start == self.pass(now));
        loop
            invariant
                self.wf(),
                can_pick(*best),
                pass.wf(),
                start == self.pass(now),
                pass@ == start.run(self.registry@, now, picks),
                forall|k: int|
                    0 <= k < picks.len() ==> may_pick(
                        *best,
                        start.run(self.registry@, now, picks.take(k)).candidates(),
                        #[trigger] picks[k],
                    ),
            ensures
                pass@.done(),
            decreases pass@.left(),
        {
            let asked = pass.candidates();
            match asked {
                None => {
                    break;
                },
                Some(nodes) => {
                    let pick = ask(best, &nodes);
                    let ghost prior = picks;
                    let ghost before_step = pass@;
                    pass.step(&self.registry, now, pick);
                    proof {
                        before_step.lemma_step_left(self.registry@, now, pick);
                        picks = picks.push(pick);
                        assert(picks.drop_last() =~= prior);
                        assert forall|k: int| 0 <= k < picks.len() implies may_pick(
                            *best,
                            start.run(self.registry@, now, picks.take(k)).candidates(),
                            #[trigger] picks[k],
                        ) by {
                            if k < prior.len() {
                                assert(picks.take(k) =~= prior.take(k));
                                assert(prior[k] == picks[k]);
                            } else {
                                assert(picks.take(k) =~= prior);
                            }
                        }
                    }
                },
            }
        }
        let actions = pass.actions();
        assert(self.reconciled(now, *best, picks, views(actions@)));
        actions
    }

    /// The node and address of a placed jail.
    fn locate(&self, jail_name: &str, now: u64) -> (r: Option<Result<(String, String), ResolveError>>)
        requires
            self.wf(),
        ensures
            r is None <==> !self.placements.nodes().dom().contains(jail_name@),
            r matches Some(Ok(found)) ==> self.located(jail_name@, now) == Ok::<
                (Seq<char>, Seq<char>),
                ResolveErrorView,
            >((found.0@, found.1@)),
            r matches Some(Err(e)) ==> self.located(jail_name@, now) == Err::<
                (Seq<char>, Seq<char>),
                ResolveErrorView,
            >(e@),
    {
        match self.placements.get(jail_name) {
            None => None,
            Some(node) => {
                let resolved = self.registry.resolve(node, now);
                assert(resolution(resolved) == self.registry@.resolve(node@, now));
                match resolved {
                    Ok(addr) => Some(Ok((node.to_owned(), addr))),
                    Err(e) => Some(Err(e)),
                }
            },
        }
    }

    /// The node of a jail: the one where it is placed, or else the picked one.
    pub fn resolve_or_schedule_with(&self, jail_name: &str, now: u64, pick: Option<usize>) -> (r: Result<
        (String, String),
        ScheduleOrResolveError,
    >)
        requires
            self.wf(),
        ensures
            self.found(jail_name@, now, pick, r),
    {
        if let Some(found) = self.locate(jail_name, now) {
            return match found {
                Ok(pair) => Ok(pair),
                Err(e) => Err(ScheduleOrResolveError::Resolve(e)),
            };
        }
        let nodes = schedulable_nodes(&self.registry, &self.cordoned, now);
        assert(views(nodes@) == self.schedulable(now));
        match pick {
            Some(i) => if i < nodes.len() {
                assert(views(nodes@)[i as int] == nodes@[i as int]@);
                let id = nodes[i].id.clone();
                let resolved = self.registry.resolve(id.as_str(), now);
                assert(resolution(resolved) == self.registry@.resolve(id@, now));
                match resolved {
                    Ok(addr) => Ok((id, addr)),
                    Err(e) => Err(ScheduleOrResolveError::Resolve(e)),
                }
            } else {
                Err(ScheduleOrResolveError::Schedule(ScheduleError::NoAvailableNodes))
            },
            None => Err(ScheduleOrResolveError::Schedule(ScheduleError::NoAvailableNodes)),
        }
    }

    /// What looking for the node of a jail returns, for a pick among the schedulable nodes. A placed
    /// jail stays where it is.
    pub open spec fn found(
        &self,
        jail: Seq<char>,
        now: u64,
        pick: Option<usize>,
        r: Result<(String, String), ScheduleOrResolveError>,
    ) -> bool {
        if self.placements.nodes().dom().contains(jail) {
            match self.located(jail, now) {
                Ok(pair) => r matches Ok(found) && (found.0@, found.1@) == pair,
                Err(e) => r matches Err(ScheduleOrResolveError::Resolve(given)) && given@ == e,
            }
        } else {
            match picked(self.schedulable(now), pick) {
                None => r matches Err(ScheduleOrResolveError::Schedule(ScheduleError::NoAvailableNodes)),
                Some(node) => match self.registry@.resolve(node, now) {
                    Ok(addr) => r matches Ok(found) && found.0@ == node && found.1@ == addr,
                    Err(e) => r matches Err(ScheduleOrResolveError::Resolve(given)) && given@ == e,
                },
            }
        }
    }

    /// The node of a jail: the one where it is placed, or else the best one.
    pub fn resolve_or_schedule<F: Fn(&Vec<NodeResources>) -> Option<usize>>(
        &self,
        jail_name: &str,
        now: u64,
        best: &F,
    ) -> (r: Result<(String, String), ScheduleOrResolveError>)
        requires
            self.wf(),
            can_pick(*best),
        ensures
            exists|pick: Option<usize>| #[trigger]
                may_pick(*best, self.schedulable(now), pick) && self.found(jail_name@, now, pick, r),
    {
        let nodes = schedulable_nodes(&self.registry, &self.cordoned, now);
        let pick = ask(best, &nodes);
        self.resolve_or_schedule_with(jail_name, now, pick)
    }

    /// The node of a placed jail.
    pub fn resolve_placement(&self, jail_name: String, now: u64) -> (r: Result<(String, String), PlacementError>)
        requires
            self.wf(),
        ensures
            self.placement(jail_name@, now, r),
    {
        match self.locate(jail_name.as_str(), now) {
            None => Err(PlacementError::NotPlaced(jail_name)),
            Some(Ok(pair)) => Ok(pair),
            Some(Err(e)) => Err(PlacementError::Resolve(e)),
        }
    }

    /// What looking up the node of a jail returns.
    pub open spec fn placement(&self, jail: Seq<char>, now: u64, r: Result<(String, String), PlacementError>) -> bool {
        if self.placements.nodes().dom().contains(jail) {
            match self.located(jail, now) {
                Ok(pair) => r matches Ok(found) && (found.0@, found.1@) == pair,
                Err(e) => r matches Err(PlacementError::Resolve(given)) && given@ == e,
            }
        } else {
            r matches Err(PlacementError::NotPlaced(given)) && given@ == jail
        }
    }

    /// Applies a service, unless one of its replicas would have the name of a foreign jail.
    pub fn apply_service(&mut self, name: String, replicas: u32, template: JailTemplate, port: u16, vip: u32) -> (r: Result<
        (),
        ApplyServiceError,
    >)
        requires
            old(self).wf(),
        ensures
            final(self).wf(),
            old(self).service_applied(name@, replicas, template@, port, vip, r, *final(self)),
    {
        let mut i: u32 = 0;
        while i < replicas
            invariant
                *self == *old(self),
                self.wf(),
                i <= replicas,
                forall|j: u32| j < i ==> !#[trigger] conflicts(name@, j, self.placements.nodes(), self.services@),
            decreases replicas - i,
        {
            let candidate = replica_name(name.as_str(), i);
            if let Some(owner) = owner_of(candidate.as_str(), &self.placements, &self.services) {
                let is_self = match &owner {
                    Owner::Service(other) => *other == name,
                    Owner::Unmanaged => false,
                };
                if !is_self {
                    assert(conflicts(name@, i, self.placements.nodes(), self.services@));
                    return Err(ApplyServiceError::NameConflict { name: candidate, owner });
                }
            }
            i = i + 1;
        }
        self.services.apply(name, replicas, template, port, vip)
    }

    /// What applying a service returns and leaves behind. The first replica whose name is taken
    /// decides; otherwise the service itself does.
    pub open spec fn service_applied(
        self,
        name: Seq<char>,
        replicas: u32,
        template: JailTemplateView,
        port: u16,
        vip: u32,
        r: Result<(), ApplyServiceError>,
        after: ControlPlane,
    ) -> bool {
        if exists|i: u32| i < replicas && #[trigger] conflicts(name, i, self.placements.nodes(), self.services@) {
            &&& after == self
            &&& r matches Err(ApplyServiceError::NameConflict { name: taken, owner })
            &&& exists|i: u32|
                {
                    &&& i < replicas
                    &&& #[trigger] conflicts(name, i, self.placements.nodes(), self.services@)
                    &&& forall|j: u32| j < i ==> !#[trigger] conflicts(name, j, self.placements.nodes(), self.services@)
                    &&& taken@ == replica_name_of(name, i)
                    &&& Some(owner@) == owner_of_spec(taken@, self.placements.nodes(), self.services@)
                }
        } else {
            &&& applied(self.services@, name, replicas, template, port, vip, r, after.services@)
            &&& after == (ControlPlane { services: after.services, ..self })
        }
    }

    /// What is known before the next standby is picked, or why the replica cannot be moved.
    fn get_repin_ready(&self, replica_name: &str, allow_alive_primary: bool, now: u64) -> (r: Result<
        RepinReady,
        ForceRepinError,
    >)
        requires
            self.wf(),
        ensures
            match r {
                Ok(ready) => self.repin_ready(replica_name@, allow_alive_primary, now) == Ok::<
                    RepinReadyView,
                    ForceRepinErrorView,
                >(ready@),
                Err(e) => self.repin_ready(replica_name@, allow_alive_primary, now) == Err::<
                    RepinReadyView,
                    ForceRepinErrorView,
                >(e@),
            },
    {
        let old_node_id = match self.placements.get(replica_name) {
            Some(node) => node.to_owned(),
            None => {
                return Err(ForceRepinError::NotPlaced(replica_name.to_owned()));
            },
        };
        // Whether there is a standby is asked before whether the primary is alive: a replica without
        // one is not stateful, however its node stands.
        let standby_node_id = match self.standbys.get(replica_name) {
            Some(node) => node.to_owned(),
            None => {
                return Err(ForceRepinError::NotStateful(replica_name.to_owned()));
            },
        };
        if !allow_alive_primary && self.registry.resolve(old_node_id.as_str(), now).is_ok() {
            return Err(ForceRepinError::PrimaryStillAlive(old_node_id));
        }
        // Asked of the registry whether or not the node is alive: it may be cut off from here only.
        let old_node_last_known_addr = self.registry.last_known_addr(old_node_id.as_str());
        let resolved = self.registry.resolve(standby_node_id.as_str(), now);
        assert(resolution(resolved) == self.registry@.resolve(standby_node_id@, now));
        let standby_addr = match resolved {
            Ok(addr) => addr,
            Err(e) => {
                return Err(ForceRepinError::StandbyUnresolvable(e));
            },
        };
        match owner_of(replica_name, &self.placements, &self.services) {
            Some(Owner::Service(service)) => match self.services.get(service.as_str()) {
                Some(record) => Ok(
                    RepinReady {
                        old_node_id,
                        old_node_last_known_addr,
                        standby_node_id,
                        standby_addr,
                        template: record.template.duplicate(),
                    },
                ),
                None => {
                    proof {
                        self.lemma_owner_is_known(replica_name@);
                    }
                    Err(ForceRepinError::NotStateful(replica_name.to_owned()))
                },
            },
            _ => Err(ForceRepinError::NotStateful(replica_name.to_owned())),
        }
    }

    /// The owner of a jail is a service that there is.
    proof fn lemma_owner_is_known(&self, name: Seq<char>)
        ensures
            owner_of_spec(name, self.placements.nodes(), self.services@) matches Some(OwnerView::Service(s))
                ==> self.services@.dom().contains(s),
    {
    }

    /// The nodes to pick the next standby from.
    fn get_repin_candidates(&self, ready: &RepinReady, now: u64) -> (r: Vec<NodeResources>)
        requires
            self.wf(),
        ensures
            views(r@) == self.repin_candidates(ready@, now),
    {
        let nodes = schedulable_nodes(&self.registry, &self.cordoned, now);
        let mut exclude: StrMap<()> = StrMap::new();
        exclude.insert(ready.old_node_id.clone(), ());
        exclude.insert(ready.standby_node_id.clone(), ());
        assert(exclude.map().dom() =~= set![ready@.old_node_id, ready@.standby_node_id]);
        candidates(&nodes, &exclude)
    }

    /// The preparations with a picked next standby.
    fn finish_repin(&self, replica_name: &str, ready: RepinReady, now: u64, pick: Option<usize>) -> (r: Result<
        ForceRepinPrep,
        ForceRepinError,
    >)
        requires
            self.wf(),
            self.placements.countable(),
        ensures
            repin_view(r) == self.repin_with(replica_name@, ready@, now, pick),
    {
        let ghost view = ready@;
        let nodes = self.get_repin_candidates(&ready, now);
        let fresh_standby_node_id = match pick {
            Some(i) => if i < nodes.len() {
                assert(views(nodes@)[i as int] == nodes@[i as int]@);
                nodes[i].id.clone()
            } else {
                return Err(ForceRepinError::NoFreshStandby);
            },
            None => {
                return Err(ForceRepinError::NoFreshStandby);
            },
        };
        if fresh_standby_node_id == ready.old_node_id || fresh_standby_node_id == ready.standby_node_id {
            return Err(ForceRepinError::NoFreshStandby);
        }
        // The next standby is told where to take in replication, which is not where its API is.

        let fresh_standby_addr = match self.registry.replicate_addr(fresh_standby_node_id.as_str()) {
            Some(addr) => addr,
            None => {
                return Err(ForceRepinError::NoFreshStandby);
            },
        };
        let cidr = match self.registry.pod_cidr(ready.standby_node_id.as_str()) {
            Some(cidr) => cidr,
            None => {
                return Err(ForceRepinError::NoFreeAddress);
            },
        };
        let address = match first_free_address(cidr, ready.standby_node_id.as_str(), &self.used_addresses) {
            Some(address) => address,
            None => {
                return Err(ForceRepinError::NoFreeAddress);
            },
        };
        let next_generation: u64 = self.placements.generation(replica_name) + 1;
        let prep = ForceRepinPrep {
            old_node_id: ready.old_node_id,
            old_node_last_known_addr: ready.old_node_last_known_addr,
            standby_node_id: ready.standby_node_id,
            standby_addr: ready.standby_addr,
            template: ready.template,
            fresh_standby_node_id,
            fresh_standby_addr,
            address,
            prefix_len: cidr.prefix_len,
            next_generation,
        };
        Ok(prep)
    }

    /// Prepares to promote the standby of a replica, with a pick of the next standby. Unless
    /// `allow_alive_primary` is set, a primary whose node is alive is left alone.
    pub fn prepare_repin_with(&self, replica_name: &str, allow_alive_primary: bool, now: u64, pick: Option<usize>) -> (r: Result<
        ForceRepinPrep,
        ForceRepinError,
    >)
        requires
            self.wf(),
            self.placements.countable(),
        ensures
            repin_view(r) == self.repin(replica_name@, allow_alive_primary, now, pick),
    {
        match self.get_repin_ready(replica_name, allow_alive_primary, now) {
            Err(e) => Err(e),
            Ok(ready) => self.finish_repin(replica_name, ready, now, pick),
        }
    }

    /// Prepares to promote the standby of a replica; `best` picks the next standby.
    pub fn prepare_repin<F: Fn(&Vec<NodeResources>) -> Option<usize>>(
        &self,
        replica_name: &str,
        allow_alive_primary: bool,
        now: u64,
        best: &F,
    ) -> (r: Result<ForceRepinPrep, ForceRepinError>)
        requires
            self.wf(),
            self.placements.countable(),
            can_pick(*best),
        ensures
            self.repinned(replica_name@, allow_alive_primary, now, *best, r),
    {
        match self.get_repin_ready(replica_name, allow_alive_primary, now) {
            Err(e) => Err(e),
            Ok(ready) => {
                let nodes = self.get_repin_candidates(&ready, now);
                let pick = ask(best, &nodes);
                let ghost view = ready@;
                let r = self.finish_repin(replica_name, ready, now, pick);
                assert(may_pick(*best, self.repin_candidates(view, now), pick));
                r
            },
        }
    }

    fn list_services(&self) -> (r: Vec<ServiceSummary>)
        ensures
            r@.len() == self.services.listed().len(),
            forall|i: int|
                0 <= i < r@.len() ==> (#[trigger] r@[i])@ == summary_of(
                    self.services.listed()[i].0,
                    self.services.listed()[i].1,
                ),
    {
        let mut out: Vec<ServiceSummary> = Vec::new();
        let mut i: usize = 0;
        while i < self.services.len()
            invariant
                i <= self.services.listed().len(),
                out@.len() == i,
                forall|j: int|
                    0 <= j < i ==> (#[trigger] out@[j])@ == summary_of(
                        self.services.listed()[j].0,
                        self.services.listed()[j].1,
                    ),
            decreases self.services.listed().len() - i,
        {
            let (name, record) = self.services.at(i);
            out.push(
                ServiceSummary {
                    name: name.to_owned(),
                    desired_replicas: record.desired_replicas,
                    vip: address_text(record.vip),
                    port: record.port,
                },
            );
            i = i + 1;
        }
        out
    }

    /// A service with its healthy replicas.
    pub open spec fn proxy_entry(&self, name: Seq<char>, record: ServiceRecordView, now: u64) -> ServiceProxyEntryView {
        ServiceProxyEntryView {
            name,
            vip: dotted(record.vip),
            port: record.port,
            replicas: healthy_of(name, self.placements.placed(), self.registry@, self.used_addresses@, now),
        }
    }

    fn list_proxy_entries(&self, now: u64) -> (r: Vec<ServiceProxyEntry>)
        requires
            self.wf(),
        ensures
            r@.len() == self.services.listed().len(),
            forall|i: int|
                0 <= i < r@.len() ==> (#[trigger] r@[i])@ == self.proxy_entry(
                    self.services.listed()[i].0,
                    self.services.listed()[i].1,
                    now,
                ),
    {
        let mut out: Vec<ServiceProxyEntry> = Vec::new();
        let mut i: usize = 0;
        while i < self.services.len()
            invariant
                self.wf(),
                i <= self.services.listed().len(),
                out@.len() == i,
                forall|j: int|
                    0 <= j < i ==> (#[trigger] out@[j])@ == self.proxy_entry(
                        self.services.listed()[j].0,
                        self.services.listed()[j].1,
                        now,
                    ),
            decreases self.services.listed().len() - i,
        {
            let (name, record) = self.services.at(i);
            out.push(
                ServiceProxyEntry {
                    name: name.to_owned(),
                    vip: address_text(record.vip),
                    port: record.port,
                    replicas: healthy_replicas(name, &self.placements, &self.registry, &self.used_addresses, now),
                },
            );
            i = i + 1;
        }
        out
    }

    /// Cordons a node, or ends that. Refused if no such node has registered.
    fn set_cordoned(&mut self, node_id: String, on: bool) -> (r: Result<(), UnknownNode>)
        requires
            old(self).wf(),
        ensures
            final(self).wf(),
            old(self).cordoned_to(node_id@, on, r, *final(self)),
    {
        if self.registry.pod_cidr(node_id.as_str()).is_some() {
            if on {
                self.cordoned.cordon(node_id);
            } else {
                self.cordoned.uncordon(node_id.as_str());
            }
            Ok(())
        } else {
            Err(UnknownNode(node_id))
        }
    }

    /// What cordoning a node, or ending that, returns and leaves behind.
    pub open spec fn cordoned_to(self, id: Seq<char>, on: bool, r: Result<(), UnknownNode>, after: ControlPlane) -> bool {
        if self.registry@.nodes.dom().contains(id) {
            &&& r is Ok
            &&& after == (ControlPlane { cordoned: after.cordoned, ..self })
            &&& after.cordoned@ == if on {
                self.cordoned@.insert(id)
            } else {
                self.cordoned@.remove(id)
            }
        } else {
            &&& r matches Err(UnknownNode(given))
            &&& given@ == id
            &&& after == self
        }
    }
}

/// What a command answers and leaves behind. `best` decides between nodes, where the command asks it to.
pub open spec fn handled<F: Fn(&Vec<NodeResources>) -> Option<usize>>(
    before: ControlPlane,
    command: Command,
    now: u64,
    best: F,
    after: ControlPlane,
    out: Outcome,
) -> bool {
    match command {
        Command::Register(id, reg) => {
            &&& out.persist is None
            &&& after == (ControlPlane { registry: after.registry, ..before })
            &&& out.reply matches Reply::Registered(r)
            &&& match r {
                Ok(block) => {
                    &&& block == reg.pod_cidr
                    &&& forall|other: Seq<char>| !#[trigger] before.registry@.block_taken(id@, reg.pod_cidr, other)
                    &&& after.registry@ == (RegistryView {
                        nodes: before.registry@.nodes.insert(id@, NodeView::registered(reg, now)),
                        ..before.registry@
                    })
                },
                Err(e) => {
                    &&& e.id@ == id@
                    &&& before.registry@.block_taken(id@, reg.pod_cidr, e.other@)
                    &&& after == before
                },
            }
        },
        Command::Heartbeat(id, report) => {
            &&& out.persist is None
            &&& after == (ControlPlane { registry: after.registry, ..before })
            &&& out.reply matches Reply::Heartbeat(r)
            &&& if before.registry@.nodes.dom().contains(id@) {
                &&& r is Ok
                &&& after.registry@ == (RegistryView {
                    nodes: before.registry@.nodes.insert(id@, before.registry@.nodes[id@].reported(report, now)),
                    ..before.registry@
                })
            } else {
                &&& r matches Err(UnknownNode(given))
                &&& given@ == id@
                &&& after.registry@ == before.registry@
            }
        },
        Command::List => {
            &&& unchanged(before, after, out)
            &&& out.reply matches Reply::Nodes(statuses)
            &&& statuses@.len() == before.registry.members().len()
            &&& forall|i: int|
                0 <= i < statuses@.len() ==> (#[trigger] statuses@[i])@ == before.registry.members()[i].1.status(
                    before.registry.members()[i].0,
                    now,
                    before.registry@.dead_after,
                )
        },
        Command::Resolve(id) => {
            &&& unchanged(before, after, out)
            &&& out.reply matches Reply::Resolved(r)
            &&& resolution(r) == before.registry@.resolve(id@, now)
        },
        Command::ResolveOrSchedule(jail) => {
            &&& unchanged(before, after, out)
            &&& out.reply matches Reply::Scheduled(r)
            &&& exists|pick: Option<usize>| #[trigger]
                may_pick(best, before.schedulable(now), pick) && before.found(jail@, now, pick, r)
        },
        Command::ResolvePlacement(jail) => {
            &&& unchanged(before, after, out)
            &&& out.reply matches Reply::Placement(r)
            &&& before.placement(jail@, now, r)
        },
        Command::RecordPlacement(jail, node) => {
            &&& out.reply is Done
            &&& out.persist == Some(StateFile::Placements)
            &&& after == (ControlPlane { placements: after.placements, ..before })
            &&& after.placements.nodes() == before.placements.nodes().insert(jail@, node@)
            &&& after.placements.counts() == before.placements.counts().insert(
                jail@,
                (before.placements.count(jail@) + 1) as u64,
            )
        },
        Command::RemovePlacement(jail) => {
            &&& out.reply is Done
            &&& out.persist == Some(StateFile::Placements)
            &&& after == (ControlPlane { placements: after.placements, ..before })
            &&& after.placements.nodes() == before.placements.nodes().remove(jail@)
            &&& after.placements.counts() == before.placements.counts()
        },
        Command::OwnerOf(name) => {
            &&& unchanged(before, after, out)
            &&& out.reply matches Reply::Owner(r)
            &&& opt_view(r) == owner_of_spec(name@, before.placements.nodes(), before.services@)
        },
        Command::ApplyService(name, replicas, template, port, vip) => {
            &&& out.reply matches Reply::Applied(r)
            &&& before.service_applied(name@, replicas, template@, port, vip, r, after)
            &&& out.persist == if r is Ok {
                Some(StateFile::Services)
            } else {
                None
            }
        },
        Command::ReconcileServices => {
            &&& unchanged(before, after, out)
            &&& out.reply matches Reply::Actions(actions)
            &&& before.may_decide(now, best, views(actions@))
        },
        Command::DiscoverService(name) => {
            &&& unchanged(before, after, out)
            &&& out.reply matches Reply::Replicas(r)
            &&& if before.services@.dom().contains(name@) {
                &&& r matches Ok(replicas)
                &&& views(replicas@) == healthy_of(
                    name@,
                    before.placements.placed(),
                    before.registry@,
                    before.used_addresses@,
                    now,
                )
            } else {
                r matches Err(UnknownService(given)) && given@ == name@
            }
        },
        Command::ListServices => {
            &&& unchanged(before, after, out)
            &&& out.reply matches Reply::Services(summaries)
            &&& summaries@.len() == before.services.listed().len()
            &&& forall|i: int|
                0 <= i < summaries@.len() ==> (#[trigger] summaries@[i])@ == summary_of(
                    before.services.listed()[i].0,
                    before.services.listed()[i].1,
                )
        },
        Command::ListServiceProxyEntries => {
            &&& unchanged(before, after, out)
            &&& out.reply matches Reply::ProxyEntries(entries)
            &&& entries@.len() == before.services.listed().len()
            &&& forall|i: int|
                0 <= i < entries@.len() ==> (#[trigger] entries@[i])@ == before.proxy_entry(
                    before.services.listed()[i].0,
                    before.services.listed()[i].1,
                    now,
                )
        },
        Command::DeleteService(name) => {
            &&& out.reply matches Reply::Deleted(r)
            &&& if before.services@.dom().contains(name@) {
                &&& r matches Ok(actions)
                &&& views(actions@) == teardowns_of(name@, before.placements.placed(), before.registry@, now)
                &&& after == (ControlPlane { services: after.services, ..before })
                &&& after.services@ == before.services@.remove(name@)
                &&& out.persist == Some(StateFile::Services)
            } else {
                &&& r matches Err(UnknownService(given))
                &&& given@ == name@
                &&& unchanged(before, after, out)
            }
        },
        Command::RecordReplicaAddress(jail, node, address) => {
            &&& out.reply is Done
            &&& out.persist == Some(StateFile::UsedAddresses)
            &&& after == (ControlPlane { used_addresses: after.used_addresses, ..before })
            &&& after.used_addresses@ == before.used_addresses@.insert(jail@, (node@, address))
        },
        Command::ReleaseReplicaAddress(jail) => {
            &&& out.reply is Done
            &&& out.persist == Some(StateFile::UsedAddresses)
            &&& after == (ControlPlane { used_addresses: after.used_addresses, ..before })
            &&& after.used_addresses@ == before.used_addresses@.remove(jail@)
        },
        Command::RecordStandby(replica, node) => {
            &&& out.reply is Done
            &&& out.persist == Some(StateFile::Standbys)
            &&& after == (ControlPlane { standbys: after.standbys, ..before })
            &&& after.standbys@ == before.standbys@.insert(replica@, node@)
        },
        Command::RemoveStandby(replica) => {
            &&& out.reply is Done
            &&& out.persist == Some(StateFile::Standbys)
            &&& after == (ControlPlane { standbys: after.standbys, ..before })
            &&& after.standbys@ == before.standbys@.remove(replica@)
        },
        Command::RecordPendingFence(replica, node) => {
            &&& out.reply is Done
            &&& out.persist == Some(StateFile::PendingFences)
            &&& after == (ControlPlane { pending_fences: after.pending_fences, ..before })
            &&& after.pending_fences@ == before.pending_fences@.insert(replica@, node@)
        },
        Command::PendingFencesForNode(node) => {
            &&& unchanged(before, after, out)
            &&& out.reply matches Reply::PendingFences(names)
            &&& views(names@) == names_on(before.pending_fences.pending(), node@)
        },
        Command::RemovePendingFence(replica) => {
            &&& out.reply is Done
            &&& out.persist == Some(StateFile::PendingFences)
            &&& after == (ControlPlane { pending_fences: after.pending_fences, ..before })
            &&& after.pending_fences@ == before.pending_fences@.remove(replica@)
        },
        Command::PrepareForceRepin(replica) => {
            &&& unchanged(before, after, out)
            &&& out.reply matches Reply::Repin(r)
            &&& before.repinned(replica@, false, now, best, r)
        },
        Command::PrepareDrainRepin(replica) => {
            &&& unchanged(before, after, out)
            &&& out.reply matches Reply::Repin(r)
            &&& before.repinned(replica@, true, now, best, r)
        },
        Command::Cordon(id) => {
            &&& out.reply matches Reply::Cordon(r)
            &&& before.cordoned_to(id@, true, r, after)
            &&& out.persist == if r is Ok {
                Some(StateFile::Cordoned)
            } else {
                None
            }
        },
        Command::Uncordon(id) => {
            &&& out.reply matches Reply::Cordon(r)
            &&& before.cordoned_to(id@, false, r, after)
            &&& out.persist == if r is Ok {
                Some(StateFile::Cordoned)
            } else {
                None
            }
        },
    }
}

/// Nothing was changed, and nothing has to be written down.
pub open spec fn unchanged(before: ControlPlane, after: ControlPlane, out: Outcome) -> bool {
    after == before && out.persist is None
}

fn answer(reply: Reply) -> (r: Outcome)
    ensures
        r.reply == reply,
        r.persist is None,
{
    Outcome { reply, persist: None }
}

fn recorded(file: StateFile) -> (r: Outcome)
    ensures
        r.reply is Done,
        r.persist == Some(file),
{
    Outcome { reply: Reply::Done, persist: Some(file) }
}

/// Carries out a command. `best` says which of some nodes has the most to spare.
pub fn handle_command<F: Fn(&Vec<NodeResources>) -> Option<usize>>(
    state: &mut ControlPlane,
    command: Command,
    now: u64,
    best: &F,
) -> (out: Outcome)
    requires
        old(state).wf(),
        old(state).placements.countable(),
        can_pick(*best),
    ensures
        final(state).wf(),
        handled(*old(state), command, now, *best, *final(state), out),
{
    match command {
        Command::Register(id, reg) => answer(Reply::Registered(state.registry.register(id, reg, now))),
        Command::Heartbeat(id, report) => answer(
            Reply::Heartbeat(state.registry.heartbeat(id.as_str(), report, now)),
        ),
        Command::List => answer(Reply::Nodes(state.registry.list(now))),
        Command::Resolve(id) => answer(Reply::Resolved(state.registry.resolve(id.as_str(), now))),
        Command::ResolveOrSchedule(jail_name) => answer(
            Reply::Scheduled(state.resolve_or_schedule(jail_name.as_str(), now, best)),
        ),
        Command::ResolvePlacement(jail_name) => answer(Reply::Placement(state.resolve_placement(jail_name, now))),
        Command::RecordPlacement(jail_name, node_id) => {
            state.placements.set(jail_name, node_id);
            recorded(StateFile::Placements)
        },
        Command::RemovePlacement(jail_name) => {
            state.placements.remove(jail_name.as_str());
            recorded(StateFile::Placements)
        },
        Command::OwnerOf(name) => answer(Reply::Owner(owner_of(name.as_str(), &state.placements, &state.services))),
        Command::ApplyService(name, replicas, template, port, vip) => {
            let result = state.apply_service(name, replicas, template, port, vip);
            let persist = if result.is_ok() {
                Some(StateFile::Services)
            } else {
                None
            };
            Outcome { reply: Reply::Applied(result), persist }
        },
        Command::ReconcileServices => answer(Reply::Actions(state.reconcile_services(now, best))),
        Command::DiscoverService(name) => if state.services.get(name.as_str()).is_none() {
            answer(Reply::Replicas(Err(UnknownService(name))))
        } else {
            answer(
                Reply::Replicas(
                    Ok(
                        healthy_replicas(
                            name.as_str(),
                            &state.placements,
                            &state.registry,
                            &state.used_addresses,
                            now,
                        ),
                    ),
                ),
            )
        },
        Command::ListServices => answer(Reply::Services(state.list_services())),
        Command::ListServiceProxyEntries => answer(Reply::ProxyEntries(state.list_proxy_entries(now))),
        Command::DeleteService(name) => if state.services.get(name.as_str()).is_none() {
            answer(Reply::Deleted(Err(UnknownService(name))))
        } else {
            let actions = teardowns(name.as_str(), &state.placements, &state.registry, now);
            state.services.remove(name.as_str());
            Outcome { reply: Reply::Deleted(Ok(actions)), persist: Some(StateFile::Services) }
        },
        Command::RecordReplicaAddress(jail_name, node_id, address) => {
            state.used_addresses.record(jail_name, node_id, address);
            recorded(StateFile::UsedAddresses)
        },
        Command::ReleaseReplicaAddress(jail_name) => {
            state.used_addresses.release(jail_name.as_str());
            recorded(StateFile::UsedAddresses)
        },
        Command::RecordStandby(replica_name, node_id) => {
            state.standbys.set(replica_name, node_id);
            recorded(StateFile::Standbys)
        },
        Command::RemoveStandby(replica_name) => {
            state.standbys.remove(replica_name.as_str());
            recorded(StateFile::Standbys)
        },
        Command::RecordPendingFence(replica_name, node_id) => {
            state.pending_fences.set(replica_name, node_id);
            recorded(StateFile::PendingFences)
        },
        Command::PendingFencesForNode(node_id) => answer(
            Reply::PendingFences(state.pending_fences.for_node(node_id.as_str())),
        ),
        Command::RemovePendingFence(replica_name) => {
            state.pending_fences.remove(replica_name.as_str());
            recorded(StateFile::PendingFences)
        },
        Command::PrepareForceRepin(replica_name) => answer(
            Reply::Repin(state.prepare_repin(replica_name.as_str(), false, now, best)),
        ),
        Command::PrepareDrainRepin(replica_name) => answer(
            Reply::Repin(state.prepare_repin(replica_name.as_str(), true, now, best)),
        ),
        Command::Cordon(node_id) => {
            let result = state.set_cordoned(node_id, true);
            let persist = if result.is_ok() {
                Some(StateFile::Cordoned)
            } else {
                None
            };
            Outcome { reply: Reply::Cordon(result), persist }
        },
        Command::Uncordon(node_id) => {
            let result = state.set_cordoned(node_id, false);
            let persist = if result.is_ok() {
                Some(StateFile::Cordoned)
            } else {
                None
            };
            Outcome { reply: Reply::Cordon(result), persist }
        },
    }
}

} // verus!
