//! One pass over the services: which replicas to put where, and which to tear down.
//!
//! A pass picks nodes one after the other. Which candidate is best is decided outside, from what the
//! candidates have left; the pass takes the pick and goes on from there.

use crate::controlplane::addresses::{first_free, first_free_address, UsedAddresses};
use crate::controlplane::placements::Placements;
use crate::controlplane::registry::{resolution, Registry, RegistryView};
use crate::controlplane::scheduler::{
    candidates, candidates_of, charge, nodes_charged, picked, NodeResources, NodeResourcesView,
};
use crate::controlplane::services::{
    diff_replicas, hosts_of, index_set, missing, nodes_hosting_service, replica_index, replica_index_of, replica_name,
    replica_name_of, to_remove_of, ServiceRecord, ServiceRecordView, Services,
};
use crate::jail::{JailTemplate, JailTemplateView};
use crate::strmap::StrMap;
use crate::text::same;
use crate::views::{opt_view, views, Duplicate};
use vstd::prelude::*;

verus! {

/// What is to be done about a replica.
#[derive(Debug, Clone, PartialEq, Eq)]
pub enum ReplicaAction {
    Schedule {
        replica_name: String,
        node_id: String,
        node_addr: String,
        template: JailTemplate,
        address: u32,
        prefix_len: u8,
        standby_node_id: Option<String>,
        standby_addr: Option<String>,
        generation: u64,
    },
    TearDown { replica_name: String, node_id: String, node_addr: String },
}

/// What a [`ReplicaAction`] holds.
#[verifier::ext_equal]
pub enum ReplicaActionView {
    Schedule {
        replica_name: Seq<char>,
        node_id: Seq<char>,
        node_addr: Seq<char>,
        template: JailTemplateView,
        address: u32,
        prefix_len: u8,
        standby_node_id: Option<Seq<char>>,
        standby_addr: Option<Seq<char>>,
        generation: u64,
    },
    TearDown { replica_name: Seq<char>, node_id: Seq<char>, node_addr: Seq<char> },
}

impl View for ReplicaAction {
    type V = ReplicaActionView;

    open spec fn view(&self) -> ReplicaActionView {
        match self {
            ReplicaAction::Schedule {
                replica_name,
                node_id,
                node_addr,
                template,
                address,
                prefix_len,
                standby_node_id,
                standby_addr,
                generation,
            } => ReplicaActionView::Schedule {
                replica_name: replica_name@,
                node_id: node_id@,
                node_addr: node_addr@,
                template: template@,
                address: *address,
                prefix_len: *prefix_len,
                standby_node_id: opt_view(*standby_node_id),
                standby_addr: opt_view(*standby_addr),
                generation: *generation,
            },
            ReplicaAction::TearDown { replica_name, node_id, node_addr } => ReplicaActionView::TearDown {
                replica_name: replica_name@,
                node_id: node_id@,
                node_addr: node_addr@,
            },
        }
    }
}

/// A step of a pass that is known before any node is picked.
pub enum Job {
    /// The replicas of another service follow; these nodes already have some of them.
    Begin { service: String, hosts: StrMap<()> },
    /// A replica is missing.
    Place { replica_name: String, template: JailTemplate, generation: u64 },
    /// A replica is one too many.
    Remove { replica_name: String, node_id: String, node_addr: String },
}

/// What a [`Job`] holds.
#[verifier::ext_equal]
pub enum JobView {
    Begin { service: Seq<char>, hosts: Set<Seq<char>> },
    Place { replica_name: Seq<char>, template: JailTemplateView, generation: u64 },
    Remove { replica_name: Seq<char>, node_id: Seq<char>, node_addr: Seq<char> },
}

impl View for Job {
    type V = JobView;

    open spec fn view(&self) -> JobView {
        match self {
            Job::Begin { service, hosts } => JobView::Begin { service: service@, hosts: hosts.map().dom() },
            Job::Place { replica_name, template, generation } => JobView::Place {
                replica_name: replica_name@,
                template: template@,
                generation: *generation,
            },
            Job::Remove { replica_name, node_id, node_addr } => JobView::Remove {
                replica_name: replica_name@,
                node_id: node_id@,
                node_addr: node_addr@,
            },
        }
    }
}

impl Job {
    pub open spec fn wf(&self) -> bool {
        self matches Job::Begin { hosts, .. } ==> hosts.wf()
    }
}

/// A replica that has a node and an address, and no standby yet.
pub struct Placed {
    replica_name: String,
    node_id: String,
    node_addr: String,
    template: JailTemplate,
    address: u32,
    prefix_len: u8,
    generation: u64,
}

/// What a [`Placed`] holds.
#[verifier::ext_equal]
pub struct PlacedView {
    pub replica_name: Seq<char>,
    pub node_id: Seq<char>,
    pub node_addr: Seq<char>,
    pub template: JailTemplateView,
    pub address: u32,
    pub prefix_len: u8,
    pub generation: u64,
}

impl View for Placed {
    type V = PlacedView;

    closed spec fn view(&self) -> PlacedView {
        PlacedView {
            replica_name: self.replica_name@,
            node_id: self.node_id@,
            node_addr: self.node_addr@,
            template: self.template@,
            address: self.address,
            prefix_len: self.prefix_len,
            generation: self.generation,
        }
    }
}

impl PlacedView {
    /// The action that creates the replica.
    pub open spec fn scheduled(self, standby: Option<(Seq<char>, Seq<char>)>) -> ReplicaActionView {
        ReplicaActionView::Schedule {
            replica_name: self.replica_name,
            node_id: self.node_id,
            node_addr: self.node_addr,
            template: self.template,
            address: self.address,
            prefix_len: self.prefix_len,
            standby_node_id: match standby {
                Some(s) => Some(s.0),
                None => None,
            },
            standby_addr: match standby {
                Some(s) => Some(s.1),
                None => None,
            },
            generation: self.generation,
        }
    }
}

/// Which replicas of a service count as present. A replica of a stateless service does while its node
/// is alive; one with volumes does wherever its node stands, since it is pinned to that node.
pub open spec fn present_of(
    service: Seq<char>,
    stateful: bool,
    placed: Seq<(Seq<char>, Seq<char>)>,
    registry: RegistryView,
    now: u64,
) -> Set<u32>
    decreases placed.len(),
{
    if placed.len() == 0 {
        Set::empty()
    } else {
        let prior = present_of(service, stateful, placed.drop_last(), registry, now);
        match replica_index_of(service, placed.last().0) {
            Some(i) => if stateful || registry.resolve(placed.last().1, now) is Ok {
                prior.insert(i)
            } else {
                prior
            },
            None => prior,
        }
    }
}

/// What an optional pair of texts holds.
pub open spec fn pair_view(o: Option<(String, String)>) -> Option<(Seq<char>, Seq<char>)> {
    match o {
        Some(p) => Some((p.0@, p.1@)),
        None => None,
    }
}

/// What a pass reads of the control plane.
pub struct Cluster {
    pub registry: RegistryView,
    pub now: u64,
    pub placed: Seq<(Seq<char>, Seq<char>)>,
    pub nodes: Map<Seq<char>, Seq<char>>,
    pub counts: Map<Seq<char>, u64>,
}

/// What a pass reads of a registry and a table of placements.
pub open spec fn cluster_of(registry: &Registry, placements: &Placements, now: u64) -> Cluster {
    Cluster {
        registry: registry@,
        now,
        placed: placements.placed(),
        nodes: placements.nodes(),
        counts: placements.counts(),
    }
}

impl Cluster {
    /// The generation that the next placement of a name gets.
    pub open spec fn next_generation(self, name: Seq<char>) -> u64 {
        if self.counts.dom().contains(name) {
            (self.counts[name] + 1) as u64
        } else {
            1
        }
    }

    /// The missing replicas of a service, lowest first.
    pub open spec fn places(self, service: Seq<char>, template: JailTemplateView, to_add: Seq<u32>) -> Seq<JobView> {
        Seq::new(
            to_add.len(),
            |k: int|
                JobView::Place {
                    replica_name: replica_name_of(service, to_add[k]),
                    template,
                    generation: self.next_generation(replica_name_of(service, to_add[k])),
                },
        )
    }

    /// The surplus replicas of a service whose nodes can be told, highest first.
    pub open spec fn removals(self, service: Seq<char>, to_remove: Seq<u32>) -> Seq<JobView>
        decreases to_remove.len(),
    {
        if to_remove.len() == 0 {
            Seq::empty()
        } else {
            let prior = self.removals(service, to_remove.drop_last());
            let name = replica_name_of(service, to_remove.last());
            if self.nodes.dom().contains(name) && self.registry.resolve(self.nodes[name], self.now) is Ok {
                prior.push(
                    JobView::Remove {
                        replica_name: name,
                        node_id: self.nodes[name],
                        node_addr: self.registry.resolve(self.nodes[name], self.now)->Ok_0,
                    },
                )
            } else {
                prior
            }
        }
    }

    /// Which replicas of a service count as present.
    pub open spec fn present(self, service: Seq<char>, record: ServiceRecordView) -> Set<u32> {
        present_of(service, record.template.volumes.len() > 0, self.placed, self.registry, self.now)
    }

    /// What a service needs.
    pub open spec fn jobs_of(self, service: Seq<char>, record: ServiceRecordView) -> Seq<JobView> {
        let present = self.present(service, record);
        seq![JobView::Begin { service, hosts: hosts_of(service, self.placed) }] + self.places(
            service,
            record.template,
            missing(present, record.desired_replicas as nat),
        ) + self.removals(service, to_remove_of(present, record.desired_replicas))
    }

    /// What all services need, in the order of the list.
    pub open spec fn jobs(self, services: Seq<(Seq<char>, ServiceRecordView)>) -> Seq<JobView>
        decreases services.len(),
    {
        if services.len() == 0 {
            Seq::empty()
        } else {
            self.jobs(services.drop_last()) + self.jobs_of(services.last().0, services.last().1)
        }
    }
}

/// A pass on its way.
pub struct ReconcilePass {
    /// The nodes that take new replicas, with what this pass has put on them.
    nodes: Vec<NodeResources>,
    /// The addresses that are taken, with those that this pass has given out.
    used: UsedAddresses,
    /// The current service.
    service: Option<String>,
    /// The nodes that have a replica of the current service.
    busy: StrMap<()>,
    jobs: Vec<Job>,
    next: usize,
    /// The stateful replica that waits for a standby.
    pending: Option<Placed>,
    actions: Vec<ReplicaAction>,
}

/// What a [`ReconcilePass`] holds.
#[verifier::ext_equal]
pub struct PassView {
    pub nodes: Seq<NodeResourcesView>,
    pub used: Map<Seq<char>, (Seq<char>, u32)>,
    pub service: Option<Seq<char>>,
    pub busy: Set<Seq<char>>,
    /// What is still to be done.
    pub jobs: Seq<JobView>,
    pub pending: Option<PlacedView>,
    pub actions: Seq<ReplicaActionView>,
}

impl PassView {
    /// The pass with one job less.
    pub open spec fn popped(self) -> PassView {
        PassView { jobs: self.jobs.skip(1), ..self }
    }

    /// The pass after everything that needs no pick.
    pub open spec fn settled(self) -> PassView
        decreases self.jobs.len(),
    {
        if self.pending is Some || self.jobs.len() == 0 {
            self
        } else {
            match self.jobs[0] {
                JobView::Begin { service, hosts } => (PassView {
                    service: Some(service),
                    busy: hosts,
                    ..self.popped()
                }).settled(),
                JobView::Remove { replica_name, node_id, node_addr } => (PassView {
                    actions: self.actions.push(ReplicaActionView::TearDown { replica_name, node_id, node_addr }),
                    ..self.popped()
                }).settled(),
                JobView::Place { .. } => self,
            }
        }
    }

    /// Nothing is left to do.
    pub open spec fn done(self) -> bool {
        self.pending is None && self.jobs.len() == 0
    }

    /// The nodes to pick from.
    pub open spec fn candidates(self) -> Seq<NodeResourcesView> {
        candidates_of(self.nodes, self.busy)
    }

    /// Where a missing replica goes on a node: the node's block and address, and the replica's address.
    pub open spec fn spot(self, registry: RegistryView, now: u64, node: Seq<char>) -> Option<(u8, Seq<char>, u32)> {
        match registry.pod_cidr(node) {
            None => None,
            Some(cidr) => match first_free(cidr, node, self.used) {
                None => None,
                Some(address) => match registry.resolve(node, now) {
                    Err(_) => None,
                    Ok(addr) => Some((cidr.prefix_len, addr, address)),
                },
            },
        }
    }

    /// The pass after a node was picked for a missing replica. Without a node that can be reached and
    /// has a free address, the replica stays missing.
    pub open spec fn placing(
        self,
        replica_name: Seq<char>,
        template: JailTemplateView,
        generation: u64,
        registry: RegistryView,
        now: u64,
        pick: Option<usize>,
    ) -> PassView {
        match picked(self.candidates(), pick) {
            None => self,
            Some(node) => match self.spot(registry, now, node) {
                None => self,
                Some((prefix_len, node_addr, address)) => {
                    let placed = PlacedView {
                        replica_name,
                        node_id: node,
                        node_addr,
                        template,
                        address,
                        prefix_len,
                        generation,
                    };
                    let after = PassView {
                        nodes: nodes_charged(self.nodes, node, template.resources),
                        used: self.used.insert(replica_name, (node, address)),
                        busy: self.busy.insert(node),
                        ..self
                    };
                    if template.volumes.len() == 0 {
                        PassView { actions: after.actions.push(placed.scheduled(None)), ..after }
                    } else {
                        PassView { pending: Some(placed), ..after }
                    }
                },
            },
        }
    }

    /// The standby of a stateful replica: another node than its own, which takes in replication.
    pub open spec fn standby(self, registry: RegistryView, node: Seq<char>, pick: Option<usize>) -> Option<
        (Seq<char>, Seq<char>),
    > {
        match picked(self.candidates(), pick) {
            None => None,
            Some(id) => if id == node {
                None
            } else {
                match registry.replicate_addr(id) {
                    None => None,
                    Some(addr) => Some((id, addr)),
                }
            },
        }
    }

    /// The pass after a pick.
    pub open spec fn step(self, registry: RegistryView, now: u64, pick: Option<usize>) -> PassView {
        match self.pending {
            Some(placed) => (PassView {
                pending: None,
                actions: self.actions.push(placed.scheduled(self.standby(registry, placed.node_id, pick))),
                ..self
            }).settled(),
            None => if self.jobs.len() == 0 {
                self
            } else {
                match self.jobs[0] {
                    JobView::Place { replica_name, template, generation } => self.popped().placing(
                        replica_name,
                        template,
                        generation,
                        registry,
                        now,
                        pick,
                    ).settled(),
                    _ => self.settled(),
                }
            },
        }
    }

    /// The pass after some picks.
    pub open spec fn run(self, registry: RegistryView, now: u64, picks: Seq<Option<usize>>) -> PassView
        decreases picks.len(),
    {
        if picks.len() == 0 {
            self
        } else {
            self.run(registry, now, picks.drop_last()).step(registry, now, picks.last())
        }
    }

    /// A bound on the picks that are still to be made.
    pub open spec fn left(self) -> int {
        2 * self.jobs.len() + if self.pending is Some {
            1int
        } else {
            0int
        }
    }

    pub proof fn lemma_settled_left(self)
        ensures
            self.settled().pending == self.pending,
            self.settled().jobs.len() <= self.jobs.len(),
            self.pending is None && self.jobs.len() > 0 && !(self.jobs[0] is Place) ==> self.settled().jobs.len()
                < self.jobs.len(),
        decreases self.jobs.len(),
    {
        if self.pending is None && self.jobs.len() > 0 {
            match self.jobs[0] {
                JobView::Begin { service, hosts } => {
                    (PassView { service: Some(service), busy: hosts, ..self.popped() }).lemma_settled_left();
                },
                JobView::Remove { replica_name, node_id, node_addr } => {
                    (PassView {
                        actions: self.actions.push(ReplicaActionView::TearDown { replica_name, node_id, node_addr }),
                        ..self.popped()
                    }).lemma_settled_left();
                },
                JobView::Place { .. } => {},
            }
        }
    }

    /// Every pick brings a pass nearer to its end.
    pub proof fn lemma_step_left(self, registry: RegistryView, now: u64, pick: Option<usize>)
        requires
            !self.done(),
        ensures
            self.step(registry, now, pick).left() < self.left(),
    {
        match self.pending {
            Some(placed) => {
                (PassView {
                    pending: None,
                    actions: self.actions.push(placed.scheduled(self.standby(registry, placed.node_id, pick))),
                    ..self
                }).lemma_settled_left();
            },
            None => {
                match self.jobs[0] {
                    JobView::Place { replica_name, template, generation } => {
                        self.popped().placing(replica_name, template, generation, registry, now, pick).lemma_settled_left();
                    },
                    _ => {
                        self.lemma_settled_left();
                    },
                }
            },
        }
    }

    /// A pass before its first pick.
    pub open spec fn start(
        nodes: Seq<NodeResourcesView>,
        used: Map<Seq<char>, (Seq<char>, u32)>,
        jobs: Seq<JobView>,
    ) -> PassView {
        (PassView {
            nodes,
            used,
            service: None,
            busy: Set::empty(),
            jobs,
            pending: None,
            actions: Seq::empty(),
        }).settled()
    }
}

impl View for ReconcilePass {
    type V = PassView;

    closed spec fn view(&self) -> PassView {
        PassView {
            nodes: views(self.nodes@),
            used: self.used@,
            service: opt_view(self.service),
            busy: self.busy.map().dom(),
            jobs: views(self.jobs@).skip(self.next as int),
            pending: opt_view(self.pending),
            actions: views(self.actions@),
        }
    }
}

/// The placed replicas of a service that count as present.
fn present_indices(service: &str, stateful: bool, placements: &Placements, registry: &Registry, now: u64) -> (r: Vec<
    u32,
>)
    requires
        registry.wf(),
    ensures
        index_set(r@) == present_of(service@, stateful, placements.placed(), registry@, now),
{
    let mut out: Vec<u32> = Vec::new();
    let ghost placed = placements.placed();
    let mut i: usize = 0;
    assert(placed.take(0) =~= Seq::empty());
    assert(index_set(out@) =~= Set::empty());
    while i < placements.len()
        invariant
            registry.wf(),
            placed == placements.placed(),
            i <= placed.len(),
            index_set(out@) == present_of(service@, stateful, placed.take(i as int), registry@, now),
        decreases placed.len() - i,
    {
        assert(placed.take(i + 1).drop_last() =~= placed.take(i as int));
        let (jail, node) = placements.at(i);
        if let Some(index) = replica_index(service, jail) {
            if stateful || registry.resolve(node, now).is_ok() {
                let ghost before_push = out@;
                out.push(index);
                assert forall|x: u32| #[trigger] index_set(out@).contains(x) <==> index_set(before_push).insert(
                    index,
                ).contains(x) by {
                    if before_push.contains(x) {
                        let k = choose|k: int| 0 <= k < before_push.len() && before_push[k] == x;
                        assert(out@[k] == x);
                    }
                    assert(out@[before_push.len() as int] == index);
                    if out@.contains(x) && x != index {
                        let k = choose|k: int| 0 <= k < out@.len() && out@[k] == x;
                        assert(before_push[k] == x);
                    }
                }
                assert(index_set(out@) =~= index_set(before_push).insert(index));
            }
        }
        i = i + 1;
    }
    assert(placed.take(i as int) =~= placed);
    out
}

/// Appends what a service needs.
fn push_jobs(
    jobs: &mut Vec<Job>,
    service: &str,
    record: &ServiceRecord,
    placements: &Placements,
    registry: &Registry,
    now: u64,
)
    requires
        registry.wf(),
        placements.wf(),
        placements.countable(),
        forall|i: int| 0 <= i < old(jobs)@.len() ==> (#[trigger] old(jobs)@[i]).wf(),
    ensures
        forall|i: int| 0 <= i < final(jobs)@.len() ==> (#[trigger] final(jobs)@[i]).wf(),
        views(final(jobs)@) == views(old(jobs)@) + cluster_of(registry, placements, now).jobs_of(service@, record@),
{
    let ghost cluster = cluster_of(registry, placements, now);
    let ghost base = views(jobs@);
    let stateful = record.template.volumes.len() > 0;
    let present = present_indices(service, stateful, placements, registry, now);
    let (to_add, to_remove) = diff_replicas(record.desired_replicas, &present);
    let hosts = nodes_hosting_service(service, placements);
    let ghost begin = seq![JobView::Begin { service: service@, hosts: hosts_of(service@, placements.placed()) }];
    jobs.push(Job::Begin { service: service.to_owned(), hosts });
    assert(views(jobs@) =~= base + begin);
    let ghost places = cluster.places(service@, record.template@, to_add@);
    let mut k: usize = 0;
    assert(places.take(0) =~= Seq::empty());
    while k < to_add.len()
        invariant
            placements.wf(),
            placements.countable(),
            cluster == cluster_of(registry, placements, now),
            places == cluster.places(service@, record.template@, to_add@),
            k <= to_add@.len(),
            forall|i: int| 0 <= i < jobs@.len() ==> (#[trigger] jobs@[i]).wf(),
            views(jobs@) == base + begin + places.take(k as int),
        decreases to_add.len() - k,
    {
        let ghost before_push = jobs@;
        let name = replica_name(service, to_add[k]);
        let generation: u64 = placements.generation(name.as_str()) + 1;
        let job = Job::Place { replica_name: name, template: record.template.duplicate(), generation };
        let ghost added = job@;
        assert(added =~= places[k as int]);
        jobs.push(job);
        k = k + 1;
        assert(views(jobs@) =~= views(before_push).push(added));
        assert(places.take(k as int) =~= places.take(k - 1).push(added));
        assert(views(jobs@) =~= base + begin + places.take(k as int));
    }
    assert(places.take(k as int) =~= places);
    let ghost with_places = base + begin + places;
    let mut m: usize = 0;
    assert(to_remove@.take(0) =~= Seq::empty());
    assert(views(jobs@) =~= with_places + cluster.removals(service@, to_remove@.take(0)));
    while m < to_remove.len()
        invariant
            registry.wf(),
            placements.wf(),
            cluster == cluster_of(registry, placements, now),
            m <= to_remove@.len(),
            forall|i: int| 0 <= i < jobs@.len() ==> (#[trigger] jobs@[i]).wf(),
            views(jobs@) == with_places + cluster.removals(service@, to_remove@.take(m as int)),
        decreases to_remove.len() - m,
    {
        let ghost before_push = jobs@;
        assert(to_remove@.take(m + 1).drop_last() =~= to_remove@.take(m as int));
        let name = replica_name(service, to_remove[m]);
        m = m + 1;
        if let Some(node) = placements.get(name.as_str()) {
            if let Ok(addr) = registry.resolve(node, now) {
                assert(resolution(Ok(addr)) == registry@.resolve(node@, now));
                let job = Job::Remove { replica_name: name, node_id: node.to_owned(), node_addr: addr };
                let ghost added = job@;
                jobs.push(job);
                assert(views(jobs@) =~= views(before_push).push(added));
                assert(views(jobs@) =~= with_places + cluster.removals(service@, to_remove@.take(m as int)));
            }
        }
    }
    assert(to_remove@.take(m as int) =~= to_remove@);
    assert(views(jobs@) =~= base + cluster.jobs_of(service@, record@));
}

impl ReconcilePass {
    pub closed spec fn wf(&self) -> bool {
        &&& self.used.wf()
        &&& self.busy.wf()
        &&& self.next <= self.jobs@.len()
        &&& forall|i: int| 0 <= i < self.jobs@.len() ==> (#[trigger] self.jobs@[i]).wf()
    }

    /// Begins a pass over the services.
    pub fn begin(
        nodes: Vec<NodeResources>,
        registry: &Registry,
        placements: &Placements,
        services: &Services,
        used: &UsedAddresses,
        now: u64,
    ) -> (r: Self)
        requires
            registry.wf(),
            placements.wf(),
            placements.countable(),
            services.wf(),
            used.wf(),
        ensures
            r.wf(),
            r@ == PassView::start(
                views(nodes@),
                used@,
                cluster_of(registry, placements, now).jobs(services.listed()),
            ),
    {
        let ghost cluster = cluster_of(registry, placements, now);
        let ghost listed = services.listed();
        let mut jobs: Vec<Job> = Vec::new();
        let mut i: usize = 0;
        assert(listed.take(0) =~= Seq::empty());
        assert(views(jobs@) =~= cluster.jobs(listed.take(0)));
        while i < services.len()
            invariant
                registry.wf(),
                placements.wf(),
                placements.countable(),
                cluster == cluster_of(registry, placements, now),
                listed == services.listed(),
                i <= listed.len(),
                forall|j: int| 0 <= j < jobs@.len() ==> (#[trigger] jobs@[j]).wf(),
                views(jobs@) == cluster.jobs(listed.take(i as int)),
            decreases listed.len() - i,
        {
            assert(listed.take(i + 1).drop_last() =~= listed.take(i as int));
            let (service, record) = services.at(i);
            push_jobs(&mut jobs, service, record, placements, registry, now);
            i = i + 1;
        }
        assert(listed.take(i as int) =~= listed);
        let mut pass = ReconcilePass {
            nodes,
            used: used.duplicate(),
            service: None,
            busy: StrMap::new(),
            jobs,
            next: 0,
            pending: None,
            actions: Vec::new(),
        };
        assert(pass@.jobs =~= cluster.jobs(listed));
        assert(pass@.busy =~= Set::empty());
        assert(pass@.actions =~= Seq::empty());
        pass.settle();
        pass
    }

    /// Does everything that needs no pick.
    fn settle(&mut self)
        requires
            old(self).wf(),
        ensures
            final(self).wf(),
            final(self)@ == old(self)@.settled(),
    {
        loop
            invariant
                self.wf(),
                self@.settled() == old(self)@.settled(),
            ensures
                self@ == old(self)@.settled(),
                self.wf(),
            decreases self.jobs@.len() - self.next,
        {
            if self.pending.is_some() || self.next >= self.jobs.len() {
                assert(self@.settled() == self@);
                break;
            }
            let ghost before_job = self@;
            assert(before_job.jobs[0] == self.jobs@[self.next as int]@);
            match &self.jobs[self.next] {
                Job::Place { .. } => {
                    break;
                },
                Job::Begin { service, hosts } => {
                    let name = service.clone();
                    let copied = copy_set(hosts);
                    self.service = Some(name);
                    self.busy = copied;
                    self.next = self.next + 1;
                    assert(self@ =~= (PassView {
                        service: Some(before_job.jobs[0]->service),
                        busy: before_job.jobs[0]->hosts,
                        ..before_job.popped()
                    }));
                },
                Job::Remove { replica_name, node_id, node_addr } => {
                    let action = ReplicaAction::TearDown {
                        replica_name: replica_name.clone(),
                        node_id: node_id.clone(),
                        node_addr: node_addr.clone(),
                    };
                    let ghost added = action@;
                    let ghost acts = self.actions@;
                    self.actions.push(action);
                    assert(views(self.actions@) =~= views(acts).push(added));
                    self.next = self.next + 1;
                    assert(self@ =~= (PassView {
                        actions: before_job.actions.push(added),
                        ..before_job.popped()
                    }));
                },
            }
        }
    }

    /// The nodes to pick from, unless the pass is done.
    pub fn candidates(&self) -> (r: Option<Vec<NodeResources>>)
        requires
            self.wf(),
        ensures
            r is None <==> self@.done(),
            r matches Some(nodes) ==> views(nodes@) == self@.candidates(),
    {
        if self.pending.is_none() && self.next >= self.jobs.len() {
            return None;
        }
        Some(candidates(&self.nodes, &self.busy))
    }

    /// The id of the picked candidate.
    fn picked(&self, pick: Option<usize>) -> (r: Option<String>)
        requires
            self.wf(),
        ensures
            opt_view(r) == picked(self@.candidates(), pick),
    {
        let nodes = candidates(&self.nodes, &self.busy);
        match pick {
            Some(i) => if i < nodes.len() {
                assert(views(nodes@)[i as int] == nodes@[i as int]@);
                Some(nodes[i].id.clone())
            } else {
                None
            },
            None => None,
        }
    }

    /// Puts the next missing replica on the picked node.
    fn place(&mut self, replica_name: String, template: JailTemplate, generation: u64, registry: &Registry, now: u64, pick: Option<
        usize,
    >)
        requires
            old(self).wf(),
            old(self)@.pending is None,
            registry.wf(),
        ensures
            final(self).wf(),
            final(self)@ == old(self)@.placing(replica_name@, template@, generation, registry@, now, pick),
    {
        let ghost before_call = self@;
        let node_id = match self.picked(pick) {
            Some(id) => id,
            None => {
                return;
            },
        };
        let cidr = match registry.pod_cidr(node_id.as_str()) {
            Some(cidr) => cidr,
            None => {
                return;
            },
        };
        let address = match first_free_address(cidr, node_id.as_str(), &self.used) {
            Some(address) => address,
            None => {
                return;
            },
        };
        let node_addr = match registry.resolve(node_id.as_str(), now) {
            Ok(addr) => addr,
            Err(_) => {
                return;
            },
        };
        assert(resolution(Ok(node_addr)) == registry@.resolve(node_id@, now));
        assert(before_call.spot(registry@, now, node_id@) == Some((cidr.prefix_len, node_addr@, address)));
        self.used.record(replica_name.clone(), node_id.clone(), address);
        self.busy.insert(node_id.clone(), ());
        assert(self.busy.map().dom() =~= before_call.busy.insert(node_id@));
        charge(&mut self.nodes, node_id.as_str(), &template.resources);
        let stateless = template.volumes.len() == 0;
        let placed = Placed {
            replica_name,
            node_id,
            node_addr,
            template,
            address,
            prefix_len: cidr.prefix_len,
            generation,
        };
        let ghost view = placed@;
        if stateless {
            self.push_scheduled(placed, None);
        } else {
            self.pending = Some(placed);
        }
        assert(self@ =~= before_call.placing(view.replica_name, view.template, generation, registry@, now, pick));
    }

    fn push_scheduled(&mut self, placed: Placed, standby: Option<(String, String)>)
        requires
            old(self).wf(),
        ensures
            final(self).wf(),
            final(self)@ == (PassView {
                actions: old(self)@.actions.push(
                    placed@.scheduled(pair_view(standby)),
                ),
                ..old(self)@
            }),
    {
        let ghost standby_view = pair_view(standby);
        let ghost view = placed@;
        let ghost acts = self.actions@;
        let (standby_node_id, standby_addr) = match standby {
            Some((id, addr)) => (Some(id), Some(addr)),
            None => (None, None),
        };
        let action = ReplicaAction::Schedule {
            replica_name: placed.replica_name,
            node_id: placed.node_id,
            node_addr: placed.node_addr,
            template: placed.template,
            address: placed.address,
            prefix_len: placed.prefix_len,
            standby_node_id,
            standby_addr,
            generation: placed.generation,
        };
        assert(action@ =~= view.scheduled(standby_view));
        self.actions.push(action);
        assert(views(self.actions@) =~= views(acts).push(view.scheduled(standby_view)));
        assert(self@ =~= (PassView { actions: views(acts).push(view.scheduled(standby_view)), ..old(self)@ }));
    }

    /// Goes on with a picked candidate.
    pub fn step(&mut self, registry: &Registry, now: u64, pick: Option<usize>)
        requires
            old(self).wf(),
            registry.wf(),
        ensures
            final(self).wf(),
            final(self)@ == old(self)@.step(registry@, now, pick),
    {
        let ghost before_call = self@;
        if self.pending.is_some() {
            let chosen = self.picked(pick);
            let taken = self.pending.take();
            if let Some(placed) = taken {
                let ghost view = placed@;
                let standby = match chosen {
                    Some(id) => if same(id.as_str(), placed.node_id.as_str()) {
                        None
                    } else {
                        match registry.replicate_addr(id.as_str()) {
                            Some(addr) => Some((id, addr)),
                            None => None,
                        }
                    },
                    None => None,
                };
                assert(pair_view(standby) == before_call.standby(registry@, view.node_id, pick));
                assert(self@ =~= (PassView { pending: None, ..before_call }));
                self.push_scheduled(placed, standby);
                assert(self@ =~= (PassView {
                    pending: None,
                    actions: before_call.actions.push(
                        view.scheduled(before_call.standby(registry@, view.node_id, pick)),
                    ),
                    ..before_call
                }));
            }
            self.settle();
            return;
        }
        if self.next >= self.jobs.len() {
            return;
        }
        assert(before_call.jobs[0] == self.jobs@[self.next as int]@);
        let todo = match &self.jobs[self.next] {
            Job::Place { replica_name, template, generation } => Some(
                (replica_name.clone(), template.duplicate(), *generation),
            ),
            _ => None,
        };
        if let Some((replica_name, template, generation)) = todo {
            self.next = self.next + 1;
            assert(self@ =~= before_call.popped());
            self.place(replica_name, template, generation, registry, now, pick);
        }
        self.settle();
    }

    /// What the pass decided.
    pub fn actions(self) -> (r: Vec<ReplicaAction>)
        ensures
            views(r@) == self@.actions,
    {
        self.actions
    }
}

/// A copy of a set of names.
fn copy_set(s: &StrMap<()>) -> (r: StrMap<()>)
    requires
        s.wf(),
    ensures
        r.wf(),
        r.map().dom() == s.map().dom(),
{
    let mut out: StrMap<()> = StrMap::new();
    let mut i: usize = 0;
    while i < s.len()
        invariant
            s.wf(),
            out.wf(),
            i <= s.entries().len(),
            forall|k: Seq<char>| #[trigger]
                out.map().dom().contains(k) <==> exists|j: int| 0 <= j < i && (#[trigger] s.entries()[j]).0@ == k,
        decreases s.entries().len() - i,
    {
        let ghost before_insert = out.map();
        let ghost key = s.entries()[i as int].0@;
        out.insert(s.key_at(i).clone(), ());
        i = i + 1;
        assert forall|k: Seq<char>| #[trigger] out.map().dom().contains(k) <==> exists|j: int|
            0 <= j < i && (#[trigger] s.entries()[j]).0@ == k by {
            if k == key {
                assert(s.entries()[i - 1].0@ == k);
            }
        }
    }
    assert forall|k: Seq<char>| #[trigger] out.map().dom().contains(k) <==> s.map().dom().contains(k) by {
        if s.map().dom().contains(k) {
            let j = choose|j: int| crate::strmap::holds_at(s.entries(), k, j);
            assert(s.entries()[j].0@ == k);
        }
        if out.map().dom().contains(k) {
            let j = choose|j: int| 0 <= j < i && (#[trigger] s.entries()[j]).0@ == k;
            s.lemma_entry(j);
        }
    }
    assert(out.map().dom() =~= s.map().dom());
    out
}

} // verus!
