//! What the control plane promises, whatever it is asked and whichever nodes are picked.

use crate::controlplane::addresses::{
    is_free, leases_in, leases_map, lemma_first_free_is, lemma_leases_in, UsedAddresses,
};
use crate::controlplane::cordoned::Cordoned;
use crate::controlplane::job_laws::{distinct_services, lemma_jobs, lemma_present, removed_index};
use crate::controlplane::pending_fences::PendingFences;
use crate::controlplane::placements::{texts_of, Placements};
use crate::controlplane::reconcile::{cluster_of, Cluster, JobView, PassView, PlacedView, ReplicaActionView};
use crate::controlplane::reconcile_laws::{
    created_by, given_at, has_replica, is_given, is_job_of, lemma_run_in_order, lemma_run_sound,
    lemma_run_spread, Origin,
};
use crate::controlplane::registry::ResolveErrorView;
use crate::controlplane::scheduler::{lemma_candidates, lemma_schedulable, NodeResources};
use crate::controlplane::services::{
    lemma_records_in, records_in, replica_index_of, replica_name_of, ServiceRecord, Services,
};
use crate::controlplane::standbys::Standbys;
use crate::controlplane::worker::{handled, healthy_of, is_healthy, Command, ControlPlane, Outcome, StateFile};
use crate::strmap::{
    ascending, distinct_keys, lemma_any_order, lemma_numbers_in, lemma_texts_in, map_from, numbers_in, pairs_map,
    same_elements, texts_in,
};
use crate::text::{lemma_str_before_order, str_before};
use crate::views::views;
use vstd::prelude::*;

verus! {

impl ControlPlane {
    /// What a pass starts from.
    pub open spec fn origin(&self, now: u64) -> Origin {
        Origin {
            nodes: self.schedulable(now),
            used: self.used_addresses@,
            jobs: self.cluster(now).jobs(self.services.listed()),
            registry: self.registry@,
            now,
        }
    }

    pub open spec fn cluster(&self, now: u64) -> Cluster {
        cluster_of(&self.registry, &self.placements, now)
    }

    /// The pass over the services after some picks.
    pub open spec fn pass_after(&self, now: u64, picks: Seq<Option<usize>>) -> PassView {
        self.pass(now).run(self.registry@, now, picks)
    }

    /// The `i`-th action of the pass creates a replica.
    pub open spec fn creates(&self, now: u64, picks: Seq<Option<usize>>, i: int) -> Option<PlacedView> {
        if 0 <= i < self.pass_after(now, picks).actions.len() {
            created_by(self.pass_after(now, picks).actions[i])
        } else {
            None
        }
    }

    pub proof fn lemma_services_distinct(&self)
        requires
            self.wf(),
        ensures
            distinct_services(self.services.listed()),
    {
        self.services.lemma_listed();
        let listed = self.services.listed();
        assert forall|i: int, j: int| 0 <= i < j < listed.len() implies (#[trigger] listed[i]).0 != (
        #[trigger] listed[j]).0 by {
            lemma_str_before_order(listed[i].0, listed[i].0, listed[i].0);
        }
    }

    pub proof fn lemma_pass(&self, now: u64, picks: Seq<Option<usize>>)
        requires
            self.wf(),
        ensures
            self.origin(now).sound(self.pass_after(now, picks)),
            self.origin(now).in_order(self.pass_after(now, picks)),
            self.origin(now).spread(self.placements.placed(), self.pass_after(now, picks)),
            forall|i: int| #[trigger] self.creates(now, picks, i) is Some ==> given_at(self.pass_after(now, picks), i) == self.creates(
                now,
                picks,
                i,
            ),
    {
        self.lemma_services_distinct();
        lemma_jobs(self.cluster(now), self.services.listed());
        lemma_run_sound(self.origin(now), picks);
        lemma_run_in_order(self.origin(now), picks);
        lemma_run_spread(self.origin(now), self.placements.placed(), picks);
    }

    /// The replica was lacking in a listed service.
    pub proof fn lemma_lacking(&self, now: u64, x: PlacedView)
        requires
            self.wf(),
            self.origin(now).well_placed(x),
        ensures
            exists|m: int, index: u32|
                0 <= m < self.services.listed().len() && self.cluster(now).lacks(
                    #[trigger] self.services.listed()[m],
                    index,
                    #[trigger] place_of(x, index),
                ),
    {
        self.lemma_services_distinct();
        let c = self.cluster(now);
        let listed = self.services.listed();
        lemma_jobs(c, listed);
        let job = JobView::Place { replica_name: x.replica_name, template: x.template, generation: x.generation };
        let jobs = c.jobs(listed);
        let k = choose|k: int| 0 <= k < jobs.len() && jobs[k] == job;
        let m = choose|m: int| 0 <= m < listed.len() && c.job_for(#[trigger] listed[m], #[trigger] jobs[k]);
        let index = choose|i: u32| #[trigger] c.lacks(listed[m], i, job);
        assert(c.lacks(listed[m], index, place_of(x, index)));
    }
}

/// The job that asks for a replica.
pub open spec fn place_of(x: PlacedView, index: u32) -> JobView {
    JobView::Place { replica_name: x.replica_name, template: x.template, generation: x.generation }
}

/// No address is given to two replicas on one node within a pass.
pub proof fn law_no_address_is_given_twice(
    state: &ControlPlane,
    now: u64,
    picks: Seq<Option<usize>>,
    i: int,
    j: int,
)
    requires
        state.wf(),
        i < j,
        state.creates(now, picks, i) is Some,
        state.creates(now, picks, j) is Some,
    ensures
        ({
            let x = state.creates(now, picks, i)->0;
            let y = state.creates(now, picks, j)->0;
            x.replica_name != y.replica_name && !(x.node_id == y.node_id && x.address == y.address)
        }),
{
    state.lemma_pass(now, picks);
    let p = state.pass_after(now, picks);
    assert(given_at(p, i) is Some && given_at(p, j) is Some);
}

/// A given address lies in the block of its node, and no replica has it there, unless the pass moves
/// that replica.
pub proof fn law_given_addresses_were_free(
    state: &ControlPlane,
    now: u64,
    picks: Seq<Option<usize>>,
    i: int,
    jail: Seq<char>,
)
    requires
        state.wf(),
        state.creates(now, picks, i) is Some,
        state.used_addresses@.dom().contains(jail),
        state.used_addresses@[jail] == (
            state.creates(now, picks, i)->0.node_id,
            state.creates(now, picks, i)->0.address,
        ),
    ensures
        is_given(state.pass_after(now, picks), jail),
{
    state.lemma_pass(now, picks);
    let p = state.pass_after(now, picks);
    assert(given_at(p, i) is Some);
    assert(state.origin(now).used.dom().contains(jail));
}

/// A replica goes to a node that is registered, alive and not cordoned, and to an assignable address of
/// that node's block.
pub proof fn law_replicas_go_to_schedulable_nodes(state: &ControlPlane, now: u64, picks: Seq<Option<usize>>, i: int)
    requires
        state.wf(),
        state.creates(now, picks, i) is Some,
    ensures
        ({
            let x = state.creates(now, picks, i)->0;
            &&& state.registry@.resolve(x.node_id, now) is Ok
            &&& state.registry@.resolve(x.node_id, now)->Ok_0 == x.node_addr
            &&& !state.cordoned@.contains(x.node_id)
            &&& state.registry@.pod_cidr(x.node_id) is Some
            &&& state.registry@.pod_cidr(x.node_id)->0.assignable(x.address as int)
            &&& state.registry@.pod_cidr(x.node_id)->0.prefix_len == x.prefix_len
        }),
{
    state.lemma_pass(now, picks);
    let p = state.pass_after(now, picks);
    let o = state.origin(now);
    let x = state.creates(now, picks, i)->0;
    assert(given_at(p, i) == Some(x));
    assert(o.well_placed(x));
    let n = choose|n: int| 0 <= n < o.nodes.len() && (#[trigger] o.nodes[n]).id == x.node_id;
    let members = state.registry.members();
    lemma_schedulable(&state.registry, now, state.cordoned@, members.len() as int);
    assert(members.take(members.len() as int) =~= members);
    assert(state.schedulable(now)[n].id == x.node_id);
}

/// The standby of a replica is another node than its own, is schedulable and takes in replication at the
/// given address; a replica without volumes has none.
pub proof fn law_standby_is_another_node(state: &ControlPlane, now: u64, picks: Seq<Option<usize>>, i: int)
    requires
        state.wf(),
        0 <= i < state.pass_after(now, picks).actions.len(),
    ensures
        state.pass_after(now, picks).actions[i] matches ReplicaActionView::Schedule {
            node_id,
            template,
            standby_node_id,
            standby_addr,
            ..
        } ==> {
            &&& standby_node_id is Some <==> standby_addr is Some
            &&& template.volumes.len() == 0 ==> standby_node_id is None
            &&& standby_node_id matches Some(s) ==> {
                &&& s != node_id
                &&& state.registry@.replicate_addr(s) == standby_addr
                &&& state.registry@.resolve(s, now) is Ok
                &&& !state.cordoned@.contains(s)
            }
        },
{
    state.lemma_pass(now, picks);
    let o = state.origin(now);
    let action = state.pass_after(now, picks).actions[i];
    assert(o.well_backed(action));
    if let ReplicaActionView::Schedule { standby_node_id: Some(s), .. } = action {
        let n = choose|n: int| 0 <= n < o.nodes.len() && (#[trigger] o.nodes[n]).id == s;
        let members = state.registry.members();
        lemma_schedulable(&state.registry, now, state.cordoned@, members.len() as int);
        assert(members.take(members.len() as int) =~= members);
        assert(state.schedulable(now)[n].id == s);
    }
}

/// A created replica is one that a service lacks: its index is below the desired number, its template
/// is the service's, and its generation is the one after the last of its name.
pub proof fn law_created_replicas_are_wanted(state: &ControlPlane, now: u64, picks: Seq<Option<usize>>, i: int)
    requires
        state.wf(),
        state.placements.countable(),
        state.creates(now, picks, i) is Some,
    ensures
        ({
            let x = state.creates(now, picks, i)->0;
            &&& x.generation == state.placements.count(x.replica_name) + 1
            &&& exists|service: Seq<char>, index: u32|
                #![trigger replica_name_of(service, index)]
                {
                    &&& state.services@.dom().contains(service)
                    &&& x.replica_name == replica_name_of(service, index)
                    &&& index < state.services@[service].desired_replicas
                    &&& x.template == state.services@[service].template
                }
        }),
{
    state.lemma_pass(now, picks);
    state.services.lemma_listed();
    let x = state.creates(now, picks, i)->0;
    assert(given_at(state.pass_after(now, picks), i) == Some(x));
    state.lemma_lacking(now, x);
    let listed = state.services.listed();
    let (m, index) = choose|m: int, index: u32|
        0 <= m < listed.len() && state.cluster(now).lacks(#[trigger] listed[m], index, #[trigger] place_of(x, index));
    let service = listed[m].0;
    assert(x.replica_name == replica_name_of(service, index));
    assert(state.services@.dom().contains(service));
}

/// A replica that is placed is created anew only if it has no volumes and its node is not alive: one
/// with volumes stays pinned to its node, and one that crashes on a live node is left to that node.
pub proof fn law_placed_replicas_stay(state: &ControlPlane, now: u64, picks: Seq<Option<usize>>, i: int)
    requires
        state.wf(),
        state.creates(now, picks, i) is Some,
        state.placements.nodes().dom().contains(state.creates(now, picks, i)->0.replica_name),
    ensures
        state.creates(now, picks, i)->0.template.volumes.len() == 0,
        state.registry@.resolve(state.placements.nodes()[state.creates(now, picks, i)->0.replica_name], now) is Err,
{
    state.lemma_pass(now, picks);
    let x = state.creates(now, picks, i)->0;
    assert(given_at(state.pass_after(now, picks), i) == Some(x));
    state.lemma_lacking(now, x);
    let listed = state.services.listed();
    let c = state.cluster(now);
    let (m, index) = choose|m: int, index: u32|
        0 <= m < listed.len() && c.lacks(#[trigger] listed[m], index, #[trigger] place_of(x, index));
    let (service, record) = listed[m];
    lemma_present(service, record.template.volumes.len() > 0, c.placed, c.registry, now, index);
    state.placements.lemma_placed();
    let k = choose|k: int|
        0 <= k < state.placements.placed().len() && (#[trigger] state.placements.placed()[k]).0 == x.replica_name;
    assert(c.placed[k].0 == replica_name_of(service, index));
}

/// A replica is torn down only where it is placed, on a node that is alive, and only if its index is not
/// below the desired number.
pub proof fn law_teardowns_are_surplus(state: &ControlPlane, now: u64, picks: Seq<Option<usize>>, i: int)
    requires
        state.wf(),
        0 <= i < state.pass_after(now, picks).actions.len(),
    ensures
        state.pass_after(now, picks).actions[i] matches ReplicaActionView::TearDown {
            replica_name,
            node_id,
            node_addr,
        } ==> {
            &&& state.placements.nodes().dom().contains(replica_name)
            &&& state.placements.nodes()[replica_name] == node_id
            &&& state.registry@.resolve(node_id, now) is Ok
            &&& state.registry@.resolve(node_id, now)->Ok_0 == node_addr
            &&& exists|service: Seq<char>, index: u32|
                #![trigger replica_name_of(service, index)]
                {
                    &&& state.services@.dom().contains(service)
                    &&& replica_name == replica_name_of(service, index)
                    &&& index >= state.services@[service].desired_replicas
                }
        },
{
    state.lemma_pass(now, picks);
    state.lemma_services_distinct();
    state.services.lemma_listed();
    let o = state.origin(now);
    let c = state.cluster(now);
    let listed = state.services.listed();
    let action = state.pass_after(now, picks).actions[i];
    assert(o.well_backed(action));
    lemma_jobs(c, listed);
    if let ReplicaActionView::TearDown { replica_name, node_id, node_addr } = action {
        let job = JobView::Remove { replica_name, node_id, node_addr };
        let k = choose|k: int| 0 <= k < o.jobs.len() && o.jobs[k] == job;
        let m = choose|m: int| 0 <= m < listed.len() && c.job_for(#[trigger] listed[m], #[trigger] o.jobs[k]);
        let index = choose|index: u32| #[trigger] c.exceeds(listed[m], index, job);
        assert(replica_name == replica_name_of(listed[m].0, index));
        assert(state.services@.dom().contains(listed[m].0));
    }
}

/// Of one service, the replica with the highest index is torn down first.
pub proof fn law_highest_index_goes_first(
    state: &ControlPlane,
    now: u64,
    picks: Seq<Option<usize>>,
    i: int,
    j: int,
    service: Seq<char>,
)
    requires
        state.wf(),
        0 <= i < j < state.pass_after(now, picks).actions.len(),
        state.pass_after(now, picks).actions[i] is TearDown,
        state.pass_after(now, picks).actions[j] is TearDown,
        replica_index_of(service, state.pass_after(now, picks).actions[i]->TearDown_replica_name) is Some,
        replica_index_of(service, state.pass_after(now, picks).actions[j]->TearDown_replica_name) is Some,
    ensures
        replica_index_of(service, state.pass_after(now, picks).actions[i]->TearDown_replica_name)->0
            > replica_index_of(service, state.pass_after(now, picks).actions[j]->TearDown_replica_name)->0,
{
    state.lemma_pass(now, picks);
    state.lemma_services_distinct();
    let o = state.origin(now);
    let p = state.pass_after(now, picks);
    lemma_jobs(state.cluster(now), state.services.listed());
    assert(o.well_backed(p.actions[i]));
    assert(o.well_backed(p.actions[j]));
    let a = p.actions[i];
    let b = p.actions[j];
    let x = JobView::Remove {
        replica_name: a->TearDown_replica_name,
        node_id: a->TearDown_node_id,
        node_addr: a->TearDown_node_addr,
    };
    let y = JobView::Remove {
        replica_name: b->TearDown_replica_name,
        node_id: b->TearDown_node_id,
        node_addr: b->TearDown_node_addr,
    };
    let k = choose|k: int| 0 <= k < o.jobs.len() && o.jobs[k] == x;
    let l = choose|l: int| 0 <= l < o.jobs.len() && o.jobs[l] == y;
    assert(is_job_of(o.jobs[k], p.actions[i]));
    assert(is_job_of(o.jobs[l], p.actions[j]));
    assert(k < l);
    assert(removed_index(service, o.jobs[k]) > removed_index(service, o.jobs[l]));
}

/// The replicas of a service are spread: a node that already has a replica of it, from before the pass
/// or from an earlier action, gets another only when every schedulable node has one.
pub proof fn law_replicas_are_spread(
    state: &ControlPlane,
    now: u64,
    picks: Seq<Option<usize>>,
    i: int,
    service: Seq<char>,
    n: int,
)
    requires
        state.wf(),
        state.creates(now, picks, i) is Some,
        replica_index_of(service, state.creates(now, picks, i)->0.replica_name) is Some,
        has_replica(
            state.placements.placed(),
            state.pass_after(now, picks),
            service,
            i,
            state.creates(now, picks, i)->0.node_id,
        ),
        0 <= n < state.schedulable(now).len(),
    ensures
        has_replica(
            state.placements.placed(),
            state.pass_after(now, picks),
            service,
            i,
            state.schedulable(now)[n].id,
        ),
{
    state.lemma_pass(now, picks);
    let p = state.pass_after(now, picks);
    assert(given_at(p, i) is Some);
    assert(replica_index_of(service, given_at(p, i)->0.replica_name) is Some);
    assert(state.origin(now).nodes[n].id == state.schedulable(now)[n].id);
}

/// When every service has exactly its desired replicas, a pass has nothing to do.
pub proof fn law_nothing_to_do(state: &ControlPlane, now: u64)
    requires
        state.wf(),
        forall|m: int, index: u32|
            #![trigger state.cluster(now).present(
                state.services.listed()[m].0,
                state.services.listed()[m].1,
            ).contains(index)]
            0 <= m < state.services.listed().len() ==> (state.cluster(now).present(
                state.services.listed()[m].0,
                state.services.listed()[m].1,
            ).contains(index) <==> index < state.services.listed()[m].1.desired_replicas),
    ensures
        state.pass(now).done(),
        state.pass(now).actions.len() == 0,
{
    state.lemma_services_distinct();
    let c = state.cluster(now);
    let listed = state.services.listed();
    let jobs = c.jobs(listed);
    lemma_jobs(c, listed);
    assert forall|k: int| 0 <= k < jobs.len() implies (#[trigger] jobs[k]) is Begin by {
        let m = choose|m: int| 0 <= m < listed.len() && c.job_for(#[trigger] listed[m], #[trigger] jobs[k]);
        if jobs[k] is Place {
            let index = choose|index: u32| #[trigger] c.lacks(listed[m], index, jobs[k]);
            assert(!c.present(listed[m].0, listed[m].1).contains(index));
        } else if jobs[k] is Remove {
            let index = choose|index: u32| #[trigger] c.exceeds(listed[m], index, jobs[k]);
            assert(c.present(listed[m].0, listed[m].1).contains(index));
        }
    }
    lemma_only_begins(
        PassView {
            nodes: state.schedulable(now),
            used: state.used_addresses@,
            service: None,
            busy: Set::empty(),
            jobs,
            pending: None,
            actions: Seq::empty(),
        },
    );
}

proof fn lemma_only_begins(p: PassView)
    requires
        p.pending is None,
        p.actions.len() == 0,
        forall|k: int| 0 <= k < p.jobs.len() ==> (#[trigger] p.jobs[k]) is Begin,
    ensures
        p.settled().done(),
        p.settled().actions.len() == 0,
    decreases p.jobs.len(),
{
    if p.jobs.len() > 0 {
        assert(p.jobs[0] is Begin);
        if let JobView::Begin { service, hosts } = p.jobs[0] {
            let q = PassView { service: Some(service), busy: hosts, ..p.popped() };
            assert forall|k: int| 0 <= k < q.jobs.len() implies (#[trigger] q.jobs[k]) is Begin by {
                assert(q.jobs[k] == p.jobs[k + 1]);
            }
            lemma_only_begins(q);
        }
    }
}

/// What is listed as a healthy replica is placed on a node that is alive and says that it runs, and the
/// names ascend.
pub proof fn law_healthy_replicas(state: &ControlPlane, name: Seq<char>, now: u64)
    requires
        state.wf(),
    ensures
        ({
            let r = healthy_of(name, state.placements.placed(), state.registry@, state.used_addresses@, now);
            &&& forall|i: int, j: int| 0 <= i < j < r.len() ==> str_before((#[trigger] r[i]).name, (#[trigger] r[j]).name)
            &&& forall|i: int|
                0 <= i < r.len() ==> {
                    &&& state.placements.nodes().dom().contains((#[trigger] r[i]).name)
                    &&& state.placements.nodes()[r[i].name] == r[i].node
                    &&& is_healthy(name, r[i].name, r[i].node, state.registry@, state.used_addresses@, now)
                }
            &&& forall|jail: Seq<char>|
                #[trigger] state.placements.nodes().dom().contains(jail) && is_healthy(
                    name,
                    jail,
                    state.placements.nodes()[jail],
                    state.registry@,
                    state.used_addresses@,
                    now,
                ) ==> exists|i: int| 0 <= i < r.len() && (#[trigger] r[i]).name == jail
        }),
{
    state.placements.lemma_placed();
    let placed = state.placements.placed();
    assert(placed.take(placed.len() as int) =~= placed);
    lemma_healthy(state, name, now, placed.len() as int);
    let r = healthy_of(name, placed, state.registry@, state.used_addresses@, now);
    assert forall|i: int| 0 <= i < r.len() implies {
        &&& state.placements.nodes().dom().contains((#[trigger] r[i]).name)
        &&& state.placements.nodes()[r[i].name] == r[i].node
        &&& is_healthy(name, r[i].name, r[i].node, state.registry@, state.used_addresses@, now)
    } by {
        let k = choose|k: int| 0 <= k < placed.len() && (#[trigger] placed[k]) == (r[i].name, r[i].node);
        assert(placed[k].0 == r[i].name);
    }
    assert forall|jail: Seq<char>|
        #[trigger] state.placements.nodes().dom().contains(jail) && is_healthy(
            name,
            jail,
            state.placements.nodes()[jail],
            state.registry@,
            state.used_addresses@,
            now,
        ) implies exists|i: int| 0 <= i < r.len() && (#[trigger] r[i]).name == jail by {
        let k = choose|k: int| 0 <= k < placed.len() && (#[trigger] placed[k]).0 == jail;
        assert(is_healthy(name, placed[k].0, placed[k].1, state.registry@, state.used_addresses@, now));
    }
}

proof fn lemma_healthy(state: &ControlPlane, name: Seq<char>, now: u64, n: int)
    requires
        state.wf(),
        0 <= n <= state.placements.placed().len(),
    ensures
        ({
            let placed = state.placements.placed();
            let r = healthy_of(name, placed.take(n), state.registry@, state.used_addresses@, now);
            &&& forall|i: int, j: int| 0 <= i < j < r.len() ==> str_before((#[trigger] r[i]).name, (#[trigger] r[j]).name)
            &&& forall|i: int|
                0 <= i < r.len() ==> is_healthy(
                    name,
                    (#[trigger] r[i]).name,
                    r[i].node,
                    state.registry@,
                    state.used_addresses@,
                    now,
                ) && exists|k: int| 0 <= k < n && (#[trigger] placed[k]) == (r[i].name, r[i].node)
            &&& forall|k: int|
                0 <= k < n && is_healthy(
                    name,
                    (#[trigger] placed[k]).0,
                    placed[k].1,
                    state.registry@,
                    state.used_addresses@,
                    now,
                ) ==> exists|i: int| 0 <= i < r.len() && (#[trigger] r[i]).name == placed[k].0
        }),
    decreases n,
{
    let placed = state.placements.placed();
    state.placements.lemma_placed();
    if n > 0 {
        lemma_healthy(state, name, now, n - 1);
        assert(placed.take(n).drop_last() =~= placed.take(n - 1));
        let prior = healthy_of(name, placed.take(n - 1), state.registry@, state.used_addresses@, now);
        let r = healthy_of(name, placed.take(n), state.registry@, state.used_addresses@, now);
        assert(placed.take(n).last() == placed[n - 1]);
        assert forall|i: int| 0 <= i < r.len() implies is_healthy(
            name,
            (#[trigger] r[i]).name,
            r[i].node,
            state.registry@,
            state.used_addresses@,
            now,
        ) && exists|k: int| 0 <= k < n && (#[trigger] placed[k]) == (r[i].name, r[i].node) by {
            if i < prior.len() {
                assert(r[i] == prior[i]);
                let k = choose|k: int| 0 <= k < n - 1 && (#[trigger] placed[k]) == (prior[i].name, prior[i].node);
                assert(placed[k] == (r[i].name, r[i].node));
            } else {
                assert(placed[n - 1] == (r[i].name, r[i].node));
            }
        }
        assert forall|i: int, j: int| 0 <= i < j < r.len() implies str_before((#[trigger] r[i]).name, (#[trigger] r[j]).name) by {
            if j < prior.len() {
                assert(r[i] == prior[i] && r[j] == prior[j]);
            } else {
                assert(r[i] == prior[i]);
                let k = choose|k: int| 0 <= k < n - 1 && (#[trigger] placed[k]) == (prior[i].name, prior[i].node);
                assert(str_before(placed[k].0, placed[n - 1].0));
            }
        }
        assert forall|k: int|
            0 <= k < n && is_healthy(
                name,
                (#[trigger] placed[k]).0,
                placed[k].1,
                state.registry@,
                state.used_addresses@,
                now,
            ) implies exists|i: int| 0 <= i < r.len() && (#[trigger] r[i]).name == placed[k].0 by {
            if k < n - 1 {
                let i = choose|i: int| 0 <= i < prior.len() && (#[trigger] prior[i]).name == placed[k].0;
                assert(r[i] == prior[i]);
            } else {
                assert(r[prior.len() as int].name == placed[k].0);
            }
        }
    }
}

/// A prepared move promotes the recorded standby, names a third node as the next standby, gives an
/// address that is free on the promoted node, and carries a generation above every earlier one of the name.
pub proof fn law_repin(state: &ControlPlane, replica: Seq<char>, allow: bool, now: u64, pick: Option<usize>)
    requires
        state.wf(),
        state.placements.countable(),
        state.repin(replica, allow, now, pick) is Ok,
    ensures
        ({
            let prep = state.repin(replica, allow, now, pick)->Ok_0;
            &&& prep.old_node_id == state.placements.nodes()[replica]
            &&& prep.standby_node_id == state.standbys@[replica]
            &&& prep.fresh_standby_node_id != prep.old_node_id
            &&& prep.fresh_standby_node_id != prep.standby_node_id
            &&& state.registry@.resolve(prep.fresh_standby_node_id, now) is Ok
            &&& !state.cordoned@.contains(prep.fresh_standby_node_id)
            &&& is_free(state.used_addresses@, prep.standby_node_id, prep.address as int)
            &&& prep.next_generation == state.placements.count(replica) + 1
        }),
{
    let ready = state.repin_ready(replica, allow, now)->Ok_0;
    let prep = state.repin(replica, allow, now, pick)->Ok_0;
    let cidr = state.registry@.pod_cidr(ready.standby_node_id)->0;
    lemma_first_free_is(cidr, ready.standby_node_id, state.used_addresses@);
    let excluded = set![ready.old_node_id, ready.standby_node_id];
    lemma_candidates(state.schedulable(now), excluded);
    let c = state.repin_candidates(ready, now)[pick->0 as int];
    assert(state.schedulable(now).contains(c));
    let n = choose|n: int| 0 <= n < state.schedulable(now).len() && state.schedulable(now)[n] == c;
    let members = state.registry.members();
    lemma_schedulable(&state.registry, now, state.cordoned@, members.len() as int);
    assert(members.take(members.len() as int) =~= members);
    assert(state.schedulable(now)[n].id == prep.fresh_standby_node_id);
}

/// While the primary is alive, only a drain may move the replica; where it is not, a drain and a forced
/// move prepare the same.
pub proof fn law_repin_guards_against_two_primaries(
    state: &ControlPlane,
    replica: Seq<char>,
    now: u64,
    pick: Option<usize>,
)
    requires
        state.wf(),
    ensures
        state.repin(replica, false, now, pick) is Ok ==> state.registry@.resolve(
            state.placements.nodes()[replica],
            now,
        ) is Err,
        state.registry@.resolve(state.placements.nodes()[replica], now) is Err ==> state.repin(
            replica,
            false,
            now,
            pick,
        ) == state.repin(replica, true, now, pick),
{
}

/// What happens to the placement of a jail: it is placed, or its placement is removed.
pub enum PlacementEvent {
    Placed(Seq<char>),
    Removed(Seq<char>),
}

/// The counters after some events, each as [`Placements::set`] and [`Placements::remove`] change them.
///
/// [`Placements::set`]: crate::controlplane::placements::Placements::set
/// [`Placements::remove`]: crate::controlplane::placements::Placements::remove
pub open spec fn counts_after(counts: Map<Seq<char>, u64>, events: Seq<PlacementEvent>) -> Map<Seq<char>, u64>
    decreases events.len(),
{
    if events.len() == 0 {
        counts
    } else {
        let prior = counts_after(counts, events.drop_last());
        match events.last() {
            PlacementEvent::Placed(name) => prior.insert(name, (count_in(prior, name) + 1) as u64),
            PlacementEvent::Removed(_) => prior,
        }
    }
}

/// The counter of a name.
pub open spec fn count_in(counts: Map<Seq<char>, u64>, name: Seq<char>) -> u64 {
    if counts.dom().contains(name) {
        counts[name]
    } else {
        0
    }
}

/// A generation never falls, and a name that is placed again, after whatever removals, has a higher one
/// than it ever had.
pub proof fn law_generations_only_rise(counts: Map<Seq<char>, u64>, name: Seq<char>, events: Seq<PlacementEvent>)
    requires
        count_in(counts, name) + events.len() <= u64::MAX,
    ensures
        count_in(counts, name) <= count_in(counts_after(counts, events), name) <= count_in(counts, name) + events.len(),
        (exists|i: int| 0 <= i < events.len() && (#[trigger] events[i]) == PlacementEvent::Placed(name)) ==> count_in(
            counts_after(counts, events),
            name,
        ) > count_in(counts, name),
    decreases events.len(),
{
    if events.len() > 0 {
        let rest = events.drop_last();
        law_generations_only_rise(counts, name, rest);
        if exists|i: int| 0 <= i < events.len() && (#[trigger] events[i]) == PlacementEvent::Placed(name) {
            let i = choose|i: int| 0 <= i < events.len() && (#[trigger] events[i]) == PlacementEvent::Placed(name);
            if i < rest.len() {
                assert(rest[i] == PlacementEvent::Placed(name));
            }
        }
    }
}

/// What holds of every replica that the control plane decides to create: its generation follows the last one of its
/// name, its node is alive and not cordoned, it has a standby only if it has volumes, and then another node that
/// takes in replication, and no two of them on one node have one address.
pub proof fn law_scheduled_replicas<F: Fn(&Vec<NodeResources>) -> Option<usize>>(
    before: ControlPlane,
    now: u64,
    best: F,
    after: ControlPlane,
    out: Outcome,
    i: int,
    j: int,
)
    requires
        before.wf(),
        before.placements.countable(),
        handled(before, Command::ReconcileServices, now, best, after, out),
        0 <= i < out.reply->Actions_0@.len(),
        out.reply->Actions_0@[i]@ is Schedule,
    ensures
        out.reply->Actions_0@[i]@ matches ReplicaActionView::Schedule {
            replica_name,
            node_id,
            node_addr,
            template,
            address,
            standby_node_id,
            standby_addr,
            generation,
            ..
        } && {
            &&& generation == before.placements.count(replica_name) + 1
            &&& before.registry@.resolve(node_id, now) == Ok::<Seq<char>, ResolveErrorView>(node_addr)
            &&& !before.cordoned@.contains(node_id)
            &&& standby_node_id is Some <==> standby_addr is Some
            &&& template.volumes.len() == 0 ==> standby_node_id is None
            &&& standby_node_id matches Some(standby) ==> standby != node_id
                && before.registry@.replicate_addr(standby) == standby_addr
            &&& i < j < out.reply->Actions_0@.len() ==> (out.reply->Actions_0@[j]@ matches ReplicaActionView::Schedule {
                replica_name: other_name,
                node_id: other_node,
                address: other_address,
                ..
            } ==> other_name != replica_name && !(other_node == node_id && other_address == address))
        },
{
    let actions = views(out.reply->Actions_0@);
    let picks = choose|picks: Seq<Option<usize>>| #[trigger] before.reconciled(now, best, picks, actions);
    assert(before.pass_after(now, picks).actions == actions);
    assert(actions[i] == out.reply->Actions_0@[i]@);
    assert(before.creates(now, picks, i) is Some);
    law_created_replicas_are_wanted(&before, now, picks, i);
    law_replicas_go_to_schedulable_nodes(&before, now, picks, i);
    law_standby_is_another_node(&before, now, picks, i);
    if i < j < actions.len() {
        assert(actions[j] == out.reply->Actions_0@[j]@);
        if actions[j] is Schedule {
            assert(before.creates(now, picks, j) is Some);
            law_no_address_is_given_twice(&before, now, picks, i, j);
        }
    }
}

/// A command that asks, and commits nothing.
pub open spec fn is_question(command: Command) -> bool {
    match command {
        Command::List => true,
        Command::Resolve(_) => true,
        Command::ResolveOrSchedule(_) => true,
        Command::ResolvePlacement(_) => true,
        Command::OwnerOf(_) => true,
        Command::ReconcileServices => true,
        Command::DiscoverService(_) => true,
        Command::ListServices => true,
        Command::ListServiceProxyEntries => true,
        Command::PendingFencesForNode(_) => true,
        Command::PrepareForceRepin(_) => true,
        Command::PrepareDrainRepin(_) => true,
        _ => false,
    }
}

/// Questions change nothing. In particular, deciding what to schedule, or where to promote a replica, reserves
/// neither a node nor an address.
pub proof fn law_questions_change_nothing<F: Fn(&Vec<NodeResources>) -> Option<usize>>(
    before: ControlPlane,
    command: Command,
    now: u64,
    best: F,
    after: ControlPlane,
    out: Outcome,
)
    requires
        is_question(command),
        handled(before, command, now, best, after, out),
    ensures
        after == before,
        out.persist is None,
{
}

/// A command that changes a table of the control plane says that its file has to be written. The nodes are not
/// written down: they register anew.
pub proof fn law_changes_are_written_down<F: Fn(&Vec<NodeResources>) -> Option<usize>>(
    before: ControlPlane,
    command: Command,
    now: u64,
    best: F,
    after: ControlPlane,
    out: Outcome,
)
    requires
        handled(before, command, now, best, after, out),
    ensures
        after.placements != before.placements ==> out.persist == Some(StateFile::Placements),
        after.services@ != before.services@ ==> out.persist == Some(StateFile::Services),
        after.used_addresses != before.used_addresses ==> out.persist == Some(StateFile::UsedAddresses),
        after.standbys != before.standbys ==> out.persist == Some(StateFile::Standbys),
        after.pending_fences != before.pending_fences ==> out.persist == Some(StateFile::PendingFences),
        after.cordoned != before.cordoned ==> out.persist == Some(StateFile::Cordoned),
{
}

/// The placements are read back: from what was written down of them, in whatever order it comes, no placement is
/// lost, and no generation falls back.
pub proof fn law_placements_are_read_back(
    before: Placements,
    jails: Seq<(String, String)>,
    generations: Seq<(String, u64)>,
    read_jails: Seq<(String, String)>,
    read_generations: Seq<(String, u64)>,
    after: Placements,
)
    requires
        texts_of(pairs_map(jails)) == before.nodes(),
        ascending(jails),
        pairs_map(generations) == before.counts(),
        ascending(generations),
        same_elements(texts_in(jails), texts_in(read_jails)),
        same_elements(numbers_in(generations), numbers_in(read_generations)),
        after.nodes() == texts_of(pairs_map(read_jails)),
        after.counts() == pairs_map(read_generations),
    ensures
        after.nodes() == before.nodes(),
        after.counts() == before.counts(),
        forall|name: Seq<char>| #[trigger] after.count(name) == before.count(name),
{
    lemma_texts_are_read_back(jails, read_jails);
    lemma_numbers_in(generations);
    lemma_numbers_in(read_generations);
    assert(distinct_keys(numbers_in(generations))) by {
        lemma_distinct(generations);
        assert forall|i: int, j: int| 0 <= i < j < generations.len() implies (#[trigger] numbers_in(generations)[i]).0
            != (#[trigger] numbers_in(generations)[j]).0 by {
            assert(generations[i].0@ != generations[j].0@);
        }
    }
    lemma_any_order(numbers_in(generations), numbers_in(read_generations));
}

/// A table of replicas and nodes is read back: from what was written down of it, in whatever order it comes, it is
/// the same table.
pub proof fn law_standbys_are_read_back(
    before: Standbys,
    written: Seq<(String, String)>,
    read: Seq<(String, String)>,
    after: Standbys,
)
    requires
        texts_of(pairs_map(written)) == before@,
        ascending(written),
        same_elements(texts_in(written), texts_in(read)),
        after@ == texts_of(pairs_map(read)),
    ensures
        after@ == before@,
{
    lemma_texts_are_read_back(written, read);
}

/// The pending fences are read back: from what was written down of them, in whatever order it comes, they are the
/// same.
pub proof fn law_fences_are_read_back(
    before: PendingFences,
    written: Seq<(String, String)>,
    read: Seq<(String, String)>,
    after: PendingFences,
)
    requires
        texts_of(pairs_map(written)) == before@,
        ascending(written),
        same_elements(texts_in(written), texts_in(read)),
        after@ == texts_of(pairs_map(read)),
    ensures
        after@ == before@,
{
    lemma_texts_are_read_back(written, read);
}

/// The addresses are read back: from what was written down of them, in whatever order it comes, every replica has
/// its own again.
pub proof fn law_addresses_are_read_back(
    before: UsedAddresses,
    written: Seq<(String, String, u32)>,
    read: Seq<(String, String, u32)>,
    after: UsedAddresses,
)
    requires
        leases_map(written) == before@,
        forall|i: int, j: int|
            0 <= i < j < written.len() ==> str_before((#[trigger] written[i]).0@, (#[trigger] written[j]).0@),
        same_elements(leases_in(written), leases_in(read)),
        after@ == leases_map(read),
    ensures
        after@ == before@,
{
    lemma_leases_in(written);
    lemma_leases_in(read);
    assert forall|i: int, j: int| 0 <= i < j < written.len() implies (#[trigger] leases_in(written)[i]).0 != (
    #[trigger] leases_in(written)[j]).0 by {
        lemma_str_before_order(written[i].0@, written[j].0@, written[i].0@);
        assert(str_before(written[i].0@, written[j].0@));
    }
    lemma_any_order(leases_in(written), leases_in(read));
}

/// The services are read back: from the services as they are listed, in whatever order they come, they are the same.
pub proof fn law_services_are_read_back(before: Services, read: Seq<(String, ServiceRecord)>, after: Services)
    requires
        before.wf(),
        same_elements(before.listed(), records_in(read)),
        after@ == pairs_map(read).map_values(|s: ServiceRecord| s@),
    ensures
        after@ == before@,
{
    before.lemma_listed();
    let listed = before.listed();
    lemma_records_in(read);
    assert forall|i: int, j: int| 0 <= i < j < listed.len() implies (#[trigger] listed[i]).0 != (
    #[trigger] listed[j]).0 by {
        lemma_str_before_order(listed[i].0, listed[j].0, listed[i].0);
    }
    lemma_any_order(listed, records_in(read));
    before.lemma_listed_map();
}

/// The cordoned nodes are read back: from their ids, in whatever order they come, they are the same.
pub proof fn law_cordoned_nodes_are_read_back(
    before: Cordoned,
    written: Seq<Seq<char>>,
    read: Seq<Seq<char>>,
    after: Cordoned,
)
    requires
        forall|id: Seq<char>| before@.contains(id) <==> exists|i: int| 0 <= i < written.len() && #[trigger] written[i] == id,
        same_elements(written, read),
        forall|id: Seq<char>| after@.contains(id) <==> exists|i: int| 0 <= i < read.len() && #[trigger] read[i] == id,
    ensures
        after@ == before@,
{
    assert forall|id: Seq<char>| after@.contains(id) <==> before@.contains(id) by {
        assert(written.contains(id) <==> read.contains(id));
        if before@.contains(id) {
            let i = choose|i: int| 0 <= i < written.len() && #[trigger] written[i] == id;
            assert(written.contains(id));
            let j = choose|j: int| 0 <= j < read.len() && read[j] == id;
            assert(read[j] == id);
        }
        if after@.contains(id) {
            let j = choose|j: int| 0 <= j < read.len() && #[trigger] read[j] == id;
            assert(read.contains(id));
            let i = choose|i: int| 0 <= i < written.len() && written[i] == id;
            assert(written[i] == id);
        }
    }
    assert(after@ =~= before@);
}

proof fn lemma_distinct<V>(pairs: Seq<(String, V)>)
    requires
        ascending(pairs),
    ensures
        forall|i: int, j: int| 0 <= i < j < pairs.len() ==> (#[trigger] pairs[i]).0@ != (#[trigger] pairs[j]).0@,
{
    assert forall|i: int, j: int| 0 <= i < j < pairs.len() implies (#[trigger] pairs[i]).0@ != (
    #[trigger] pairs[j]).0@ by {
        lemma_str_before_order(pairs[i].0@, pairs[j].0@, pairs[i].0@);
    }
}

proof fn lemma_texts_are_read_back(written: Seq<(String, String)>, read: Seq<(String, String)>)
    requires
        ascending(written),
        same_elements(texts_in(written), texts_in(read)),
    ensures
        texts_of(pairs_map(written)) == texts_of(pairs_map(read)),
{
    lemma_texts_in(written);
    lemma_texts_in(read);
    lemma_distinct(written);
    assert forall|i: int, j: int| 0 <= i < j < written.len() implies (#[trigger] texts_in(written)[i]).0 != (
    #[trigger] texts_in(written)[j]).0 by {
        assert(written[i].0@ != written[j].0@);
    }
    lemma_any_order(texts_in(written), texts_in(read));
    assert(texts_of(pairs_map(written)) =~= map_from(texts_in(written)));
    assert(texts_of(pairs_map(read)) =~= map_from(texts_in(read)));
}

} // verus!
