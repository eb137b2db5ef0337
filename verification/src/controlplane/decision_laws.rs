//! What a pass over the services decides, told by its actions alone: each of them follows from the tables and from the
//! actions before it.

use crate::controlplane::answer_laws::{
    chosen_by, is_full, is_lowest_unused, is_replica, is_up, lemma_is_replica, lemma_lowest_unused, lemma_one_owner,
    lemma_preferred, lemma_takers, lemma_up, lemma_written_replica, may_be_picked, placed_at, preferred, takers,
    written_replica,
};
use crate::controlplane::job_laws::{comes_before, lemma_jobs, lemma_jobs_ascend, lemma_jobs_complete, lemma_present};
use crate::controlplane::reconcile::{JobView, PassView, PlacedView, ReplicaActionView};
use crate::controlplane::reconcile_laws::{
    by_service, distinct_places, distinct_removals, gives_replica, given_at, has_replica, service_at,
};
use crate::controlplane::scheduler::{picked, NodeResources, NodeResourcesView};
use crate::controlplane::services::{hosts_of, replica_index_of, replica_name_of};
use crate::controlplane::worker::{handled, may_pick, Command, ControlPlane, Outcome};
use crate::resources::memory_bytes;
use crate::views::views;
use vstd::prelude::*;

verus! {

/// The replicas that some actions put on a node take up what their templates say, in the order of the actions.
pub open spec fn burdened(node: NodeResourcesView, actions: Seq<ReplicaActionView>) -> NodeResourcesView
    decreases actions.len(),
{
    if actions.len() == 0 {
        node
    } else {
        let prior = burdened(node, actions.drop_last());
        match actions.last() {
            ReplicaActionView::Schedule { node_id, template, .. } => if node_id == node.id {
                NodeResourcesView {
                    spent_cpu: prior.spent_cpu.push(template.resources.cpu),
                    spent_memory: match memory_bytes(template.resources.memory) {
                        Some(bytes) => prior.spent_memory.push(bytes as u64),
                        None => prior.spent_memory,
                    },
                    ..prior
                }
            } else {
                prior
            },
            ReplicaActionView::TearDown { .. } => prior,
        }
    }
}

/// The recorded addresses with those that some actions give out.
pub open spec fn leased(
    used: Map<Seq<char>, (Seq<char>, u32)>,
    actions: Seq<ReplicaActionView>,
) -> Map<Seq<char>, (Seq<char>, u32)>
    decreases actions.len(),
{
    if actions.len() == 0 {
        used
    } else {
        let prior = leased(used, actions.drop_last());
        match actions.last() {
            ReplicaActionView::Schedule { replica_name, node_id, address, .. } => prior.insert(
                replica_name,
                (node_id, address),
            ),
            ReplicaActionView::TearDown { .. } => prior,
        }
    }
}

/// An action puts a replica of a service on a node.
pub open spec fn puts(action: ReplicaActionView, service: Seq<char>, node: Seq<char>) -> bool {
    action matches ReplicaActionView::Schedule { replica_name, node_id, .. } && node_id == node && is_replica(
        service,
        replica_name,
    )
}

/// A node has a replica of a service: one is placed there, or one of some actions puts one there.
pub open spec fn hosts(state: ControlPlane, service: Seq<char>, actions: Seq<ReplicaActionView>, node: Seq<char>) -> bool {
    ||| exists|jail: Seq<char>|
        #[trigger] state.placements.nodes().dom().contains(jail) && state.placements.nodes()[jail] == node
            && is_replica(service, jail)
    ||| exists|j: int| 0 <= j < actions.len() && puts(#[trigger] actions[j], service, node)
}

/// The nodes that are offered for a replica of a service after some actions: those without a replica of it, or all if
/// every node has one, each with what the actions have put on it.
pub open spec fn offered(
    state: ControlPlane,
    nodes: Seq<NodeResourcesView>,
    service: Seq<char>,
    actions: Seq<ReplicaActionView>,
) -> Seq<NodeResourcesView> {
    preferred(
        Seq::new(nodes.len(), |n: int| burdened(nodes[n], actions)),
        Set::new(|node: Seq<char>| hosts(state, service, actions, node)),
    )
}

/// An action that creates a replica puts it on the node that `best` picks of those that are offered, at the lowest
/// address that is left there, and says where that node is.
pub open spec fn is_located<F: Fn(&Vec<NodeResources>) -> Option<usize>>(
    state: ControlPlane,
    nodes: Seq<NodeResourcesView>,
    best: F,
    now: u64,
    actions: Seq<ReplicaActionView>,
    i: int,
) -> bool {
    actions[i] matches ReplicaActionView::Schedule { replica_name, node_id, node_addr, address, prefix_len, .. } ==> {
        let node = state.registry@.nodes[node_id];
        &&& is_up(state.registry@, node_id, now)
        &&& node_addr == node.addr
        &&& prefix_len == node.pod_cidr.prefix_len
        &&& is_lowest_unused(node.pod_cidr, node_id, leased(state.used_addresses@, actions.take(i)), address)
        &&& forall|service: Seq<char>| #[trigger]
            is_replica(service, replica_name) ==> may_be_picked(
                best,
                offered(state, nodes, service, actions.take(i)),
                Some(node_id),
            )
    }
}

/// The standby of a replica is the node that `best` picks of those that are offered once the replica has its own node,
/// at the address where that node takes in replication. Only if none is picked, or the replica's own node, or one that
/// takes in no replication, there is no standby.
pub open spec fn is_standby<F: Fn(&Vec<NodeResources>) -> Option<usize>>(
    state: ControlPlane,
    best: F,
    nodes: Seq<NodeResourcesView>,
    node_id: Seq<char>,
    standby_node_id: Option<Seq<char>>,
    standby_addr: Option<Seq<char>>,
) -> bool {
    exists|id: Option<Seq<char>>| #[trigger]
        may_be_picked(best, nodes, id) && if id is Some && id->0 != node_id
            && state.registry@.nodes[id->0].replicate_addr is Some {
            standby_node_id == id && standby_addr == state.registry@.nodes[id->0].replicate_addr
        } else {
            standby_node_id is None && standby_addr is None
        }
}

/// An action that creates a replica with volumes gives it a standby, whatever was decided before; one that creates a
/// replica without volumes gives it none.
pub open spec fn is_backed<F: Fn(&Vec<NodeResources>) -> Option<usize>>(
    state: ControlPlane,
    nodes: Seq<NodeResourcesView>,
    best: F,
    actions: Seq<ReplicaActionView>,
    i: int,
) -> bool {
    actions[i] matches ReplicaActionView::Schedule {
        replica_name,
        node_id,
        template,
        standby_node_id,
        standby_addr,
        ..
    } ==> {
        &&& template.volumes.len() == 0 ==> standby_node_id is None && standby_addr is None
        &&& template.volumes.len() > 0 ==> forall|service: Seq<char>| #[trigger]
            is_replica(service, replica_name) ==> is_standby(
                state,
                best,
                offered(state, nodes, service, actions.take(i + 1)),
                node_id,
                standby_node_id,
                standby_addr,
            )
    }
}

/// After some actions there is no room for a replica of a service: `best` picks none of the nodes that are offered, or
/// one on which no address is left.
pub open spec fn no_room<F: Fn(&Vec<NodeResources>) -> Option<usize>>(
    state: ControlPlane,
    nodes: Seq<NodeResourcesView>,
    best: F,
    service: Seq<char>,
    actions: Seq<ReplicaActionView>,
) -> bool {
    exists|id: Option<Seq<char>>| #[trigger]
        may_be_picked(best, offered(state, nodes, service, actions), id) && (id is Some ==> is_full(
            state.registry@.nodes[id->0].pod_cidr,
            id->0,
            leased(state.used_addresses@, actions),
        ))
}

/// A replica of this name is created by one of some actions, or there was no room for it when its turn came.
pub open spec fn is_seen_to<F: Fn(&Vec<NodeResources>) -> Option<usize>>(
    state: ControlPlane,
    nodes: Seq<NodeResourcesView>,
    best: F,
    name: Seq<char>,
    actions: Seq<ReplicaActionView>,
) -> bool {
    ||| exists|i: int|
        0 <= i < actions.len() && (#[trigger] actions[i]) is Schedule && actions[i]->Schedule_replica_name == name
    ||| exists|n: int| 0 <= n <= actions.len() && is_left_out(state, nodes, best, name, #[trigger] actions.take(n))
}

/// After some actions there is no room for a replica of this name.
pub open spec fn is_left_out<F: Fn(&Vec<NodeResources>) -> Option<usize>>(
    state: ControlPlane,
    nodes: Seq<NodeResourcesView>,
    best: F,
    name: Seq<char>,
    actions: Seq<ReplicaActionView>,
) -> bool {
    forall|service: Seq<char>| #[trigger]
        is_replica(service, name) ==> no_room(state, nodes, best, service, actions)
}

/// Every action that creates a replica puts it where it belongs.
pub open spec fn all_located<F: Fn(&Vec<NodeResources>) -> Option<usize>>(
    state: ControlPlane,
    nodes: Seq<NodeResourcesView>,
    best: F,
    now: u64,
    actions: Seq<ReplicaActionView>,
) -> bool {
    forall|i: int| 0 <= i < actions.len() ==> #[trigger] is_located(state, nodes, best, now, actions, i)
}

/// Every action that creates a replica gives it the standby that it needs.
pub open spec fn all_backed<F: Fn(&Vec<NodeResources>) -> Option<usize>>(
    state: ControlPlane,
    nodes: Seq<NodeResourcesView>,
    best: F,
    actions: Seq<ReplicaActionView>,
) -> bool {
    forall|i: int| 0 <= i < actions.len() ==> #[trigger] is_backed(state, nodes, best, actions, i)
}

/// The actions of a pass, with the replica that waits for a standby.
spec fn so_far(p: PassView) -> Seq<ReplicaActionView> {
    match p.pending {
        Some(x) => p.actions.push(x.scheduled(None)),
        None => p.actions,
    }
}

/// What holds of a pass at every point.
spec fn is_faithful<F: Fn(&Vec<NodeResources>) -> Option<usize>>(
    state: ControlPlane,
    best: F,
    now: u64,
    p: PassView,
) -> bool {
    let nodes = state.schedulable(now);
    let all = so_far(p);
    let jobs = state.origin(now).jobs;
    &&& p.nodes == Seq::new(nodes.len(), |n: int| burdened(nodes[n], all))
    &&& p.used == leased(state.used_addresses@, all)
    &&& p.pending matches Some(x) ==> p.service is Some && is_replica(p.service->0, x.replica_name)
    &&& all_located(state, nodes, best, now, all)
    &&& all_backed(state, nodes, best, p.actions)
    &&& all_done(state, nodes, best, jobs, jobs.len() - p.jobs.len(), all)
    &&& in_turn(jobs, jobs.len() - p.jobs.len(), all)
}

/// An action does a job.
spec fn does(job: JobView, action: ReplicaActionView) -> bool {
    match (job, action) {
        (JobView::Place { replica_name, .. }, ReplicaActionView::Schedule { replica_name: name, .. }) => replica_name == name,
        (JobView::Remove { replica_name, .. }, ReplicaActionView::TearDown { replica_name: name, .. }) => replica_name == name,
        _ => false,
    }
}

/// Some actions do the first jobs, one after the other.
spec fn in_turn(jobs: Seq<JobView>, n: int, actions: Seq<ReplicaActionView>) -> bool {
    &&& forall|i: int, k: int|
        0 <= i < actions.len() && 0 <= k < jobs.len() && does(#[trigger] jobs[k], #[trigger] actions[i]) ==> k < n
    &&& forall|i: int, j: int, k: int, l: int|
        0 <= i < j < actions.len() && 0 <= k < jobs.len() && 0 <= l < jobs.len() && does(
            #[trigger] jobs[k],
            #[trigger] actions[i],
        ) && does(#[trigger] jobs[l], #[trigger] actions[j]) ==> k < l
}

/// One more action does the next job.
proof fn lemma_next_in_turn(jobs: Seq<JobView>, n: int, a: Seq<ReplicaActionView>, b: Seq<ReplicaActionView>)
    requires
        in_turn(jobs, n, a),
        0 <= n < jobs.len(),
        b.len() == a.len() + 1,
        b.drop_last() == a,
        does(jobs[n], b.last()),
        distinct_places(jobs),
        distinct_removals(jobs),
    ensures
        in_turn(jobs, n + 1, b),
{
    let m = a.len() as int;
    assert forall|i: int| 0 <= i < m implies #[trigger] b[i] == a[i] by {
        assert(b.drop_last()[i] == b[i]);
    }
    assert forall|k: int| 0 <= k < jobs.len() && does(#[trigger] jobs[k], b[m]) implies k == n by {
        if k < n {
            assert(jobs[k] is Place == jobs[n] is Place);
        } else if n < k {
            assert(jobs[k] is Place == jobs[n] is Place);
        }
    }
    assert forall|i: int, k: int|
        0 <= i < b.len() && 0 <= k < jobs.len() && does(#[trigger] jobs[k], #[trigger] b[i]) implies k < n + 1 by {
        if i < m {
            assert(does(jobs[k], a[i]));
        }
    }
    assert forall|i: int, j: int, k: int, l: int|
        0 <= i < j < b.len() && 0 <= k < jobs.len() && 0 <= l < jobs.len() && does(
            #[trigger] jobs[k],
            #[trigger] b[i],
        ) && does(#[trigger] jobs[l], #[trigger] b[j]) implies k < l by {
        assert(does(jobs[k], a[i]));
        if j < m {
            assert(does(jobs[l], a[j]));
        }
    }
}

/// Standbys do not matter for the turns.
proof fn lemma_same_turn(jobs: Seq<JobView>, n: int, a: Seq<ReplicaActionView>, b: Seq<ReplicaActionView>)
    requires
        in_turn(jobs, n, a),
        goes_on(a, b),
        a.len() == b.len(),
    ensures
        in_turn(jobs, n, b),
{
    assert forall|k: int, i: int| 0 <= i < a.len() && does(#[trigger] jobs[k], #[trigger] b[i]) implies does(
        jobs[k],
        a[i],
    ) by {
        assert(created(a[i]) == created(b[i]));
    }
}

/// The first jobs are done by some actions.
spec fn all_done<F: Fn(&Vec<NodeResources>) -> Option<usize>>(
    state: ControlPlane,
    nodes: Seq<NodeResourcesView>,
    best: F,
    jobs: Seq<JobView>,
    n: int,
    actions: Seq<ReplicaActionView>,
) -> bool {
    forall|k: int| 0 <= k < n ==> is_done(state, nodes, best, #[trigger] jobs[k], actions)
}

/// A job is done by some actions.
spec fn is_done<F: Fn(&Vec<NodeResources>) -> Option<usize>>(
    state: ControlPlane,
    nodes: Seq<NodeResourcesView>,
    best: F,
    job: JobView,
    actions: Seq<ReplicaActionView>,
) -> bool {
    match job {
        JobView::Begin { .. } => true,
        JobView::Place { replica_name, .. } => is_seen_to(state, nodes, best, replica_name, actions),
        JobView::Remove { replica_name, node_id, node_addr } => actions.contains(
            ReplicaActionView::TearDown { replica_name, node_id, node_addr },
        ),
    }
}

proof fn lemma_located_prefix<F: Fn(&Vec<NodeResources>) -> Option<usize>>(
    state: ControlPlane,
    nodes: Seq<NodeResourcesView>,
    best: F,
    now: u64,
    a: Seq<ReplicaActionView>,
    b: Seq<ReplicaActionView>,
    i: int,
)
    requires
        0 <= i < a.len(),
        i < b.len(),
        a.take(i) == b.take(i),
        created(a[i]) == created(b[i]),
        is_located(state, nodes, best, now, a, i),
    ensures
        is_located(state, nodes, best, now, b, i),
{
}

/// What an action creates, but for the standby.
spec fn created(action: ReplicaActionView) -> Option<PlacedView> {
    crate::controlplane::reconcile_laws::created_by(action)
}

proof fn lemma_done_stays<F: Fn(&Vec<NodeResources>) -> Option<usize>>(
    state: ControlPlane,
    nodes: Seq<NodeResourcesView>,
    best: F,
    job: JobView,
    a: Seq<ReplicaActionView>,
    b: Seq<ReplicaActionView>,
)
    requires
        goes_on(a, b),
        is_done(state, nodes, best, job, a),
    ensures
        is_done(state, nodes, best, job, b),
{
    match job {
        JobView::Begin { .. } => {},
        JobView::Place { replica_name, .. } => {
            if exists|i: int|
                0 <= i < a.len() && (#[trigger] a[i]) is Schedule && a[i]->Schedule_replica_name == replica_name {
                let i = choose|i: int|
                    0 <= i < a.len() && (#[trigger] a[i]) is Schedule && a[i]->Schedule_replica_name == replica_name;
                assert(created(a[i]) == created(b[i]));
                assert(b[i] is Schedule && b[i]->Schedule_replica_name == replica_name);
            } else {
                let n = choose|n: int|
                    0 <= n <= a.len() && is_left_out(state, nodes, best, replica_name, #[trigger] a.take(n));
                let x = a.take(n);
                let y = b.take(n);
                assert forall|i: int| 0 <= i < x.len() implies created(#[trigger] x[i]) == created(y[i]) by {
                    assert(x[i] == a[i] && y[i] == b[i]);
                }
                assert(same_effect(x, y));
                assert forall|service: Seq<char>| #[trigger] is_replica(service, replica_name) implies no_room(
                    state,
                    nodes,
                    best,
                    service,
                    b.take(n),
                ) by {
                    lemma_same_effect(state, nodes, service, a.take(n), b.take(n));
                    assert(no_room(state, nodes, best, service, a.take(n)));
                }
                assert(is_left_out(state, nodes, best, replica_name, b.take(n)));
            }
        },
        JobView::Remove { replica_name, node_id, node_addr } => {
            let action = ReplicaActionView::TearDown { replica_name, node_id, node_addr };
            let i = choose|i: int| 0 <= i < a.len() && a[i] == action;
            assert(b[i] == action);
        },
    }
}

/// A list of actions goes on from another; standbys may differ.
spec fn goes_on(a: Seq<ReplicaActionView>, b: Seq<ReplicaActionView>) -> bool {
    &&& a.len() <= b.len()
    &&& forall|i: int|
        0 <= i < a.len() ==> created(#[trigger] a[i]) == created(b[i]) && (a[i] is TearDown ==> b[i] == a[i])
}

/// Two lists of actions that differ at most in standbys.
spec fn same_effect(a: Seq<ReplicaActionView>, b: Seq<ReplicaActionView>) -> bool {
    &&& a.len() == b.len()
    &&& forall|i: int| 0 <= i < a.len() ==> created(#[trigger] a[i]) == created(b[i])
}

proof fn lemma_same_burden(
    node: NodeResourcesView,
    used: Map<Seq<char>, (Seq<char>, u32)>,
    a: Seq<ReplicaActionView>,
    b: Seq<ReplicaActionView>,
)
    requires
        same_effect(a, b),
    ensures
        burdened(node, a) == burdened(node, b),
        leased(used, a) == leased(used, b),
    decreases a.len(),
{
    if a.len() > 0 {
        let x = a.drop_last();
        let y = b.drop_last();
        assert forall|i: int| 0 <= i < x.len() implies created(#[trigger] x[i]) == created(y[i]) by {
            assert(a[i] == x[i] && b[i] == y[i]);
        }
        lemma_same_burden(node, used, x, y);
        assert(created(a[a.len() - 1]) == created(b[a.len() - 1]));
    }
}

proof fn lemma_same_effect(
    state: ControlPlane,
    nodes: Seq<NodeResourcesView>,
    service: Seq<char>,
    a: Seq<ReplicaActionView>,
    b: Seq<ReplicaActionView>,
)
    requires
        same_effect(a, b),
    ensures
        offered(state, nodes, service, a) == offered(state, nodes, service, b),
        leased(state.used_addresses@, a) == leased(state.used_addresses@, b),
{
    assert forall|n: Seq<char>| hosts(state, service, a, n) == #[trigger] hosts(state, service, b, n) by {
        assert(same_effect(b, a)) by {
            assert forall|i: int| 0 <= i < b.len() implies created(#[trigger] b[i]) == created(a[i]) by {
                assert(created(a[i]) == created(b[i]));
            }
        }
        if hosts(state, service, a, n) {
            lemma_same_hosts(state, service, a, b, n);
        }
        if hosts(state, service, b, n) {
            lemma_same_hosts(state, service, b, a, n);
        }
    }
    assert(Set::new(|n: Seq<char>| hosts(state, service, a, n)) =~= Set::new(
        |n: Seq<char>| hosts(state, service, b, n),
    ));
    assert forall|n: NodeResourcesView| burdened(n, a) == #[trigger] burdened(n, b) by {
        lemma_same_burden(n, state.used_addresses@, a, b);
    }
    assert(Seq::new(nodes.len(), |n: int| burdened(nodes[n], a)) =~= Seq::new(
        nodes.len(),
        |n: int| burdened(nodes[n], b),
    ));
    lemma_same_burden(arbitrary(), state.used_addresses@, a, b);
}

proof fn lemma_same_hosts(
    state: ControlPlane,
    service: Seq<char>,
    a: Seq<ReplicaActionView>,
    b: Seq<ReplicaActionView>,
    n: Seq<char>,
)
    requires
        same_effect(a, b),
        hosts(state, service, a, n),
    ensures
        hosts(state, service, b, n),
{
    if exists|j: int| 0 <= j < a.len() && puts(#[trigger] a[j], service, n) {
        let j = choose|j: int| 0 <= j < a.len() && puts(#[trigger] a[j], service, n);
        assert(created(a[j]) == created(b[j]));
        assert(puts(b[j], service, n));
    }
}

proof fn lemma_hosts_of(service: Seq<char>, placed: Seq<(Seq<char>, Seq<char>)>, node: Seq<char>)
    ensures
        hosts_of(service, placed).contains(node) <==> exists|k: int|
            0 <= k < placed.len() && (#[trigger] placed[k]).1 == node && replica_index_of(service, placed[k].0) is Some,
    decreases placed.len(),
{
    if placed.len() > 0 {
        let rest = placed.drop_last();
        lemma_hosts_of(service, rest, node);
        let n = placed.len() - 1;
        assert(placed[n] == placed.last());
        if hosts_of(service, rest).contains(node) {
            let k = choose|k: int|
                0 <= k < rest.len() && (#[trigger] rest[k]).1 == node && replica_index_of(service, rest[k].0) is Some;
            assert(placed[k] == rest[k]);
        }
        if exists|k: int|
            0 <= k < placed.len() && (#[trigger] placed[k]).1 == node && replica_index_of(service, placed[k].0) is Some {
            let k = choose|k: int|
                0 <= k < placed.len() && (#[trigger] placed[k]).1 == node && replica_index_of(
                    service,
                    placed[k].0,
                ) is Some;
            if k < n {
                assert(rest[k] == placed[k]);
            }
        }
    }
}

/// The busy nodes of a pass are those that have a replica of the current service.
proof fn lemma_busy(state: ControlPlane, now: u64, p: PassView, service: Seq<char>, node: Seq<char>)
    requires
        state.wf(),
        state.origin(now).spread(state.placements.placed(), p),
        p.service == Some(service),
    ensures
        p.busy.contains(node) <==> hosts(state, service, so_far(p), node),
{
    let placed = state.placements.placed();
    let all = so_far(p);
    let m = p.actions.len() as int;
    state.placements.lemma_placed();
    lemma_hosts_of(service, placed, node);
    assert(p.busy.contains(node) <==> has_replica(placed, p, service, m + 1, node));
    if hosts_of(service, placed).contains(node) {
        let k = choose|k: int|
            0 <= k < placed.len() && (#[trigger] placed[k]).1 == node && replica_index_of(service, placed[k].0) is Some;
        lemma_is_replica(service, placed[k].0);
        assert(state.placements.nodes().dom().contains(placed[k].0));
    } else if exists|j: int| j < m + 1 && #[trigger] gives_replica(p, service, j, node) {
        let j = choose|j: int| j < m + 1 && #[trigger] gives_replica(p, service, j, node);
        lemma_is_replica(service, given_at(p, j)->0.replica_name);
        assert(0 <= j < all.len());
        assert(puts(all[j], service, node));
    }
    if exists|jail: Seq<char>|
        #[trigger] state.placements.nodes().dom().contains(jail) && state.placements.nodes()[jail] == node
            && is_replica(service, jail) {
        let jail = choose|jail: Seq<char>|
            #[trigger] state.placements.nodes().dom().contains(jail) && state.placements.nodes()[jail] == node
                && is_replica(service, jail);
        lemma_is_replica(service, jail);
        let k = choose|k: int| 0 <= k < placed.len() && (#[trigger] placed[k]).0 == jail;
        assert(placed[k].1 == node);
    } else if exists|j: int| 0 <= j < all.len() && puts(#[trigger] all[j], service, node) {
        let j = choose|j: int| 0 <= j < all.len() && puts(#[trigger] all[j], service, node);
        lemma_is_replica(service, all[j]->Schedule_replica_name);
        assert(gives_replica(p, service, j, node));
    }
}

proof fn lemma_offer<F: Fn(&Vec<NodeResources>) -> Option<usize>>(
    state: ControlPlane,
    best: F,
    now: u64,
    p: PassView,
    service: Seq<char>,
)
    requires
        state.wf(),
        state.origin(now).spread(state.placements.placed(), p),
        is_faithful(state, best, now, p),
        p.service == Some(service),
    ensures
        p.candidates() == offered(state, state.schedulable(now), service, so_far(p)),
{
    let busy = Set::new(|node: Seq<char>| hosts(state, service, so_far(p), node));
    assert forall|node: Seq<char>| p.busy.contains(node) <==> #[trigger] busy.contains(node) by {
        lemma_busy(state, now, p, service, node);
    }
    assert(p.busy =~= busy);
    lemma_preferred(p.nodes, p.busy);
}

/// Going on with an action that ends a replica keeps a pass faithful.
proof fn lemma_settled_faithful<F: Fn(&Vec<NodeResources>) -> Option<usize>>(
    state: ControlPlane,
    best: F,
    now: u64,
    p: PassView,
)
    requires
        p.jobs.len() <= state.origin(now).jobs.len(),
        p.jobs == state.origin(now).jobs.skip(state.origin(now).jobs.len() - p.jobs.len()),
        distinct_places(state.origin(now).jobs),
        distinct_removals(state.origin(now).jobs),
        is_faithful(state, best, now, p),
    ensures
        is_faithful(state, best, now, p.settled()),
    decreases p.jobs.len(),
{
    let o = state.origin(now);
    let nodes = state.schedulable(now);
    if p.pending is None && p.jobs.len() > 0 {
        let base = o.jobs.len() - p.jobs.len();
        assert(p.jobs[0] == o.jobs[base]);
        assert(p.popped().jobs =~= o.jobs.skip(o.jobs.len() - p.popped().jobs.len()));
        match p.jobs[0] {
            JobView::Begin { service, hosts } => {
                let r = PassView { service: Some(service), busy: hosts, ..p.popped() };
                assert forall|k: int| 0 <= k < o.jobs.len() - r.jobs.len() implies is_done(
                    state,
                    nodes,
                    best,
                    #[trigger] o.jobs[k],
                    so_far(r),
                ) by {}
                assert(in_turn(o.jobs, base + 1, p.actions));
                assert(is_faithful(state, best, now, r));
                lemma_settled_faithful(state, best, now, r);
            },
            JobView::Remove { replica_name, node_id, node_addr } => {
                let action = ReplicaActionView::TearDown { replica_name, node_id, node_addr };
                let r = PassView { actions: p.actions.push(action), ..p.popped() };
                lemma_pushed(state, best, now, p, r, action);
                assert(r.actions[p.actions.len() as int] == action);
                assert(is_faithful(state, best, now, r));
                lemma_settled_faithful(state, best, now, r);
            },
            JobView::Place { .. } => {},
        }
    }
}

/// What stays true when an action ends a replica.
proof fn lemma_pushed<F: Fn(&Vec<NodeResources>) -> Option<usize>>(
    state: ControlPlane,
    best: F,
    now: u64,
    p: PassView,
    r: PassView,
    action: ReplicaActionView,
)
    requires
        is_faithful(state, best, now, p),
        p.pending is None,
        p.jobs.len() > 0,
        p.jobs.len() <= state.origin(now).jobs.len(),
        p.jobs[0] == state.origin(now).jobs[state.origin(now).jobs.len() - p.jobs.len()],
        distinct_places(state.origin(now).jobs),
        distinct_removals(state.origin(now).jobs),
        p.jobs[0] matches JobView::Remove { replica_name, node_id, node_addr } && action
            == (ReplicaActionView::TearDown { replica_name, node_id, node_addr }),
        r == (PassView { actions: p.actions.push(action), ..p.popped() }),
    ensures
        is_faithful(state, best, now, r),
{
    let o = state.origin(now);
    let nodes = state.schedulable(now);
    let a = p.actions;
    let b = r.actions;
    assert(b.drop_last() =~= a);
    assert(b.last() == action);
    lemma_next_in_turn(o.jobs, o.jobs.len() - p.jobs.len(), a, b);
    assert forall|n: NodeResourcesView| #[trigger] burdened(n, b) == burdened(n, a) by {}
    assert(r.nodes =~= Seq::new(nodes.len(), |n: int| burdened(nodes[n], b)));
    assert forall|i: int| 0 <= i < b.len() implies #[trigger] is_located(state, nodes, best, now, b, i) by {
        if i < a.len() {
            assert(is_located(state, nodes, best, now, a, i));
            assert(b.take(i) =~= a.take(i));
            lemma_located_prefix(state, nodes, best, now, a, b, i);
        }
    }
    assert forall|i: int| 0 <= i < b.len() implies #[trigger] is_backed(state, nodes, best, b, i) by {
        if i < a.len() {
            assert(is_backed(state, nodes, best, p.actions, i));
            assert(b.take(i + 1) =~= a.take(i + 1));
        }
    }
    assert(goes_on(a, b));
    assert forall|k: int| 0 <= k < o.jobs.len() - r.jobs.len() implies is_done(
        state,
        nodes,
        best,
        #[trigger] o.jobs[k],
        b,
    ) by {
        if k < o.jobs.len() - p.jobs.len() {
            lemma_done_stays(state, nodes, best, o.jobs[k], a, b);
        } else {
            assert(b[a.len() as int] == action);
        }
    }
}

/// Giving the waiting replica its standby keeps a pass faithful.
proof fn lemma_standby_faithful<F: Fn(&Vec<NodeResources>) -> Option<usize>>(
    state: ControlPlane,
    best: F,
    now: u64,
    p: PassView,
    pick: Option<usize>,
    r: PassView,
)
    requires
        state.wf(),
        state.origin(now).sound(p),
        state.origin(now).spread(state.placements.placed(), p),
        is_faithful(state, best, now, p),
        p.pending is Some,
        may_pick(best, p.candidates(), pick),
        r == (PassView {
            pending: None,
            actions: p.actions.push(p.pending->0.scheduled(p.standby(state.registry@, p.pending->0.node_id, pick))),
            ..p
        }),
    ensures
        is_faithful(state, best, now, r),
{
    let o = state.origin(now);
    let nodes = state.schedulable(now);
    let x = p.pending->0;
    let s = p.service->0;
    let a = so_far(p);
    let b = r.actions;
    let m = p.actions.len() as int;
    assert(same_effect(a, b));
    assert(goes_on(a, b));
    lemma_same_turn(o.jobs, o.jobs.len() - p.jobs.len(), a, b);
    lemma_same_effect(state, nodes, s, a, b);
    assert forall|n: NodeResourcesView| #[trigger] burdened(n, b) == burdened(n, a) by {
        lemma_same_burden(n, state.used_addresses@, a, b);
    }
    assert(r.nodes =~= Seq::new(nodes.len(), |n: int| burdened(nodes[n], b)));
    lemma_offer(state, best, now, p, s);
    let asked = offered(state, nodes, s, b);
    assert(chosen_by(best, asked, pick));
    let id = picked(asked, pick);
    assert(may_be_picked(best, asked, id));
    if id is Some {
        crate::controlplane::scheduler::lemma_candidates(p.nodes, p.busy);
        let c = p.candidates()[pick->0 as int];
        assert(p.nodes.contains(c));
        let n = choose|n: int| 0 <= n < p.nodes.len() && p.nodes[n] == c;
        assert(p.nodes[n].id == o.nodes[n].id);
        lemma_takers(state, now);
        assert(is_up(state.registry@, nodes[n].id, now));
        assert(state.registry@.nodes.dom().contains(id->0));
    }
    assert forall|i: int| 0 <= i < b.len() implies #[trigger] is_located(state, nodes, best, now, b, i) by {
        assert(is_located(state, nodes, best, now, a, i));
        assert(b.take(i) =~= a.take(i));
        lemma_located_prefix(state, nodes, best, now, a, b, i);
    }
    assert forall|i: int| 0 <= i < b.len() implies #[trigger] is_backed(state, nodes, best, b, i) by {
        if i < m {
            assert(is_backed(state, nodes, best, p.actions, i));
            assert(b.take(i + 1) =~= p.actions.take(i + 1));
        } else {
            assert(b.take(i + 1) =~= b);
            assert forall|service: Seq<char>| #[trigger] is_replica(service, x.replica_name) implies is_standby(
                state,
                best,
                offered(state, nodes, service, b.take(i + 1)),
                x.node_id,
                b[i]->standby_node_id,
                b[i]->standby_addr,
            ) by {
                lemma_one_owner(service, s, x.replica_name);
                assert(may_be_picked(best, asked, id));
            }
        }
    }
    assert forall|k: int| 0 <= k < o.jobs.len() - r.jobs.len() implies is_done(
        state,
        nodes,
        best,
        #[trigger] o.jobs[k],
        b,
    ) by {
        lemma_done_stays(state, nodes, best, o.jobs[k], a, b);
    }
}

/// Placing the next missing replica, or finding no room for it, keeps a pass faithful.
proof fn lemma_place_faithful<F: Fn(&Vec<NodeResources>) -> Option<usize>>(
    state: ControlPlane,
    best: F,
    now: u64,
    p: PassView,
    pick: Option<usize>,
    r: PassView,
)
    requires
        state.wf(),
        state.origin(now).sound(p),
        state.origin(now).spread(state.placements.placed(), p),
        by_service(state.origin(now).jobs, state.placements.placed()),
        distinct_places(state.origin(now).jobs),
        distinct_removals(state.origin(now).jobs),
        is_faithful(state, best, now, p),
        p.pending is None,
        p.jobs.len() > 0,
        may_pick(best, p.candidates(), pick),
        p.jobs[0] matches JobView::Place { replica_name, template, generation } && r == p.popped().placing(
            replica_name,
            template,
            generation,
            state.registry@,
            now,
            pick,
        ),
    ensures
        is_faithful(state, best, now, r),
{
    let o = state.origin(now);
    let nodes = state.schedulable(now);
    let base = o.jobs.len() - p.jobs.len();
    assert(p.jobs[0] == o.jobs[base]);
    let name = p.jobs[0]->Place_replica_name;
    let template = p.jobs[0]->Place_template;
    let s = service_at(o.jobs, base)->0;
    assert(p.service == Some(s));
    lemma_is_replica(s, name);
    let a = p.actions;
    lemma_offer(state, best, now, p, s);
    let asked = offered(state, nodes, s, a);
    assert(chosen_by(best, asked, pick));
    let id = picked(asked, pick);
    assert(may_be_picked(best, asked, id));
    let node = id->0;
    if id is Some {
        crate::controlplane::scheduler::lemma_candidates(p.nodes, p.busy);
        let c = p.candidates()[pick->0 as int];
        assert(p.nodes.contains(c));
        let n = choose|n: int| 0 <= n < p.nodes.len() && p.nodes[n] == c;
        assert(p.nodes[n].id == o.nodes[n].id);
        lemma_takers(state, now);
        assert(is_up(state.registry@, nodes[n].id, now));
        lemma_up(state.registry@, node, now);
        lemma_lowest_unused(state.registry@.nodes[node].pod_cidr, node, p.used);
    }
    let q = p.popped();
    if id is None || q.spot(state.registry@, now, node) is None {
        assert(r == q);
        assert(so_far(r) == a);
        assert(a.take(a.len() as int) =~= a);
        assert forall|service: Seq<char>| #[trigger] is_replica(service, name) implies no_room(
            state,
            nodes,
            best,
            service,
            a.take(a.len() as int),
        ) by {
            lemma_one_owner(service, s, name);
            assert(may_be_picked(best, asked, id));
        }
        assert(in_turn(o.jobs, base + 1, a));
        assert(is_left_out(state, nodes, best, name, a.take(a.len() as int)));
        assert(is_seen_to(state, nodes, best, name, a));
        assert forall|k: int| 0 <= k < o.jobs.len() - r.jobs.len() implies is_done(
            state,
            nodes,
            best,
            #[trigger] o.jobs[k],
            a,
        ) by {}
    } else {
        let b = so_far(r);
        let m = a.len() as int;
        assert(b.drop_last() =~= a);
        let action = b[m];
        assert(b.last() == action);
        lemma_next_in_turn(o.jobs, base, a, b);
        assert(goes_on(a, b));
        assert forall|n: NodeResourcesView| #[trigger] burdened(n, b) == (if n.id == node {
            burdened(n, a).charged(template.resources)
        } else {
            burdened(n, a)
        }) by {
            lemma_burdened_id(n, a);
        }
        assert forall|n: int| 0 <= n < nodes.len() implies #[trigger] r.nodes[n] == burdened(nodes[n], b) by {
            lemma_burdened_id(nodes[n], a);
        }
        assert(r.nodes =~= Seq::new(nodes.len(), |n: int| burdened(nodes[n], b)));
        assert(b.take(m) =~= a);
        assert forall|i: int| 0 <= i < b.len() implies #[trigger] is_located(state, nodes, best, now, b, i) by {
            if i < m {
                assert(is_located(state, nodes, best, now, a, i));
                assert(b.take(i) =~= a.take(i));
                lemma_located_prefix(state, nodes, best, now, a, b, i);
            } else {
                assert forall|service: Seq<char>| #[trigger] is_replica(service, name) implies may_be_picked(
                    best,
                    offered(state, nodes, service, b.take(i)),
                    Some(node),
                ) by {
                    lemma_one_owner(service, s, name);
                    assert(may_be_picked(best, asked, id));
                }
            }
        }
        assert forall|i: int| 0 <= i < r.actions.len() implies #[trigger] is_backed(state, nodes, best, r.actions, i) by {
            if i < m {
                assert(is_backed(state, nodes, best, p.actions, i));
                assert(r.actions.take(i + 1) =~= a.take(i + 1));
            }
        }
        assert forall|k: int| 0 <= k < o.jobs.len() - r.jobs.len() implies is_done(
            state,
            nodes,
            best,
            #[trigger] o.jobs[k],
            b,
        ) by {
            if k < base {
                lemma_done_stays(state, nodes, best, o.jobs[k], a, b);
            } else {
                assert(b[m] is Schedule && b[m]->Schedule_replica_name == name);
            }
        }
    }
}

proof fn lemma_burdened_id(node: NodeResourcesView, actions: Seq<ReplicaActionView>)
    ensures
        burdened(node, actions).id == node.id,
    decreases actions.len(),
{
    if actions.len() > 0 {
        lemma_burdened_id(node, actions.drop_last());
    }
}

/// What holds of the jobs of a pass.
proof fn lemma_origin_jobs(state: ControlPlane, now: u64)
    requires
        state.wf(),
    ensures
        distinct_places(state.origin(now).jobs),
        distinct_removals(state.origin(now).jobs),
        by_service(state.origin(now).jobs, state.placements.placed()),
{
    state.lemma_services_distinct();
    lemma_jobs(state.cluster(now), state.services.listed());
}

proof fn lemma_step_faithful<F: Fn(&Vec<NodeResources>) -> Option<usize>>(
    state: ControlPlane,
    best: F,
    now: u64,
    p: PassView,
    pick: Option<usize>,
)
    requires
        state.wf(),
        state.origin(now).sound(p),
        state.origin(now).spread(state.placements.placed(), p),
        is_faithful(state, best, now, p),
        may_pick(best, p.candidates(), pick),
    ensures
        is_faithful(state, best, now, p.step(state.registry@, now, pick)),
{
    let o = state.origin(now);
    lemma_origin_jobs(state, now);
    match p.pending {
        Some(x) => {
            let r = PassView {
                pending: None,
                actions: p.actions.push(x.scheduled(p.standby(state.registry@, x.node_id, pick))),
                ..p
            };
            lemma_standby_faithful(state, best, now, p, pick, r);
            lemma_settled_faithful(state, best, now, r);
        },
        None => {
            if p.jobs.len() > 0 {
                match p.jobs[0] {
                    JobView::Place { replica_name, template, generation } => {
                        let r = p.popped().placing(replica_name, template, generation, state.registry@, now, pick);
                        assert(r.jobs =~= o.jobs.skip(o.jobs.len() - r.jobs.len()));
                        lemma_place_faithful(state, best, now, p, pick, r);
                        lemma_settled_faithful(state, best, now, r);
                    },
                    _ => {
                        lemma_settled_faithful(state, best, now, p);
                    },
                }
            }
        },
    }
}

proof fn lemma_run_faithful<F: Fn(&Vec<NodeResources>) -> Option<usize>>(
    state: ControlPlane,
    best: F,
    now: u64,
    picks: Seq<Option<usize>>,
)
    requires
        state.wf(),
        forall|k: int|
            0 <= k < picks.len() ==> may_pick(
                best,
                state.pass(now).run(state.registry@, now, picks.take(k)).candidates(),
                #[trigger] picks[k],
            ),
    ensures
        is_faithful(state, best, now, state.pass_after(now, picks)),
    decreases picks.len(),
{
    if picks.len() == 0 {
        let o = state.origin(now);
        let nodes = state.schedulable(now);
        let p = PassView {
            nodes: o.nodes,
            used: o.used,
            service: None,
            busy: Set::empty(),
            jobs: o.jobs,
            pending: None,
            actions: Seq::empty(),
        };
        assert(p.jobs =~= o.jobs.skip(0));
        assert(p.nodes =~= Seq::new(nodes.len(), |n: int| burdened(nodes[n], so_far(p))));
        lemma_origin_jobs(state, now);
        lemma_settled_faithful(state, best, now, p);
    } else {
        let rest = picks.drop_last();
        assert forall|k: int| 0 <= k < rest.len() implies may_pick(
            best,
            state.pass(now).run(state.registry@, now, rest.take(k)).candidates(),
            #[trigger] rest[k],
        ) by {
            assert(rest.take(k) =~= picks.take(k));
            assert(picks[k] == rest[k]);
        }
        lemma_run_faithful(state, best, now, rest);
        state.lemma_pass(now, rest);
        let p = state.pass_after(now, rest);
        assert(picks.take(picks.len() - 1) =~= rest);
        assert(picks.last() == picks[picks.len() - 1]);
        lemma_step_faithful(state, best, now, p, picks.last());
    }
}

/// Every replica that a pass creates is on the node that `best` picks for it, at the lowest address that is left there,
/// and has the standby that `best` picks for it if it has volumes, whatever was decided earlier in the pass.
pub proof fn law_each_decision_follows_the_picks<F: Fn(&Vec<NodeResources>) -> Option<usize>>(
    before: ControlPlane,
    now: u64,
    best: F,
    after: ControlPlane,
    out: Outcome,
)
    requires
        before.wf(),
        handled(before, Command::ReconcileServices, now, best, after, out),
    ensures
        out.reply is Actions,
        exists|nodes: Seq<NodeResourcesView>| #[trigger]
            takers(before, now, nodes) && all_located(before, nodes, best, now, views(out.reply->Actions_0@))
                && all_backed(before, nodes, best, views(out.reply->Actions_0@)),
{
    let actions = views(out.reply->Actions_0@);
    let picks = choose|picks: Seq<Option<usize>>| #[trigger] before.reconciled(now, best, picks, actions);
    lemma_run_faithful(before, best, now, picks);
    lemma_takers(before, now);
    let nodes = before.schedulable(now);
    assert(so_far(before.pass_after(now, picks)) == actions);
}

/// A placed replica of a service counts as there: a stateless one while its node is up, one with volumes always.
pub open spec fn is_there(state: ControlPlane, service: Seq<char>, index: u32, now: u64) -> bool {
    let jail = written_replica(service, index);
    &&& state.placements.nodes().dom().contains(jail)
    &&& state.services@[service].template.volumes.len() > 0 || is_up(
        state.registry@,
        state.placements.nodes()[jail],
        now,
    )
}

/// A pass creates exactly the replicas that are wanted and not there, but for those that there was no room for, and ends
/// exactly the replicas that are there and not wanted and whose nodes are up, where they are.
pub proof fn law_reconciling_is_complete<F: Fn(&Vec<NodeResources>) -> Option<usize>>(
    before: ControlPlane,
    now: u64,
    best: F,
    after: ControlPlane,
    out: Outcome,
)
    requires
        before.wf(),
        before.placements.countable(),
        handled(before, Command::ReconcileServices, now, best, after, out),
    ensures
        out.reply is Actions,
        ({
            let actions = views(out.reply->Actions_0@);
            &&& exists|nodes: Seq<NodeResourcesView>| #[trigger]
                takers(before, now, nodes) && forall|service: Seq<char>, index: u32|
                    before.services@.dom().contains(service) && index < before.services@[service].desired_replicas
                        && !is_there(before, service, index, now) ==> is_seen_to(
                        before,
                        nodes,
                        best,
                        #[trigger] written_replica(service, index),
                        actions,
                    )
            &&& forall|service: Seq<char>, index: u32|
                before.services@.dom().contains(service) && index >= before.services@[service].desired_replicas
                    && #[trigger] is_there(before, service, index, now) && is_up(
                    before.registry@,
                    before.placements.nodes()[written_replica(service, index)],
                    now,
                ) ==> exists|i: int|
                    0 <= i < actions.len() && (#[trigger] actions[i]) is TearDown && actions[i]->TearDown_replica_name
                        == written_replica(service, index)
            &&& forall|i: int|
                0 <= i < actions.len() ==> match #[trigger] actions[i] {
                    ReplicaActionView::Schedule { replica_name, template, generation, .. } => exists|
                        service: Seq<char>,
                        index: u32,
                    |
                        {
                            &&& replica_name == #[trigger] written_replica(service, index)
                            &&& before.services@.dom().contains(service)
                            &&& index < before.services@[service].desired_replicas
                            &&& !is_there(before, service, index, now)
                            &&& template == before.services@[service].template
                            &&& generation == before.placements.count(replica_name) + 1
                        },
                    ReplicaActionView::TearDown { replica_name, node_id, node_addr } => placed_at(
                        before,
                        replica_name,
                        node_id,
                        node_addr,
                        now,
                    ) && exists|service: Seq<char>, index: u32|
                        {
                            &&& replica_name == #[trigger] written_replica(service, index)
                            &&& before.services@.dom().contains(service)
                            &&& index >= before.services@[service].desired_replicas
                        },
                }
            &&& forall|i: int, j: int|
                0 <= i < j < actions.len() ==> {
                    &&& (#[trigger] actions[i]) is Schedule && (#[trigger] actions[j]) is Schedule
                        ==> actions[i]->Schedule_replica_name != actions[j]->Schedule_replica_name
                    &&& actions[i] is TearDown && actions[j] is TearDown ==> actions[i]->TearDown_replica_name
                        != actions[j]->TearDown_replica_name
                }
        }),
{
    let actions = views(out.reply->Actions_0@);
    let picks = choose|picks: Seq<Option<usize>>| #[trigger] before.reconciled(now, best, picks, actions);
    lemma_run_faithful(before, best, now, picks);
    before.lemma_pass(now, picks);
    lemma_takers(before, now);
    let nodes = before.schedulable(now);
    let p = before.pass_after(now, picks);
    let o = before.origin(now);
    assert(so_far(p) == actions);
    let c = before.cluster(now);
    let listed = before.services.listed();
    before.services.lemma_listed();
    before.lemma_services_distinct();
    lemma_jobs(c, listed);
    lemma_jobs_complete(c, listed);
    assert forall|service: Seq<char>, index: u32|
        before.services@.dom().contains(service) && index < before.services@[service].desired_replicas && !is_there(
            before,
            service,
            index,
            now,
        ) implies is_seen_to(before, nodes, best, #[trigger] written_replica(service, index), actions) by {
        let m = choose|m: int| 0 <= m < listed.len() && (#[trigger] listed[m]).0 == service;
        lemma_there(before, service, index, now);
        lemma_written_replica(service, index);
        assert(!c.present(listed[m].0, listed[m].1).contains(index));
        let k = choose|k: int|
            0 <= k < o.jobs.len() && (#[trigger] o.jobs[k]) is Place && o.jobs[k]->Place_replica_name
                == replica_name_of(service, index);
        assert(is_done(before, nodes, best, o.jobs[k], actions));
    }
    assert forall|service: Seq<char>, index: u32|
        before.services@.dom().contains(service) && index >= before.services@[service].desired_replicas
            && #[trigger] is_there(before, service, index, now) && is_up(
            before.registry@,
            before.placements.nodes()[written_replica(service, index)],
            now,
        ) implies exists|i: int|
        0 <= i < actions.len() && (#[trigger] actions[i]) is TearDown && actions[i]->TearDown_replica_name
            == written_replica(service, index) by {
        let m = choose|m: int| 0 <= m < listed.len() && (#[trigger] listed[m]).0 == service;
        lemma_there(before, service, index, now);
        lemma_written_replica(service, index);
        let name = replica_name_of(service, index);
        lemma_up(before.registry@, before.placements.nodes()[name], now);
        assert(c.present(listed[m].0, listed[m].1).contains(index));
        let k = choose|k: int|
            0 <= k < o.jobs.len() && (#[trigger] o.jobs[k]) is Remove && o.jobs[k]->Remove_replica_name == name;
        assert(is_done(before, nodes, best, o.jobs[k], actions));
        let action = ReplicaActionView::TearDown {
            replica_name: name,
            node_id: o.jobs[k]->Remove_node_id,
            node_addr: o.jobs[k]->Remove_node_addr,
        };
        let i = choose|i: int| 0 <= i < actions.len() && actions[i] == action;
        assert(actions[i] is TearDown);
    }
    assert forall|i: int| 0 <= i < actions.len() implies match #[trigger] actions[i] {
        ReplicaActionView::Schedule { replica_name, template, generation, .. } => exists|service: Seq<char>, index: u32|
            {
                &&& replica_name == #[trigger] written_replica(service, index)
                &&& before.services@.dom().contains(service)
                &&& index < before.services@[service].desired_replicas
                &&& !is_there(before, service, index, now)
                &&& template == before.services@[service].template
                &&& generation == before.placements.count(replica_name) + 1
            },
        ReplicaActionView::TearDown { replica_name, node_id, node_addr } => placed_at(
            before,
            replica_name,
            node_id,
            node_addr,
            now,
        ) && exists|service: Seq<char>, index: u32|
            {
                &&& replica_name == #[trigger] written_replica(service, index)
                &&& before.services@.dom().contains(service)
                &&& index >= before.services@[service].desired_replicas
            },
    } by {
        if let ReplicaActionView::TearDown { replica_name, node_id, node_addr } = actions[i] {
            crate::controlplane::laws::law_teardowns_are_surplus(&before, now, picks, i);
            lemma_up(before.registry@, node_id, now);
            let (service, index) = choose|service: Seq<char>, index: u32|
                #![trigger replica_name_of(service, index)]
                {
                    &&& before.services@.dom().contains(service)
                    &&& replica_name == replica_name_of(service, index)
                    &&& index >= before.services@[service].desired_replicas
                };
            lemma_written_replica(service, index);
            assert(replica_name == written_replica(service, index));
        } else {
            assert(before.creates(now, picks, i) is Some);
            let x = before.creates(now, picks, i)->0;
            crate::controlplane::laws::law_created_replicas_are_wanted(&before, now, picks, i);
            assert(given_at(p, i) == Some(x));
            before.lemma_lacking(now, x);
            let (m, index) = choose|m: int, index: u32|
                0 <= m < listed.len() && c.lacks(
                    #[trigger] listed[m],
                    index,
                    #[trigger] crate::controlplane::laws::place_of(x, index),
                );
            let service = listed[m].0;
            assert(before.services@.dom().contains(service));
            lemma_written_replica(service, index);
            lemma_there(before, service, index, now);
            assert(x.replica_name == written_replica(service, index));
        }
    }
    assert forall|i: int, j: int| 0 <= i < j < actions.len() implies {
        &&& (#[trigger] actions[i]) is Schedule && (#[trigger] actions[j]) is Schedule
            ==> actions[i]->Schedule_replica_name != actions[j]->Schedule_replica_name
        &&& actions[i] is TearDown && actions[j] is TearDown ==> actions[i]->TearDown_replica_name
            != actions[j]->TearDown_replica_name
    } by {
        if actions[i] is Schedule && actions[j] is Schedule {
            assert(given_at(p, i) is Some && given_at(p, j) is Some);
        }
        if actions[i] is TearDown && actions[j] is TearDown {
            lemma_distinct_ends(before, now, picks, i, j);
        }
    }
}

/// No replica is ended twice.
proof fn lemma_distinct_ends(state: ControlPlane, now: u64, picks: Seq<Option<usize>>, i: int, j: int)
    requires
        state.wf(),
        0 <= i < j < state.pass_after(now, picks).actions.len(),
        state.pass_after(now, picks).actions[i] is TearDown,
        state.pass_after(now, picks).actions[j] is TearDown,
    ensures
        state.pass_after(now, picks).actions[i]->TearDown_replica_name != state.pass_after(
            now,
            picks,
        ).actions[j]->TearDown_replica_name,
{
    let p = state.pass_after(now, picks);
    crate::controlplane::laws::law_teardowns_are_surplus(&state, now, picks, i);
    let name = p.actions[i]->TearDown_replica_name;
    if p.actions[j]->TearDown_replica_name == name {
        let (service, index) = choose|service: Seq<char>, index: u32|
            #![trigger replica_name_of(service, index)]
            {
                &&& state.services@.dom().contains(service)
                &&& name == replica_name_of(service, index)
                &&& index >= state.services@[service].desired_replicas
            };
        crate::controlplane::services::lemma_replica_index(service, index);
        crate::controlplane::laws::law_highest_index_goes_first(&state, now, picks, i, j, service);
    }
}

/// Being there is counting as present.
proof fn lemma_there(state: ControlPlane, service: Seq<char>, index: u32, now: u64)
    requires
        state.wf(),
        state.services@.dom().contains(service),
    ensures
        is_there(state, service, index, now) <==> state.cluster(now).present(
            service,
            state.services@[service],
        ).contains(index),
{
    let placed = state.placements.placed();
    let name = replica_name_of(service, index);
    let stateful = state.services@[service].template.volumes.len() > 0;
    lemma_written_replica(service, index);
    lemma_present(service, stateful, placed, state.registry@, now, index);
    state.placements.lemma_placed();
    lemma_up(state.registry@, state.placements.nodes()[name], now);
    if is_there(state, service, index, now) {
        let k = choose|k: int| 0 <= k < placed.len() && (#[trigger] placed[k]).0 == name;
        assert(placed[k].1 == state.placements.nodes()[name]);
    }
    if state.cluster(now).present(service, state.services@[service]).contains(index) {
        let k = choose|k: int|
            {
                &&& 0 <= k < placed.len()
                &&& (#[trigger] placed[k]).0 == name
                &&& stateful || state.registry@.resolve(placed[k].1, now) is Ok
            };
        assert(state.placements.nodes()[name] == placed[k].1);
    }
}

/// The replicas of one service are seen to in their order: of two that are created, the one with the lower index comes
/// first, and what is created comes before what is ended.
pub proof fn law_lower_replicas_come_first<F: Fn(&Vec<NodeResources>) -> Option<usize>>(
    before: ControlPlane,
    now: u64,
    best: F,
    after: ControlPlane,
    out: Outcome,
    service: Seq<char>,
    i: int,
    j: int,
    a: u32,
    b: u32,
)
    requires
        before.wf(),
        handled(before, Command::ReconcileServices, now, best, after, out),
        0 <= i < out.reply->Actions_0@.len(),
        0 <= j < out.reply->Actions_0@.len(),
        out.reply->Actions_0@[i]@ matches ReplicaActionView::Schedule { replica_name, .. } && replica_name == written_replica(
            service,
            a,
        ),
    ensures
        (out.reply->Actions_0@[j]@ matches ReplicaActionView::Schedule { replica_name, .. } && replica_name
            == written_replica(service, b)) && a < b ==> i < j,
        (out.reply->Actions_0@[j]@ matches ReplicaActionView::TearDown { replica_name, .. } && replica_name
            == written_replica(service, b)) ==> i < j,
{
    let actions = views(out.reply->Actions_0@);
    let picks = choose|picks: Seq<Option<usize>>| #[trigger] before.reconciled(now, best, picks, actions);
    lemma_run_faithful(before, best, now, picks);
    before.lemma_pass(now, picks);
    let p = before.pass_after(now, picks);
    let o = before.origin(now);
    assert(so_far(p) == actions);
    before.lemma_services_distinct();
    lemma_jobs(before.cluster(now), before.services.listed());
    lemma_jobs_ascend(before.cluster(now), before.services.listed());
    lemma_written_replica(service, a);
    lemma_written_replica(service, b);
    assert(actions[i] == out.reply->Actions_0@[i]@);
    assert(actions[j] == out.reply->Actions_0@[j]@);
    let k = lemma_job_of(before, now, picks, i);
    let l = lemma_job_of(before, now, picks, j);
    assert(does(o.jobs[k], actions[i]));
    assert(does(o.jobs[l], actions[j]));
    if actions[j] is Schedule && actions[j]->Schedule_replica_name == written_replica(service, b) && a < b {
        if j < i {
            assert(l < k);
            assert(comes_before(o.jobs[l], o.jobs[k]));
            crate::controlplane::services::lemma_replica_index(service, a);
            crate::controlplane::services::lemma_replica_index(service, b);
            assert(o.jobs[l]->Place_replica_name == replica_name_of(service, b));
        }
        if i == j {
            crate::controlplane::services::law_replica_names_are_distinct(service, a, service, b);
        }
    }
    if actions[j] is TearDown && actions[j]->TearDown_replica_name == written_replica(service, b) {
        if j < i {
            assert(l < k);
            assert(comes_before(o.jobs[l], o.jobs[k]));
            crate::controlplane::services::lemma_replica_index(service, a);
            crate::controlplane::services::lemma_replica_index(service, b);
        }
    }
}

/// Every action does a job.
proof fn lemma_job_of(state: ControlPlane, now: u64, picks: Seq<Option<usize>>, i: int) -> (k: int)
    requires
        state.wf(),
        0 <= i < state.pass_after(now, picks).actions.len(),
    ensures
        0 <= k < state.origin(now).jobs.len(),
        does(state.origin(now).jobs[k], state.pass_after(now, picks).actions[i]),
{
    state.lemma_pass(now, picks);
    let p = state.pass_after(now, picks);
    let o = state.origin(now);
    let action = p.actions[i];
    assert(o.well_backed(action));
    match action {
        ReplicaActionView::TearDown { replica_name, node_id, node_addr } => {
            let job = JobView::Remove { replica_name, node_id, node_addr };
            choose|k: int| 0 <= k < o.jobs.len() && o.jobs[k] == job
        },
        _ => {
            let x = given_at(p, i)->0;
            assert(given_at(p, i) is Some);
            assert(o.well_placed(x));
            let job = JobView::Place {
                replica_name: x.replica_name,
                template: x.template,
                generation: x.generation,
            };
            choose|k: int| 0 <= k < o.jobs.len() && o.jobs[k] == job
        },
    }
}

} // verus!
