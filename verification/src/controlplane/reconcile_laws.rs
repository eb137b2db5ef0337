//! What holds of every pass over the services, whichever nodes are picked.

use crate::controlplane::addresses::{is_free, lemma_first_free_is};
use crate::controlplane::reconcile::{JobView, PassView, PlacedView, ReplicaActionView};
use crate::controlplane::registry::RegistryView;
use crate::controlplane::scheduler::{lemma_candidates, nodes_charged, picked, NodeResourcesView};
use crate::controlplane::services::{hosts_of, law_replica_names_are_distinct, replica_index_of, replica_name_of};
use vstd::prelude::*;

verus! {

/// The replica that an action creates.
pub open spec fn created_by(action: ReplicaActionView) -> Option<PlacedView> {
    match action {
        ReplicaActionView::Schedule {
            replica_name,
            node_id,
            node_addr,
            template,
            address,
            prefix_len,
            standby_node_id,
            standby_addr,
            generation,
        } => Some(
            PlacedView { replica_name, node_id, node_addr, template, address, prefix_len, generation },
        ),
        ReplicaActionView::TearDown { .. } => None,
    }
}

/// The replica that a pass put on a node with its `i`-th action, or with the one that waits for a standby.
pub open spec fn given_at(p: PassView, i: int) -> Option<PlacedView> {
    if 0 <= i < p.actions.len() {
        created_by(p.actions[i])
    } else if i == p.actions.len() {
        p.pending
    } else {
        None
    }
}

/// A name that the pass has given a node.
pub open spec fn is_given(p: PassView, name: Seq<char>) -> bool {
    exists|i: int| (#[trigger] given_at(p, i)) matches Some(x) && x.replica_name == name
}

/// What a pass starts from.
pub struct Origin {
    pub nodes: Seq<NodeResourcesView>,
    pub used: Map<Seq<char>, (Seq<char>, u32)>,
    pub jobs: Seq<JobView>,
    pub registry: RegistryView,
    pub now: u64,
}

/// No two missing replicas have one name.
pub open spec fn distinct_places(jobs: Seq<JobView>) -> bool {
    forall|k: int, l: int|
        0 <= k < l < jobs.len() && (#[trigger] jobs[k]) is Place && (#[trigger] jobs[l]) is Place
            ==> jobs[k]->Place_replica_name != jobs[l]->Place_replica_name
}

/// No two surplus replicas have one name.
pub open spec fn distinct_removals(jobs: Seq<JobView>) -> bool {
    forall|k: int, l: int|
        0 <= k < l < jobs.len() && (#[trigger] jobs[k]) is Remove && (#[trigger] jobs[l]) is Remove
            ==> jobs[k]->Remove_replica_name != jobs[l]->Remove_replica_name
}

/// The tear-down is what the job asks for.
pub open spec fn is_job_of(job: JobView, action: ReplicaActionView) -> bool {
    match (job, action) {
        (
            JobView::Remove { replica_name, node_id, node_addr },
            ReplicaActionView::TearDown { replica_name: name, node_id: node, node_addr: addr },
        ) => replica_name == name && node_id == node && node_addr == addr,
        _ => false,
    }
}

impl Origin {
    pub open spec fn start(self) -> PassView {
        PassView::start(self.nodes, self.used, self.jobs)
    }

    pub open spec fn has_node(self, id: Seq<char>) -> bool {
        exists|n: int| 0 <= n < self.nodes.len() && (#[trigger] self.nodes[n]).id == id
    }

    /// The replica was missing, and went to a node that takes replicas, in the node's block.
    pub open spec fn well_placed(self, x: PlacedView) -> bool {
        &&& self.jobs.contains(
            JobView::Place { replica_name: x.replica_name, template: x.template, generation: x.generation },
        )
        &&& self.has_node(x.node_id)
        &&& self.registry.resolve(x.node_id, self.now) == Ok::<
            Seq<char>,
            crate::controlplane::registry::ResolveErrorView,
        >(x.node_addr)
        &&& self.registry.pod_cidr(x.node_id) matches Some(c) && c.prefix_len == x.prefix_len && c.assignable(
            x.address as int,
        )
    }

    /// The standby of an action is another node, which takes in replication; only replicas with
    /// volumes have one.
    pub open spec fn well_backed(self, action: ReplicaActionView) -> bool {
        match action {
            ReplicaActionView::Schedule { node_id, template, standby_node_id, standby_addr, .. } => match standby_node_id {
                Some(s) => {
                    &&& template.volumes.len() > 0
                    &&& s != node_id
                    &&& self.has_node(s)
                    &&& standby_addr is Some
                    &&& standby_addr == self.registry.replicate_addr(s)
                },
                None => standby_addr is None,
            },
            ReplicaActionView::TearDown { replica_name, node_id, node_addr } => self.jobs.contains(
                JobView::Remove { replica_name, node_id, node_addr },
            ),
        }
    }

    /// The tear-downs stand in the order of the jobs.
    pub open spec fn in_order(self, p: PassView) -> bool {
        &&& forall|i: int, k: int|
            0 <= i < p.actions.len() && 0 <= k < self.jobs.len() && is_job_of(
                #[trigger] self.jobs[k],
                #[trigger] p.actions[i],
            ) ==> k < self.jobs.len() - p.jobs.len()
        &&& forall|i: int, j: int, k: int, l: int|
            0 <= i < j < p.actions.len() && 0 <= k < self.jobs.len() && 0 <= l < self.jobs.len() && is_job_of(
                #[trigger] self.jobs[k],
                #[trigger] p.actions[i],
            ) && is_job_of(#[trigger] self.jobs[l], #[trigger] p.actions[j]) ==> k < l
    }

    /// What holds of the pass at every point.
    pub open spec fn sound(self, p: PassView) -> bool {
        &&& p.nodes.len() == self.nodes.len()
        &&& forall|n: int| 0 <= n < p.nodes.len() ==> (#[trigger] p.nodes[n]).id == self.nodes[n].id
        &&& p.jobs.len() <= self.jobs.len()
        &&& p.jobs == self.jobs.skip(self.jobs.len() - p.jobs.len())
        &&& p.pending matches Some(x) ==> x.template.volumes.len() > 0
        &&& forall|i: int, j: int|
            i < j && (#[trigger] given_at(p, i)) is Some && (#[trigger] given_at(p, j)) is Some ==> {
                let x = given_at(p, i)->0;
                let y = given_at(p, j)->0;
                x.replica_name != y.replica_name && !(x.node_id == y.node_id && x.address == y.address)
            }
        &&& forall|i: int, k: int|
            (#[trigger] given_at(p, i)) is Some && 0 <= k < p.jobs.len() && (#[trigger] p.jobs[k]) is Place
                ==> p.jobs[k]->Place_replica_name != given_at(p, i)->0.replica_name
        &&& forall|i: int|
            (#[trigger] given_at(p, i)) matches Some(x) ==> {
                &&& p.used.dom().contains(x.replica_name)
                &&& p.used[x.replica_name] == (x.node_id, x.address)
                &&& self.well_placed(x)
            }
        &&& forall|jail: Seq<char>| #[trigger]
            self.used.dom().contains(jail) ==> p.used.dom().contains(jail) && (p.used[jail] == self.used[jail]
                || is_given(p, jail))
        &&& forall|i: int, jail: Seq<char>|
            (#[trigger] given_at(p, i)) is Some && (#[trigger] self.used.dom().contains(jail)) && self.used[jail] == (
                given_at(p, i)->0.node_id,
                given_at(p, i)->0.address,
            ) ==> is_given(p, jail)
        &&& forall|i: int| 0 <= i < p.actions.len() ==> self.well_backed(#[trigger] p.actions[i])
    }
}

proof fn lemma_same_given(p: PassView, q: PassView)
    requires
        forall|i: int| #[trigger] given_at(q, i) == given_at(p, i),
    ensures
        forall|name: Seq<char>| is_given(p, name) == #[trigger] is_given(q, name),
{
    assert forall|name: Seq<char>| is_given(p, name) == #[trigger] is_given(q, name) by {
        if is_given(p, name) {
            let i = choose|i: int| (#[trigger] given_at(p, i)) matches Some(x) && x.replica_name == name;
            assert(given_at(q, i) == given_at(p, i));
        }
        if is_given(q, name) {
            let i = choose|i: int| (#[trigger] given_at(q, i)) matches Some(x) && x.replica_name == name;
            assert(given_at(q, i) == given_at(p, i));
        }
    }
}

/// Doing the first job keeps the pass sound, if it is one that needs no pick.
proof fn lemma_pop_sound(o: Origin, p: PassView, r: PassView)
    requires
        o.sound(p),
        p.pending is None,
        p.jobs.len() > 0,
        match p.jobs[0] {
            JobView::Begin { service, hosts } => r == (PassView { service: Some(service), busy: hosts, ..p.popped() }),
            JobView::Remove { replica_name, node_id, node_addr } => r == (PassView {
                actions: p.actions.push(ReplicaActionView::TearDown { replica_name, node_id, node_addr }),
                ..p.popped()
            }),
            JobView::Place { .. } => false,
        },
    ensures
        o.sound(r),
        forall|i: int| #[trigger] given_at(r, i) == given_at(p, i),
{
    assert(p.jobs[0] == o.jobs[o.jobs.len() - p.jobs.len()]);
    assert(r.jobs =~= o.jobs.skip(o.jobs.len() - r.jobs.len()));
    assert forall|k: int| 0 <= k < r.jobs.len() implies #[trigger] r.jobs[k] == p.jobs[k + 1] by {}
    assert forall|i: int| #[trigger] given_at(r, i) == given_at(p, i) by {}
    lemma_same_given(p, r);
    assert forall|i: int| 0 <= i < r.actions.len() implies o.well_backed(#[trigger] r.actions[i]) by {
        if i < p.actions.len() {
            assert(r.actions[i] == p.actions[i]);
        } else {
            assert(o.jobs.contains(p.jobs[0]));
        }
    }
}

/// Work that needs no pick keeps the pass sound.
proof fn lemma_settled_sound(o: Origin, p: PassView)
    requires
        o.sound(p),
    ensures
        o.sound(p.settled()),
    decreases p.jobs.len(),
{
    if p.pending is None && p.jobs.len() > 0 {
        match p.jobs[0] {
            JobView::Begin { service, hosts } => {
                let r = PassView { service: Some(service), busy: hosts, ..p.popped() };
                lemma_pop_sound(o, p, r);
                lemma_settled_sound(o, r);
            },
            JobView::Remove { replica_name, node_id, node_addr } => {
                let r = PassView {
                    actions: p.actions.push(ReplicaActionView::TearDown { replica_name, node_id, node_addr }),
                    ..p.popped()
                };
                lemma_pop_sound(o, p, r);
                lemma_settled_sound(o, r);
            },
            JobView::Place { .. } => {},
        }
    }
}

proof fn lemma_picked_is_a_node(o: Origin, p: PassView, pick: Option<usize>)
    requires
        o.sound(p),
    ensures
        picked(p.candidates(), pick) matches Some(id) ==> o.has_node(id),
{
    lemma_candidates(p.nodes, p.busy);
    if let Some(i) = pick {
        if i < p.candidates().len() {
            let c = p.candidates()[i as int];
            assert(p.nodes.contains(c));
            let n = choose|n: int| 0 <= n < p.nodes.len() && p.nodes[n] == c;
            assert(p.nodes[n].id == o.nodes[n].id);
        }
    }
}

/// Putting a missing replica on a node keeps the pass sound.
proof fn lemma_placing_sound(
    o: Origin,
    p: PassView,
    replica_name: Seq<char>,
    template: crate::jail::JailTemplateView,
    generation: u64,
    pick: Option<usize>,
)
    requires
        o.sound(p),
        p.pending is None,
        o.jobs.contains(JobView::Place { replica_name, template, generation }),
        forall|i: int| (#[trigger] given_at(p, i)) matches Some(x) ==> x.replica_name != replica_name,
        forall|k: int|
            0 <= k < p.jobs.len() && (#[trigger] p.jobs[k]) is Place ==> p.jobs[k]->Place_replica_name != replica_name,
    ensures
        o.sound(p.placing(replica_name, template, generation, o.registry, o.now, pick)),
{
    lemma_picked_is_a_node(o, p, pick);
    if let Some(node) = picked(p.candidates(), pick) {
        if let Some((prefix_len, node_addr, address)) = p.spot(o.registry, o.now, node) {
            let cidr = o.registry.pod_cidr(node)->0;
            lemma_first_free_is(cidr, node, p.used);
            let x = PlacedView { replica_name, node_id: node, node_addr, template, address, prefix_len, generation };
            let q = p.placing(replica_name, template, generation, o.registry, o.now, pick);
            let n = p.actions.len() as int;
            assert(is_free(p.used, node, address as int));
            assert forall|i: int| i != n implies #[trigger] given_at(q, i) == given_at(p, i) by {}
            assert(given_at(q, n) == Some(x));
            assert(given_at(p, n) is None);
            assert(o.well_placed(x));
            assert(is_given(q, replica_name));
            assert forall|name: Seq<char>| is_given(p, name) implies #[trigger] is_given(q, name) by {
                let i = choose|i: int| (#[trigger] given_at(p, i)) matches Some(y) && y.replica_name == name;
                assert(given_at(q, i) == given_at(p, i));
            }
            assert forall|i: int| (#[trigger] given_at(q, i)) is Some && i != n implies {
                let y = given_at(q, i)->0;
                y.replica_name != replica_name && !(y.node_id == node && y.address == address)
            } by {
                let y = given_at(p, i)->0;
                assert(p.used.dom().contains(y.replica_name));
            }
            assert forall|i: int, j: int|
                i < j && (#[trigger] given_at(q, i)) is Some && (#[trigger] given_at(q, j)) is Some implies {
                let a = given_at(q, i)->0;
                let b = given_at(q, j)->0;
                a.replica_name != b.replica_name && !(a.node_id == b.node_id && a.address == b.address)
            } by {
                if i != n && j != n {
                    assert(given_at(p, i) is Some && given_at(p, j) is Some);
                }
            }
            assert forall|i: int| (#[trigger] given_at(q, i)) is Some implies {
                let y = given_at(q, i)->0;
                &&& q.used.dom().contains(y.replica_name)
                &&& q.used[y.replica_name] == (y.node_id, y.address)
                &&& o.well_placed(y)
            } by {
                if i != n {
                    assert(given_at(p, i) is Some);
                }
            }
            assert forall|jail: Seq<char>| #[trigger] o.used.dom().contains(jail) implies q.used.dom().contains(jail)
                && (q.used[jail] == o.used[jail] || is_given(q, jail)) by {}
            assert forall|i: int, jail: Seq<char>|
                (#[trigger] given_at(q, i)) is Some && (#[trigger] o.used.dom().contains(jail)) && o.used[jail] == (
                    given_at(q, i)->0.node_id,
                    given_at(q, i)->0.address,
                ) implies is_given(q, jail) by {
                if i == n {
                    assert(p.used.dom().contains(jail));
                } else {
                    assert(given_at(p, i) is Some);
                }
            }
            assert forall|i: int| 0 <= i < q.actions.len() implies o.well_backed(#[trigger] q.actions[i]) by {
                if i < n {
                    assert(q.actions[i] == p.actions[i]);
                } else {
                    assert(q.actions[i] == x.scheduled(None));
                }
            }
            assert(q.nodes =~= nodes_charged(p.nodes, node, template.resources));
            assert(o.sound(q));
        }
    }
}

/// Giving a replica its standby keeps the pass sound.
proof fn lemma_standby_sound(o: Origin, p: PassView, pick: Option<usize>)
    requires
        o.sound(p),
        p.pending is Some,
    ensures
        ({
            let x = p.pending->0;
            let q = PassView {
                pending: None,
                actions: p.actions.push(x.scheduled(p.standby(o.registry, x.node_id, pick))),
                ..p
            };
            o.sound(q) && forall|i: int| #[trigger] given_at(q, i) == given_at(p, i)
        }),
{
    let x = p.pending->0;
    lemma_picked_is_a_node(o, p, pick);
    let standby = p.standby(o.registry, x.node_id, pick);
    let q = PassView { pending: None, actions: p.actions.push(x.scheduled(standby)), ..p };
    assert forall|i: int| #[trigger] given_at(q, i) == given_at(p, i) by {}
    lemma_same_given(p, q);
    assert(o.well_backed(x.scheduled(standby)));
    assert forall|i: int| 0 <= i < q.actions.len() implies o.well_backed(#[trigger] q.actions[i]) by {
        if i < p.actions.len() {
            assert(q.actions[i] == p.actions[i]);
        }
    }
}

/// Placing the next missing replica keeps the pass sound.
proof fn lemma_place_sound(o: Origin, p: PassView, pick: Option<usize>)
    requires
        o.sound(p),
        distinct_places(o.jobs),
        p.pending is None,
        p.jobs.len() > 0,
        p.jobs[0] is Place,
    ensures
        o.sound(p.popped()),
        p.jobs[0] matches JobView::Place { replica_name, template, generation } ==> o.sound(
            p.popped().placing(replica_name, template, generation, o.registry, o.now, pick),
        ),
{
    if let JobView::Place { replica_name, template, generation } = p.jobs[0] {
        let q = p.popped();
        let base = o.jobs.len() - p.jobs.len();
        assert(p.jobs[0] == o.jobs[base]);
        assert(q.jobs =~= o.jobs.skip(o.jobs.len() - q.jobs.len()));
        assert forall|k: int| 0 <= k < q.jobs.len() implies #[trigger] q.jobs[k] == p.jobs[k + 1] && q.jobs[k]
            == o.jobs[base + 1 + k] by {}
        assert forall|i: int| #[trigger] given_at(q, i) == given_at(p, i) by {}
        lemma_same_given(p, q);
        assert(o.sound(q));
        lemma_placing_sound(o, q, replica_name, template, generation, pick);
    }
}

/// A pick keeps the pass sound.
proof fn lemma_step_sound(o: Origin, p: PassView, pick: Option<usize>)
    requires
        o.sound(p),
        distinct_places(o.jobs),
    ensures
        o.sound(p.step(o.registry, o.now, pick)),
{
    match p.pending {
        Some(x) => {
            lemma_standby_sound(o, p, pick);
            lemma_settled_sound(
                o,
                PassView {
                    pending: None,
                    actions: p.actions.push(x.scheduled(p.standby(o.registry, x.node_id, pick))),
                    ..p
                },
            );
        },
        None => {
            if p.jobs.len() > 0 {
                match p.jobs[0] {
                    JobView::Place { replica_name, template, generation } => {
                        lemma_place_sound(o, p, pick);
                        lemma_settled_sound(
                            o,
                            p.popped().placing(replica_name, template, generation, o.registry, o.now, pick),
                        );
                    },
                    _ => {
                        lemma_settled_sound(o, p);
                    },
                }
            }
        },
    }
}

/// Every pass is sound at every point, whatever is picked.
pub proof fn lemma_run_sound(o: Origin, picks: Seq<Option<usize>>)
    requires
        distinct_places(o.jobs),
    ensures
        o.sound(o.start().run(o.registry, o.now, picks)),
    decreases picks.len(),
{
    if picks.len() == 0 {
        let p = PassView {
            nodes: o.nodes,
            used: o.used,
            service: None,
            busy: Set::empty(),
            jobs: o.jobs,
            pending: None,
            actions: Seq::empty(),
        };
        assert(p.jobs =~= o.jobs.skip(0));
        lemma_settled_sound(o, p);
    } else {
        lemma_run_sound(o, picks.drop_last());
        lemma_step_sound(o, o.start().run(o.registry, o.now, picks.drop_last()), picks.last());
    }
}

/// Work that needs no pick keeps the order.
proof fn lemma_settled_in_order(o: Origin, p: PassView)
    requires
        o.sound(p),
        o.in_order(p),
        distinct_removals(o.jobs),
    ensures
        o.in_order(p.settled()),
    decreases p.jobs.len(),
{
    if p.pending is None && p.jobs.len() > 0 {
        let q = p.popped();
        let base = o.jobs.len() - p.jobs.len();
        assert(p.jobs[0] == o.jobs[base]);
        match p.jobs[0] {
            JobView::Begin { service, hosts } => {
                let r = PassView { service: Some(service), busy: hosts, ..q };
                lemma_pop_sound(o, p, r);
                lemma_settled_in_order(o, r);
            },
            JobView::Remove { replica_name, node_id, node_addr } => {
                let action = ReplicaActionView::TearDown { replica_name, node_id, node_addr };
                let r = PassView { actions: p.actions.push(action), ..q };
                lemma_pop_sound(o, p, r);
                assert forall|i: int, k: int|
                    0 <= i < r.actions.len() && 0 <= k < o.jobs.len() && is_job_of(
                        #[trigger] o.jobs[k],
                        #[trigger] r.actions[i],
                    ) implies k < o.jobs.len() - r.jobs.len() by {
                    if i < p.actions.len() {
                        assert(r.actions[i] == p.actions[i]);
                    } else {
                        assert(o.jobs[base] is Remove);
                    }
                }
                assert forall|i: int, j: int, k: int, l: int|
                    0 <= i < j < r.actions.len() && 0 <= k < o.jobs.len() && 0 <= l < o.jobs.len() && is_job_of(
                        #[trigger] o.jobs[k],
                        #[trigger] r.actions[i],
                    ) && is_job_of(#[trigger] o.jobs[l], #[trigger] r.actions[j]) implies k < l by {
                    assert(r.actions[i] == p.actions[i]);
                    if j < p.actions.len() {
                        assert(r.actions[j] == p.actions[j]);
                    } else {
                        assert(o.jobs[base] is Remove);
                    }
                }
                lemma_settled_in_order(o, r);
            },
            JobView::Place { .. } => {},
        }
    }
}

/// Appending the creation of a replica keeps the order.
proof fn lemma_pushed_in_order(o: Origin, p: PassView, q: PassView)
    requires
        o.in_order(p),
        q.jobs.len() <= p.jobs.len(),
        q.actions == p.actions || (q.actions.len() == p.actions.len() + 1 && q.actions.drop_last() == p.actions
            && q.actions.last() is Schedule),
    ensures
        o.in_order(q),
{
    assert forall|i: int| 0 <= i < q.actions.len() && (#[trigger] q.actions[i]) is TearDown implies i
        < p.actions.len() && q.actions[i] == p.actions[i] by {
        if q.actions != p.actions {
            if i < p.actions.len() {
                assert(q.actions.drop_last()[i] == q.actions[i]);
            }
        }
    }
}

pub proof fn lemma_run_in_order(o: Origin, picks: Seq<Option<usize>>)
    requires
        distinct_places(o.jobs),
        distinct_removals(o.jobs),
    ensures
        o.in_order(o.start().run(o.registry, o.now, picks)),
    decreases picks.len(),
{
    if picks.len() == 0 {
        let p = PassView {
            nodes: o.nodes,
            used: o.used,
            service: None,
            busy: Set::empty(),
            jobs: o.jobs,
            pending: None,
            actions: Seq::empty(),
        };
        assert(p.jobs =~= o.jobs.skip(0));
        lemma_settled_in_order(o, p);
    } else {
        let p = o.start().run(o.registry, o.now, picks.drop_last());
        let pick = picks.last();
        lemma_run_in_order(o, picks.drop_last());
        lemma_run_sound(o, picks.drop_last());
        match p.pending {
            Some(x) => {
                let standby = p.standby(o.registry, x.node_id, pick);
                let q = PassView { pending: None, actions: p.actions.push(x.scheduled(standby)), ..p };
                assert(q.actions.drop_last() =~= p.actions);
                lemma_pushed_in_order(o, p, q);
                lemma_standby_sound(o, p, pick);
                lemma_settled_in_order(o, q);
            },
            None => {
                if p.jobs.len() > 0 {
                    match p.jobs[0] {
                        JobView::Place { replica_name, template, generation } => {
                            let r = p.popped().placing(replica_name, template, generation, o.registry, o.now, pick);
                            if r.actions != p.actions {
                                assert(r.actions.drop_last() =~= p.actions);
                            }
                            lemma_pushed_in_order(o, p, r);
                            lemma_place_sound(o, p, pick);
                            lemma_settled_in_order(o, r);
                        },
                        _ => {
                            lemma_settled_in_order(o, p);
                        },
                    }
                }
            },
        }
    }
}

/// The service whose jobs stand at a position.
pub open spec fn service_at(jobs: Seq<JobView>, k: int) -> Option<Seq<char>>
    decreases k + 1,
{
    if k < 0 {
        None
    } else {
        match jobs[k] {
            JobView::Begin { service, .. } => Some(service),
            _ => service_at(jobs, k - 1),
        }
    }
}

/// The jobs go service by service, and every job says of its service what is placed.
pub open spec fn by_service(jobs: Seq<JobView>, placed: Seq<(Seq<char>, Seq<char>)>) -> bool {
    &&& forall|k: int|
        0 <= k < jobs.len() && (#[trigger] jobs[k]) is Place ==> service_at(jobs, k) is Some && replica_index_of(
            service_at(jobs, k)->0,
            jobs[k]->Place_replica_name,
        ) is Some
    &&& forall|k: int|
        0 <= k < jobs.len() && (#[trigger] jobs[k]) is Begin ==> jobs[k]->hosts == hosts_of(
            jobs[k]->service,
            placed,
        )
    &&& forall|k: int, l: int|
        0 <= k < l < jobs.len() && (#[trigger] jobs[k]) is Begin && (#[trigger] jobs[l]) is Begin
            ==> jobs[k]->service != jobs[l]->service
}

/// The `j`-th action puts a replica of the service on the node.
pub open spec fn gives_replica(p: PassView, service: Seq<char>, j: int, node: Seq<char>) -> bool {
    given_at(p, j) matches Some(y) && replica_index_of(service, y.replica_name) is Some && y.node_id == node
}

/// A node that has a replica of the service: it had one before the pass, or got one with an earlier action.
pub open spec fn has_replica(
    placed: Seq<(Seq<char>, Seq<char>)>,
    p: PassView,
    service: Seq<char>,
    before: int,
    node: Seq<char>,
) -> bool {
    hosts_of(service, placed).contains(node) || exists|j: int|
        j < before && #[trigger] gives_replica(p, service, j, node)
}

impl Origin {
    /// A node gets a second replica of a service only when every node has one.
    pub open spec fn spread(self, placed: Seq<(Seq<char>, Seq<char>)>, p: PassView) -> bool {
        &&& p.service == service_at(self.jobs, self.jobs.len() - p.jobs.len() - 1)
        &&& forall|i: int|
            (#[trigger] given_at(p, i)) matches Some(x) ==> exists|k: int|
                0 <= k < self.jobs.len() - p.jobs.len() && (#[trigger] self.jobs[k]) is Place
                    && self.jobs[k]->Place_replica_name == x.replica_name
        &&& p.service matches Some(s) ==> forall|n: Seq<char>| #[trigger]
            p.busy.contains(n) <==> has_replica(placed, p, s, p.actions.len() as int + 1, n)
        &&& forall|i: int, s: Seq<char>|
            (#[trigger] given_at(p, i)) is Some && (#[trigger] replica_index_of(
                s,
                given_at(p, i)->0.replica_name,
            )) is Some && has_replica(placed, p, s, i, given_at(p, i)->0.node_id) ==> forall|n: int|
                0 <= n < self.nodes.len() ==> has_replica(placed, p, s, i, (#[trigger] self.nodes[n]).id)
    }
}

proof fn lemma_same_has(placed: Seq<(Seq<char>, Seq<char>)>, p: PassView, q: PassView)
    requires
        forall|i: int| #[trigger] given_at(q, i) == given_at(p, i),
    ensures
        forall|s: Seq<char>, i: int, n: Seq<char>|
            has_replica(placed, p, s, i, n) == #[trigger] has_replica(placed, q, s, i, n),
{
    assert forall|s: Seq<char>, i: int, n: Seq<char>|
        has_replica(placed, p, s, i, n) == #[trigger] has_replica(placed, q, s, i, n) by {
        if has_replica(placed, p, s, i, n) && !hosts_of(s, placed).contains(n) {
            let j = choose|j: int|
                j < i && #[trigger] gives_replica(p, s, j, n);
            assert(given_at(q, j) == given_at(p, j));
                assert(gives_replica(q, s, j, n));
        }
        if has_replica(placed, q, s, i, n) && !hosts_of(s, placed).contains(n) {
            let j = choose|j: int|
                j < i && #[trigger] gives_replica(q, s, j, n);
            assert(given_at(q, j) == given_at(p, j));
                assert(gives_replica(p, s, j, n));
        }
    }
}

/// All that a pass has given stands before the end of its actions, so a later bound changes nothing.
proof fn lemma_has_bound(placed: Seq<(Seq<char>, Seq<char>)>, p: PassView, s: Seq<char>, a: int, b: int, n: Seq<char>)
    requires
        a >= p.actions.len() as int + 1,
        b >= p.actions.len() as int + 1,
    ensures
        has_replica(placed, p, s, a, n) == has_replica(placed, p, s, b, n),
{
    if has_replica(placed, p, s, a, n) && !hosts_of(s, placed).contains(n) {
        let j = choose|j: int|
            j < a && #[trigger] gives_replica(p, s, j, n);
        assert(j < b);
    }
    if has_replica(placed, p, s, b, n) && !hosts_of(s, placed).contains(n) {
        let j = choose|j: int|
            j < b && #[trigger] gives_replica(p, s, j, n);
        assert(j < a);
    }
}

/// The service at a position was begun at or before it.
proof fn lemma_service_at(jobs: Seq<JobView>, k: int)
    requires
        k < jobs.len(),
    ensures
        service_at(jobs, k) matches Some(s) ==> exists|b: int|
            0 <= b <= k && (#[trigger] jobs[b]) is Begin && jobs[b]->service == s,
    decreases k + 1,
{
    if k >= 0 {
        if jobs[k] is Begin {
            assert(jobs[k]->service == service_at(jobs, k)->0);
        } else {
            lemma_service_at(jobs, k - 1);
        }
    }
}

proof fn lemma_settled_spread(o: Origin, placed: Seq<(Seq<char>, Seq<char>)>, p: PassView)
    requires
        o.sound(p),
        o.spread(placed, p),
        by_service(o.jobs, placed),
    ensures
        o.spread(placed, p.settled()),
    decreases p.jobs.len(),
{
    if p.pending is None && p.jobs.len() > 0 {
        let base = o.jobs.len() - p.jobs.len();
        assert(p.jobs[0] == o.jobs[base]);
        match p.jobs[0] {
            JobView::Begin { service, hosts } => {
                let r = PassView { service: Some(service), busy: hosts, ..p.popped() };
                lemma_pop_sound(o, p, r);
                lemma_same_has(placed, p, r);
                assert forall|i: int| (#[trigger] given_at(r, i)) is Some implies exists|k: int|
                    0 <= k < o.jobs.len() - r.jobs.len() && (#[trigger] o.jobs[k]) is Place
                        && o.jobs[k]->Place_replica_name == given_at(r, i)->0.replica_name by {
                    let k = choose|k: int|
                        0 <= k < base && (#[trigger] o.jobs[k]) is Place && o.jobs[k]->Place_replica_name == given_at(
                            p,
                            i,
                        )->0.replica_name;
                    assert(o.jobs[k] is Place);
                }
                assert forall|i: int| (#[trigger] given_at(r, i)) is Some implies replica_index_of(
                    service,
                    given_at(r, i)->0.replica_name,
                ) is None by {
                    let name = given_at(r, i)->0.replica_name;
                    let k = choose|k: int|
                        0 <= k < base && (#[trigger] o.jobs[k]) is Place && o.jobs[k]->Place_replica_name == name;
                    lemma_service_at(o.jobs, k);
                    let other = service_at(o.jobs, k)->0;
                    let b = choose|b: int|
                        0 <= b <= k && (#[trigger] o.jobs[b]) is Begin && o.jobs[b]->service == other;
                    assert(o.jobs[b]->service != o.jobs[base]->service);
                    if replica_index_of(service, name) is Some {
                        let m = choose|m: u32| name == #[trigger] replica_name_of(other, m);
                        let l = choose|l: u32| name == #[trigger] replica_name_of(service, l);
                        law_replica_names_are_distinct(other, m, service, l);
                    }
                }
                assert forall|n: Seq<char>| #[trigger] r.busy.contains(n) <==> has_replica(
                    placed,
                    r,
                    service,
                    r.actions.len() as int + 1,
                    n,
                ) by {}
                assert(o.spread(placed, r));
                lemma_settled_spread(o, placed, r);
            },
            JobView::Remove { replica_name, node_id, node_addr } => {
                let r = PassView {
                    actions: p.actions.push(ReplicaActionView::TearDown { replica_name, node_id, node_addr }),
                    ..p.popped()
                };
                lemma_pop_sound(o, p, r);
                lemma_same_has(placed, p, r);
                lemma_wider(o, p, r);
                if let Some(s) = r.service {
                    assert forall|n: Seq<char>| #[trigger] r.busy.contains(n) <==> has_replica(
                        placed,
                        r,
                        s,
                        r.actions.len() as int + 1,
                        n,
                    ) by {
                        lemma_has_bound(placed, p, s, p.actions.len() as int + 1, r.actions.len() as int + 1, n);
                        assert(p.busy.contains(n) <==> has_replica(placed, p, s, p.actions.len() as int + 1, n));
                        assert(has_replica(placed, p, s, r.actions.len() as int + 1, n) == has_replica(
                            placed,
                            r,
                            s,
                            r.actions.len() as int + 1,
                            n,
                        ));
                    }
                }
                assert(o.spread(placed, r));
                lemma_settled_spread(o, placed, r);
            },
            JobView::Place { .. } => {},
        }
    }
}

/// What was given by jobs that are done was still given by such jobs when more are done.
proof fn lemma_wider(o: Origin, p: PassView, r: PassView)
    requires
        p.jobs.len() <= o.jobs.len(),
        r.jobs.len() <= p.jobs.len(),
        forall|i: int|
            (#[trigger] given_at(p, i)) matches Some(x) ==> exists|k: int|
                0 <= k < o.jobs.len() - p.jobs.len() && (#[trigger] o.jobs[k]) is Place
                    && o.jobs[k]->Place_replica_name == x.replica_name,
        forall|i: int| #[trigger] given_at(r, i) == given_at(p, i),
    ensures
        forall|i: int|
            (#[trigger] given_at(r, i)) matches Some(x) ==> exists|k: int|
                0 <= k < o.jobs.len() - r.jobs.len() && (#[trigger] o.jobs[k]) is Place
                    && o.jobs[k]->Place_replica_name == x.replica_name,
{
    assert forall|i: int| (#[trigger] given_at(r, i)) is Some implies exists|k: int|
        0 <= k < o.jobs.len() - r.jobs.len() && (#[trigger] o.jobs[k]) is Place && o.jobs[k]->Place_replica_name
            == given_at(r, i)->0.replica_name by {
        let k = choose|k: int|
            0 <= k < o.jobs.len() - p.jobs.len() && (#[trigger] o.jobs[k]) is Place && o.jobs[k]->Place_replica_name
                == given_at(p, i)->0.replica_name;
        assert(o.jobs[k] is Place);
    }
}

/// Placing the next missing replica keeps the replicas spread.
proof fn lemma_place_spread(o: Origin, placed: Seq<(Seq<char>, Seq<char>)>, p: PassView, pick: Option<usize>)
    requires
        o.sound(p),
        o.spread(placed, p),
        by_service(o.jobs, placed),
        distinct_places(o.jobs),
        p.pending is None,
        p.jobs.len() > 0,
        p.jobs[0] is Place,
    ensures
        p.jobs[0] matches JobView::Place { replica_name, template, generation } ==> o.spread(
            placed,
            p.popped().placing(replica_name, template, generation, o.registry, o.now, pick),
        ),
{
    if let JobView::Place { replica_name, template, generation } = p.jobs[0] {
        let base = o.jobs.len() - p.jobs.len();
        assert(p.jobs[0] == o.jobs[base]);
        let q = p.popped();
        let r = q.placing(replica_name, template, generation, o.registry, o.now, pick);
        let s = service_at(o.jobs, base)->0;
        assert(p.service == Some(s));
        assert(replica_index_of(s, replica_name) is Some);
        let n0 = p.actions.len() as int;
        assert forall|i: int| i != n0 implies #[trigger] given_at(r, i) == given_at(p, i) by {}
        assert(given_at(p, n0) is None);
        assert forall|i: int| (#[trigger] given_at(r, i)) is Some implies exists|k: int|
            0 <= k < o.jobs.len() - r.jobs.len() && (#[trigger] o.jobs[k]) is Place && o.jobs[k]->Place_replica_name
                == given_at(r, i)->0.replica_name by {
            if i == n0 {
                assert(o.jobs[base] is Place);
            } else {
                let k = choose|k: int|
                    0 <= k < base && (#[trigger] o.jobs[k]) is Place && o.jobs[k]->Place_replica_name == given_at(
                        p,
                        i,
                    )->0.replica_name;
                assert(o.jobs[k] is Place);
            }
        }
        // What was there before the new action is seen alike from both.
        assert forall|t: Seq<char>, i: int, n: Seq<char>| i <= n0 implies has_replica(placed, p, t, i, n)
            == #[trigger] has_replica(placed, r, t, i, n) by {
            if has_replica(placed, p, t, i, n) && !hosts_of(t, placed).contains(n) {
                let j = choose|j: int|
                    j < i && #[trigger] gives_replica(p, t, j, n);
                assert(given_at(r, j) == given_at(p, j));
                assert(gives_replica(r, t, j, n));
            }
            if has_replica(placed, r, t, i, n) && !hosts_of(t, placed).contains(n) {
                let j = choose|j: int|
                    j < i && #[trigger] gives_replica(r, t, j, n);
                assert(given_at(r, j) == given_at(p, j));
                assert(gives_replica(p, t, j, n));
            }
        }
        // Nothing is given at the new position yet, so the busy nodes are those given before it.
        assert forall|n: Seq<char>| #[trigger] p.busy.contains(n) == has_replica(placed, p, s, n0, n) by {
            if has_replica(placed, p, s, n0 + 1, n) && !hosts_of(s, placed).contains(n) {
                let j = choose|j: int|
                    j < n0 + 1 && #[trigger] gives_replica(p, s, j, n);
                assert(j != n0);
            }
            if has_replica(placed, p, s, n0, n) && !hosts_of(s, placed).contains(n) {
                let j = choose|j: int|
                    j < n0 && #[trigger] gives_replica(p, s, j, n);
                assert(j < n0 + 1);
            }
        }
        if r.busy == p.busy && r.actions == p.actions && r.pending is None {
            assert forall|i: int| #[trigger] given_at(r, i) == given_at(p, i) by {}
            lemma_same_has(placed, p, r);
            assert forall|n: Seq<char>| #[trigger] r.busy.contains(n) <==> has_replica(placed, r, s, r.actions.len() as int + 1, n) by {
                assert(p.busy.contains(n) <==> has_replica(placed, p, s, p.actions.len() as int + 1, n));
            }
            assert(o.spread(placed, r));
        } else {
            let node = picked(q.candidates(), pick)->0;
            let x = given_at(r, n0)->0;
            assert(x.node_id == node && x.replica_name == replica_name);
            assert forall|n: Seq<char>| #[trigger] r.busy.contains(n) <==> has_replica(placed, r, s, r.actions.len() as int + 1, n) by {
                if n == node {
                    assert(given_at(r, n0) == Some(x));
                    assert(gives_replica(r, s, n0, n));
                } else if p.busy.contains(n) && !hosts_of(s, placed).contains(n) {
                    let j = choose|j: int|
                        j < n0 && #[trigger] gives_replica(p, s, j, n);
                    assert(given_at(r, j) == given_at(p, j));
                assert(gives_replica(r, s, j, n));
                } else if has_replica(placed, r, s, r.actions.len() as int + 1, n) && !hosts_of(s, placed).contains(n) {
                    let j = choose|j: int|
                        j < r.actions.len() as int + 1 && #[trigger] gives_replica(r, s, j, n);
                    assert(j != n0);
                    assert(given_at(r, j) == given_at(p, j));
                    assert(j < n0);
                    assert(gives_replica(p, s, j, n));
                    assert(has_replica(placed, p, s, n0, n));
                }
            }
            assert forall|i: int, t: Seq<char>|
                (#[trigger] given_at(r, i)) is Some && (#[trigger] replica_index_of(
                    t,
                    given_at(r, i)->0.replica_name,
                )) is Some && has_replica(placed, r, t, i, given_at(r, i)->0.node_id) implies forall|n: int|
                0 <= n < o.nodes.len() ==> has_replica(placed, r, t, i, (#[trigger] o.nodes[n]).id) by {
                if i == n0 {
                    let a = choose|a: u32| replica_name == #[trigger] replica_name_of(t, a);
                    let b = choose|b: u32| replica_name == #[trigger] replica_name_of(s, b);
                    law_replica_names_are_distinct(t, a, s, b);
                    assert(p.busy.contains(node));
                    lemma_candidates(p.nodes, p.busy);
                    let c = q.candidates()[pick->0 as int];
                    assert(c.id == node);
                    assert forall|n: int| 0 <= n < o.nodes.len() implies has_replica(
                        placed,
                        r,
                        t,
                        i,
                        (#[trigger] o.nodes[n]).id,
                    ) by {
                        assert(p.nodes[n].id == o.nodes[n].id);
                        assert(p.busy.contains(p.nodes[n].id));
                    }
                } else {
                    assert(given_at(p, i) is Some);
                    assert(i < n0);
                    assert(has_replica(placed, p, t, i, given_at(p, i)->0.node_id));
                    assert forall|n: int| 0 <= n < o.nodes.len() implies has_replica(
                        placed,
                        r,
                        t,
                        i,
                        (#[trigger] o.nodes[n]).id,
                    ) by {
                        assert(has_replica(placed, p, t, i, o.nodes[n].id));
                    }
                }
            }
            assert(o.spread(placed, r));
        }
    }
}

pub proof fn lemma_run_spread(o: Origin, placed: Seq<(Seq<char>, Seq<char>)>, picks: Seq<Option<usize>>)
    requires
        distinct_places(o.jobs),
        by_service(o.jobs, placed),
    ensures
        o.spread(placed, o.start().run(o.registry, o.now, picks)),
    decreases picks.len(),
{
    if picks.len() == 0 {
        let p = PassView {
            nodes: o.nodes,
            used: o.used,
            service: None,
            busy: Set::empty(),
            jobs: o.jobs,
            pending: None,
            actions: Seq::empty(),
        };
        assert(p.jobs =~= o.jobs.skip(0));
        lemma_settled_spread(o, placed, p);
    } else {
        let p = o.start().run(o.registry, o.now, picks.drop_last());
        let pick = picks.last();
        lemma_run_spread(o, placed, picks.drop_last());
        lemma_run_sound(o, picks.drop_last());
        match p.pending {
            Some(x) => {
                let standby = p.standby(o.registry, x.node_id, pick);
                let q = PassView { pending: None, actions: p.actions.push(x.scheduled(standby)), ..p };
                lemma_standby_sound(o, p, pick);
                lemma_same_has(placed, p, q);
                lemma_wider(o, p, q);
                if let Some(s) = q.service {
                    assert forall|n: Seq<char>| #[trigger] q.busy.contains(n) <==> has_replica(
                        placed,
                        q,
                        s,
                        q.actions.len() as int + 1,
                        n,
                    ) by {
                        lemma_has_bound(placed, p, s, p.actions.len() as int + 1, q.actions.len() as int + 1, n);
                        assert(p.busy.contains(n) <==> has_replica(placed, p, s, p.actions.len() as int + 1, n));
                        assert(has_replica(placed, p, s, q.actions.len() as int + 1, n) == has_replica(
                            placed,
                            q,
                            s,
                            q.actions.len() as int + 1,
                            n,
                        ));
                    }
                }
                assert(o.spread(placed, q));
                lemma_settled_spread(o, placed, q);
            },
            None => {
                if p.jobs.len() > 0 {
                    match p.jobs[0] {
                        JobView::Place { replica_name, template, generation } => {
                            lemma_place_sound(o, p, pick);
                            lemma_place_spread(o, placed, p, pick);
                            lemma_settled_spread(
                                o,
                                placed,
                                p.popped().placing(replica_name, template, generation, o.registry, o.now, pick),
                            );
                        },
                        _ => {
                            lemma_settled_spread(o, placed, p);
                        },
                    }
                }
            },
        }
    }
}

} // verus!
