//! That a question to the control plane gets the same answer twice.

use crate::controlplane::reconcile::{cluster_of, present_of, Cluster, PassView, ReplicaActionView};
use crate::controlplane::registry::{Registry, RegistryView};
use crate::controlplane::scheduler::{schedulable_of, NodeResources, NodeResourcesView};
use crate::controlplane::services::{missing, replica_name_of, to_remove_of, ServiceRecordView};
use crate::controlplane::worker::{can_pick, handled, may_pick, Command, ControlPlane, Outcome};
use crate::views::views;
use vstd::prelude::*;

verus! {

/// No node that is alive at one of two times is dead at the other.
pub open spec fn same_lives(registry: RegistryView, a: u64, b: u64) -> bool {
    forall|id: Seq<char>| #[trigger]
        registry.nodes.dom().contains(id) ==> registry.nodes[id].state(a, registry.dead_after)
            == registry.nodes[id].state(b, registry.dead_after)
}

/// A choice picks what a function of the nodes says.
spec fn picks_by<F: Fn(&Vec<NodeResources>) -> Option<usize>>(
    best: F,
    choice: spec_fn(Seq<NodeResourcesView>) -> Option<usize>,
) -> bool {
    forall|nodes: Vec<NodeResources>, pick: Option<usize>| #[trigger]
        call_ensures(best, (&nodes,), pick) ==> pick == choice(views(nodes@))
}

/// A choice may pick this between some nodes.
spec fn picks<F: Fn(&Vec<NodeResources>) -> Option<usize>>(
    best: F,
    nodes: Seq<NodeResourcesView>,
    pick: Option<usize>,
) -> bool {
    exists|v: Vec<NodeResources>| views(v@) == nodes && #[trigger] call_ensures(best, (&v,), pick)
}

/// What a choice picks between some nodes.
spec fn choice_of<F: Fn(&Vec<NodeResources>) -> Option<usize>>(best: F, nodes: Seq<NodeResourcesView>) -> Option<
    usize,
> {
    choose|pick: Option<usize>| picks(best, nodes, pick)
}

proof fn lemma_choice<F: Fn(&Vec<NodeResources>) -> Option<usize>>(best: F)
    requires
        can_pick(best),
    ensures
        picks_by(best, |nodes: Seq<NodeResourcesView>| choice_of(best, nodes)),
{
    assert forall|nodes: Vec<NodeResources>, pick: Option<usize>| #[trigger]
        call_ensures(best, (&nodes,), pick) implies pick == choice_of(best, views(nodes@)) by {
        assert(picks(best, views(nodes@), pick));
    }
}

/// Two passes over the services, one right after the other, decide the same and change nothing, as long as no
/// node comes to life or dies in between.
pub proof fn law_reconciling_twice_decides_the_same<F: Fn(&Vec<NodeResources>) -> Option<usize>>(
    before: ControlPlane,
    first_time: u64,
    first: Outcome,
    between: ControlPlane,
    second_time: u64,
    second: Outcome,
    after: ControlPlane,
    best: F,
)
    requires
        before.wf(),
        can_pick(best),
        same_lives(before.registry@, first_time, second_time),
        handled(before, Command::ReconcileServices, first_time, best, between, first),
        handled(between, Command::ReconcileServices, second_time, best, after, second),
    ensures
        after == before,
        first.persist is None,
        second.persist is None,
        first.reply is Actions,
        second.reply is Actions,
        views(first.reply->Actions_0@) == views(second.reply->Actions_0@),
{
    let a = views(first.reply->Actions_0@);
    let b = views(second.reply->Actions_0@);
    let p = choose|picks: Seq<Option<usize>>| #[trigger] before.reconciled(first_time, best, picks, a);
    let q = choose|picks: Seq<Option<usize>>| #[trigger] before.reconciled(second_time, best, picks, b);
    assert(same_lives(before.registry@, second_time, first_time));
    lemma_at_another_time(&before, second_time, first_time, best, q, b);
    let choice = |nodes: Seq<NodeResourcesView>| choice_of(best, nodes);
    lemma_choice(best);
    lemma_follows(&before, first_time, best, choice, p, a);
    lemma_follows(&before, first_time, best, choice, q, b);
    let start = before.pass(first_time);
    if p.len() <= q.len() {
        lemma_same_end(start, before.registry@, first_time, choice, p, q);
    } else {
        lemma_same_end(start, before.registry@, first_time, choice, q, p);
    }
}

/// What a pass decides with some picks, it decides with them at another time too, if no node comes to life or
/// dies in between.
proof fn lemma_at_another_time<F: Fn(&Vec<NodeResources>) -> Option<usize>>(
    state: &ControlPlane,
    a: u64,
    b: u64,
    best: F,
    picks: Seq<Option<usize>>,
    actions: Seq<ReplicaActionView>,
)
    requires
        state.wf(),
        same_lives(state.registry@, a, b),
        state.reconciled(a, best, picks, actions),
    ensures
        state.reconciled(b, best, picks, actions),
{
    lemma_pass(state, a, b);
    lemma_run(state.pass(a), state.registry@, a, b, picks);
    assert forall|k: int| 0 <= k < picks.len() implies may_pick(
        best,
        state.pass(b).run(state.registry@, b, picks.take(k)).candidates(),
        #[trigger] picks[k],
    ) by {
        lemma_run(state.pass(a), state.registry@, a, b, picks.take(k));
    }
}

/// What a choice picks; there is nothing to pick from no nodes.
spec fn chosen(choice: spec_fn(Seq<NodeResourcesView>) -> Option<usize>, nodes: Seq<NodeResourcesView>) -> Option<
    usize,
> {
    if nodes.len() == 0 {
        None
    } else {
        choice(nodes)
    }
}

/// Every pick of a pass is the one that the choice makes.
spec fn follows(
    start: PassView,
    registry: RegistryView,
    now: u64,
    choice: spec_fn(Seq<NodeResourcesView>) -> Option<usize>,
    picks: Seq<Option<usize>>,
) -> bool {
    forall|k: int|
        0 <= k < picks.len() ==> #[trigger] picks[k] == chosen(
            choice,
            start.run(registry, now, picks.take(k)).candidates(),
        )
}

proof fn lemma_follows<F: Fn(&Vec<NodeResources>) -> Option<usize>>(
    state: &ControlPlane,
    now: u64,
    best: F,
    choice: spec_fn(Seq<NodeResourcesView>) -> Option<usize>,
    picks: Seq<Option<usize>>,
    actions: Seq<ReplicaActionView>,
)
    requires
        picks_by(best, choice),
        state.reconciled(now, best, picks, actions),
    ensures
        follows(state.pass(now), state.registry@, now, choice, picks),
{
    assert forall|k: int| 0 <= k < picks.len() implies #[trigger] picks[k] == chosen(
        choice,
        state.pass(now).run(state.registry@, now, picks.take(k)).candidates(),
    ) by {
        assert(may_pick(
            best,
            state.pass(now).run(state.registry@, now, picks.take(k)).candidates(),
            picks[k],
        ));
    }
}

/// A pass that has come to its end ends the same with further picks.
proof fn lemma_same_end(
    start: PassView,
    registry: RegistryView,
    now: u64,
    choice: spec_fn(Seq<NodeResourcesView>) -> Option<usize>,
    p: Seq<Option<usize>>,
    q: Seq<Option<usize>>,
)
    requires
        p.len() <= q.len(),
        follows(start, registry, now, choice, p),
        follows(start, registry, now, choice, q),
        start.run(registry, now, p).done(),
    ensures
        start.run(registry, now, q) == start.run(registry, now, p),
{
    lemma_same_picks(start, registry, now, choice, p, q, p.len() as int);
    assert(p.take(p.len() as int) =~= p);
    lemma_done_stays(start, registry, now, q, p.len() as int, q.len() as int);
    assert(q.take(q.len() as int) =~= q);
}

proof fn lemma_same_picks(
    start: PassView,
    registry: RegistryView,
    now: u64,
    choice: spec_fn(Seq<NodeResourcesView>) -> Option<usize>,
    p: Seq<Option<usize>>,
    q: Seq<Option<usize>>,
    n: int,
)
    requires
        0 <= n <= p.len() <= q.len(),
        follows(start, registry, now, choice, p),
        follows(start, registry, now, choice, q),
    ensures
        p.take(n) == q.take(n),
    decreases n,
{
    if n > 0 {
        lemma_same_picks(start, registry, now, choice, p, q, n - 1);
        assert(p[n - 1] == q[n - 1]);
        assert(p.take(n) =~= p.take(n - 1).push(p[n - 1]));
        assert(q.take(n) =~= q.take(n - 1).push(q[n - 1]));
    } else {
        assert(p.take(0) =~= q.take(0));
    }
}

proof fn lemma_done_stays(
    start: PassView,
    registry: RegistryView,
    now: u64,
    picks: Seq<Option<usize>>,
    m: int,
    n: int,
)
    requires
        0 <= m <= n <= picks.len(),
        start.run(registry, now, picks.take(m)).done(),
    ensures
        start.run(registry, now, picks.take(n)) == start.run(registry, now, picks.take(m)),
    decreases n - m,
{
    if m < n {
        lemma_done_stays(start, registry, now, picks, m, n - 1);
        assert(picks.take(n).drop_last() =~= picks.take(n - 1));
    }
}

proof fn lemma_resolve(registry: RegistryView, a: u64, b: u64, id: Seq<char>)
    requires
        same_lives(registry, a, b),
    ensures
        registry.resolve(id, a) == registry.resolve(id, b),
{
}

proof fn lemma_run(start: PassView, registry: RegistryView, a: u64, b: u64, picks: Seq<Option<usize>>)
    requires
        same_lives(registry, a, b),
    ensures
        start.run(registry, a, picks) == start.run(registry, b, picks),
    decreases picks.len(),
{
    if picks.len() > 0 {
        lemma_run(start, registry, a, b, picks.drop_last());
        let p = start.run(registry, a, picks.drop_last());
        assert forall|node: Seq<char>| #[trigger] registry.resolve(node, a) == registry.resolve(node, b) by {
            lemma_resolve(registry, a, b, node);
        }
        assert forall|x: PassView, node: Seq<char>| #[trigger] x.spot(registry, a, node) == x.spot(
            registry,
            b,
            node,
        ) by {}
        assert(p.step(registry, a, picks.last()) == p.step(registry, b, picks.last()));
    }
}

proof fn lemma_schedulable_then(
    registry: &Registry,
    a: u64,
    b: u64,
    cordoned: Set<Seq<char>>,
    n: int,
)
    requires
        registry.wf(),
        same_lives(registry@, a, b),
        0 <= n <= registry.members().len(),
    ensures
        schedulable_of(registry.members().take(n), a, registry@.dead_after, cordoned) == schedulable_of(
            registry.members().take(n),
            b,
            registry@.dead_after,
            cordoned,
        ),
    decreases n,
{
    if n > 0 {
        lemma_schedulable_then(registry, a, b, cordoned, n - 1);
        registry.lemma_members();
        let members = registry.members();
        assert(members.take(n).drop_last() =~= members.take(n - 1));
        assert(registry@.nodes.dom().contains(members[n - 1].0));
    }
}

proof fn lemma_present_then(
    service: Seq<char>,
    stateful: bool,
    placed: Seq<(Seq<char>, Seq<char>)>,
    registry: RegistryView,
    a: u64,
    b: u64,
)
    requires
        same_lives(registry, a, b),
    ensures
        present_of(service, stateful, placed, registry, a) == present_of(service, stateful, placed, registry, b),
    decreases placed.len(),
{
    if placed.len() > 0 {
        lemma_present_then(service, stateful, placed.drop_last(), registry, a, b);
        lemma_resolve(registry, a, b, placed.last().1);
    }
}

proof fn lemma_removals_then(c: Cluster, d: Cluster, service: Seq<char>, to_remove: Seq<u32>)
    requires
        same_lives(c.registry, c.now, d.now),
        d == (Cluster { now: d.now, ..c }),
    ensures
        c.removals(service, to_remove) == d.removals(service, to_remove),
    decreases to_remove.len(),
{
    if to_remove.len() > 0 {
        lemma_removals_then(c, d, service, to_remove.drop_last());
        let name = replica_name_of(service, to_remove.last());
        lemma_resolve(c.registry, c.now, d.now, c.nodes[name]);
    }
}

proof fn lemma_jobs_then(c: Cluster, d: Cluster, services: Seq<(Seq<char>, ServiceRecordView)>)
    requires
        same_lives(c.registry, c.now, d.now),
        d == (Cluster { now: d.now, ..c }),
    ensures
        c.jobs(services) == d.jobs(services),
    decreases services.len(),
{
    if services.len() > 0 {
        lemma_jobs_then(c, d, services.drop_last());
        let (service, record) = services.last();
        lemma_present_then(service, record.template.volumes.len() > 0, c.placed, c.registry, c.now, d.now);
        let present = c.present(service, record);
        assert(present == d.present(service, record));
        lemma_removals_then(c, d, service, to_remove_of(present, record.desired_replicas));
        let to_add = missing(present, record.desired_replicas as nat);
        assert(c.places(service, record.template, to_add) =~= d.places(service, record.template, to_add));
    }
}

proof fn lemma_pass(state: &ControlPlane, a: u64, b: u64)
    requires
        state.wf(),
        same_lives(state.registry@, a, b),
    ensures
        state.pass(a) == state.pass(b),
{
    let members = state.registry.members();
    lemma_schedulable_then(&state.registry, a, b, state.cordoned@, members.len() as int);
    assert(members.take(members.len() as int) =~= members);
    let c = cluster_of(&state.registry, &state.placements, a);
    let d = cluster_of(&state.registry, &state.placements, b);
    lemma_jobs_then(c, d, state.services.listed());
}

} // verus!
