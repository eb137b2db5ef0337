//! What the answers of the control plane say of the tables that it keeps.
//!
//! The laws speak of the tables themselves: of the nodes that have registered, of the jails that are placed, of the
//! addresses and standbys that are recorded, and of nothing that is computed from them.

use crate::controlplane::addresses::{dotted, is_free, lemma_first_free_is, Ipv4Cidr};
use crate::controlplane::pending_fences::names_on;
use crate::controlplane::reconcile::ReplicaActionView;
use crate::controlplane::registry::{NodeView, Registration, Registry, RegistryView, Report, ResolveErrorView};
use crate::controlplane::scheduler::{
    candidates_of, idle, picked, schedulable_of, NodeResources, NodeResourcesView, ScheduleError,
};
use crate::controlplane::services::{
    law_replica_names_are_distinct, replica_index_of, replica_name_of, ApplyServiceError, OwnerView,
};
use crate::controlplane::worker::{
    conflicts, handled, healthy_of, is_healthy, teardowns_of, Command, ControlPlane, ForceRepinErrorView, ForceRepinPrepView,
    Outcome, PlacementError, Reply, ScheduleOrResolveError, StateFile,
};
use crate::decimal::decimal;
use crate::jail::JailTemplate;
use crate::text::str_before;
use crate::views::{opt_view, views};
use crate::wire::{JailHealthView, NodeState, NodeStatusView, ServiceReplicaView};
use vstd::prelude::*;

verus! {

/// A node has registered, and was heard from less than the time ago after which it counts as dead.
pub open spec fn is_up(registry: RegistryView, node: Seq<char>, now: u64) -> bool {
    &&& registry.nodes.dom().contains(node)
    &&& registry.dead_after > 0
    &&& now < registry.nodes[node].last_seen + registry.dead_after
}

/// What a service's replica of an index is called.
pub open spec fn written_replica(service: Seq<char>, index: u32) -> Seq<char> {
    service + seq!['-'] + decimal(index as nat)
}

/// A jail has the name of a replica of a service.
pub open spec fn is_replica(service: Seq<char>, jail: Seq<char>) -> bool {
    exists|index: u32| jail == #[trigger] written_replica(service, index)
}

/// A text is four numbers below 256 with dots between them, and they are the bytes of an address from the highest
/// to the lowest.
pub open spec fn is_dotted(address: u32, text: Seq<char>) -> bool {
    exists|a: u8, b: u8, c: u8, d: u8| #[trigger] bytes_of(address, a, b, c, d) && text == decimal(a as nat) + seq!['.']
        + decimal(b as nat) + seq!['.'] + decimal(c as nat) + seq!['.'] + decimal(d as nat)
}

/// These are the bytes of an address.
pub open spec fn bytes_of(address: u32, a: u8, b: u8, c: u8, d: u8) -> bool {
    address == ((a * 256 + b) * 256 + c) * 256 + d
}

/// Some nodes are those that take new replicas: every node that is up and not cordoned, once and in the order of
/// their ids, with what it said that it has and what of that is taken.
pub open spec fn takers(state: ControlPlane, now: u64, nodes: Seq<NodeResourcesView>) -> bool {
    &&& forall|i: int, j: int| 0 <= i < j < nodes.len() ==> str_before((#[trigger] nodes[i]).id, (#[trigger] nodes[j]).id)
    &&& forall|i: int|
        0 <= i < nodes.len() ==> {
            let node = #[trigger] nodes[i];
            let known = state.registry@.nodes[node.id];
            &&& is_up(state.registry@, node.id, now)
            &&& !state.cordoned@.contains(node.id)
            &&& node.capacity_cpu == known.capacity_cpu
            &&& node.capacity_memory == known.capacity_memory
            &&& node.committed_cpu == known.committed_cpu
            &&& node.committed_memory == known.committed_memory
            &&& node.spent_cpu.len() == 0
            &&& node.spent_memory.len() == 0
        }
    &&& forall|id: Seq<char>|
        #![trigger state.registry@.nodes.dom().contains(id)]
        is_up(state.registry@, id, now) && !state.cordoned@.contains(id) ==> exists|i: int|
            0 <= i < nodes.len() && (#[trigger] nodes[i]).id == id
}

/// Asked about some nodes, `best` may pick this; about no nodes it is not asked.
pub open spec fn chosen_by<F: Fn(&Vec<NodeResources>) -> Option<usize>>(
    best: F,
    nodes: Seq<NodeResourcesView>,
    pick: Option<usize>,
) -> bool {
    &&& nodes.len() == 0 ==> pick is None
    &&& nodes.len() > 0 ==> exists|v: Vec<NodeResources>| views(v@) == nodes && #[trigger] call_ensures(
        best,
        (&v,),
        pick,
    )
}

/// A pick names a node of a list.
pub open spec fn names_node(nodes: Seq<NodeResourcesView>, pick: Option<usize>, id: Seq<char>) -> bool {
    pick matches Some(k) && k < nodes.len() && nodes[k as int].id == id
}

/// The nodes of a list that are not in a set, or the whole list if all of them are.
pub open spec fn preferred(nodes: Seq<NodeResourcesView>, avoided: Set<Seq<char>>) -> Seq<NodeResourcesView> {
    let free = nodes.filter(|node: NodeResourcesView| !avoided.contains(node.id));
    if free.len() > 0 {
        free
    } else {
        nodes
    }
}

/// No replica is recorded with the address on the node.
pub open spec fn unused(used: Map<Seq<char>, (Seq<char>, u32)>, node: Seq<char>, address: int) -> bool {
    forall|jail: Seq<char>| #[trigger] used.dom().contains(jail) ==> used[jail].0 != node || used[jail].1 != address
}

/// The lowest address of a node's block that is left for replicas and unused on the node.
pub open spec fn is_lowest_unused(
    block: Ipv4Cidr,
    node: Seq<char>,
    used: Map<Seq<char>, (Seq<char>, u32)>,
    address: u32,
) -> bool {
    &&& block.assignable(address as int)
    &&& unused(used, node, address as int)
    &&& forall|lower: int| #[trigger] block.assignable(lower) && lower < address ==> !unused(used, node, lower)
}

/// All addresses of a node's block that are left for replicas are used on the node.
pub open spec fn is_full(block: Ipv4Cidr, node: Seq<char>, used: Map<Seq<char>, (Seq<char>, u32)>) -> bool {
    forall|address: int| #[trigger] block.assignable(address) ==> !unused(used, node, address)
}

pub proof fn lemma_written_replica(service: Seq<char>, index: u32)
    ensures
        written_replica(service, index) == replica_name_of(service, index),
{
    assert(written_replica(service, index) =~= replica_name_of(service, index));
}

pub proof fn lemma_is_replica(service: Seq<char>, jail: Seq<char>)
    ensures
        is_replica(service, jail) <==> replica_index_of(service, jail) is Some,
{
    if is_replica(service, jail) {
        let index = choose|index: u32| jail == #[trigger] written_replica(service, index);
        lemma_written_replica(service, index);
        assert(jail == replica_name_of(service, index));
    }
    if replica_index_of(service, jail) is Some {
        let index = choose|index: u32| jail == #[trigger] replica_name_of(service, index);
        lemma_written_replica(service, index);
        assert(jail == written_replica(service, index));
    }
}

/// A jail has the name of a replica of one service only, and of one index of it.
pub proof fn lemma_one_owner(a: Seq<char>, b: Seq<char>, jail: Seq<char>)
    requires
        is_replica(a, jail),
        is_replica(b, jail),
    ensures
        a == b,
{
    let i = choose|i: u32| jail == #[trigger] written_replica(a, i);
    let j = choose|j: u32| jail == #[trigger] written_replica(b, j);
    lemma_written_replica(a, i);
    lemma_written_replica(b, j);
    law_replica_names_are_distinct(a, i, b, j);
}

pub proof fn lemma_dotted(address: u32)
    ensures
        is_dotted(address, dotted(address)),
{
    reveal_strlit(".");
    let a = (address / 0x100_0000) as u8;
    let b = (address / 0x1_0000 % 0x100) as u8;
    let c = (address / 0x100 % 0x100) as u8;
    let d = (address % 0x100) as u8;
    assert(bytes_of(address, a, b, c, d));
    assert("."@ =~= seq!['.']);
}

pub proof fn lemma_up(registry: RegistryView, node: Seq<char>, now: u64)
    ensures
        registry.resolve(node, now) is Ok <==> is_up(registry, node, now),
        is_up(registry, node, now) ==> registry.resolve(node, now) == Ok::<Seq<char>, ResolveErrorView>(
            registry.nodes[node].addr,
        ),
        !is_up(registry, node, now) ==> registry.resolve(node, now) == Err::<Seq<char>, ResolveErrorView>(
            if registry.nodes.dom().contains(node) {
                ResolveErrorView::Dead(node)
            } else {
                ResolveErrorView::Unknown(node)
            },
        ),
{
}

pub proof fn lemma_preferred(nodes: Seq<NodeResourcesView>, avoided: Set<Seq<char>>)
    ensures
        candidates_of(nodes, avoided) == preferred(nodes, avoided),
{
    lemma_idle_is_filter(nodes, avoided);
}

proof fn lemma_idle_is_filter(nodes: Seq<NodeResourcesView>, avoided: Set<Seq<char>>)
    ensures
        idle(nodes, avoided) == nodes.filter(|node: NodeResourcesView| !avoided.contains(node.id)),
    decreases nodes.len(),
{
    reveal(Seq::filter);
    if nodes.len() > 0 {
        lemma_idle_is_filter(nodes.drop_last(), avoided);
    } else {
        assert(nodes =~= Seq::empty());
    }
}

proof fn lemma_takers_up_to(registry: &Registry, now: u64, cordoned: Set<Seq<char>>, n: int)
    requires
        registry.wf(),
        0 <= n <= registry.members().len(),
    ensures
        ({
            let members = registry.members();
            let nodes = schedulable_of(members.take(n), now, registry@.dead_after, cordoned);
            &&& forall|i: int, j: int|
                0 <= i < j < nodes.len() ==> str_before((#[trigger] nodes[i]).id, (#[trigger] nodes[j]).id)
            &&& forall|i: int|
                0 <= i < nodes.len() ==> {
                    let node = #[trigger] nodes[i];
                    let known = registry@.nodes[node.id];
                    &&& is_up(registry@, node.id, now)
                    &&& !cordoned.contains(node.id)
                    &&& node.capacity_cpu == known.capacity_cpu
                    &&& node.capacity_memory == known.capacity_memory
                    &&& node.committed_cpu == known.committed_cpu
                    &&& node.committed_memory == known.committed_memory
                    &&& node.spent_cpu.len() == 0
                    &&& node.spent_memory.len() == 0
                    &&& exists|k: int| 0 <= k < n && (#[trigger] members[k]).0 == node.id
                }
            &&& forall|k: int|
                0 <= k < n && is_up(registry@, (#[trigger] members[k]).0, now) && !cordoned.contains(members[k].0)
                    ==> exists|i: int| 0 <= i < nodes.len() && (#[trigger] nodes[i]).id == members[k].0
        }),
    decreases n,
{
    registry.lemma_members();
    if n > 0 {
        lemma_takers_up_to(registry, now, cordoned, n - 1);
        let members = registry.members();
        assert(members.take(n).drop_last() =~= members.take(n - 1));
        assert(members.take(n).last() == members[n - 1]);
        let prior = schedulable_of(members.take(n - 1), now, registry@.dead_after, cordoned);
        let nodes = schedulable_of(members.take(n), now, registry@.dead_after, cordoned);
        assert forall|i: int| 0 <= i < nodes.len() implies (i < prior.len() && #[trigger] nodes[i] == prior[i]) || (i
            == prior.len() && nodes[i].id == members[n - 1].0) by {}
        assert forall|i: int| 0 <= i < nodes.len() implies exists|k: int|
            0 <= k < n && (#[trigger] members[k]).0 == (#[trigger] nodes[i]).id by {
            if i < prior.len() {
                let k = choose|k: int| 0 <= k < n - 1 && (#[trigger] members[k]).0 == prior[i].id;
                assert(members[k].0 == nodes[i].id);
            } else {
                assert(members[n - 1].0 == nodes[i].id);
            }
        }
        assert forall|i: int, j: int| 0 <= i < j < nodes.len() implies str_before(
            (#[trigger] nodes[i]).id,
            (#[trigger] nodes[j]).id,
        ) by {
            assert(nodes[i] == prior[i]);
            if j >= prior.len() {
                let k = choose|k: int| 0 <= k < n - 1 && (#[trigger] members[k]).0 == prior[i].id;
                assert(str_before(members[k].0, members[n - 1].0));
            }
        }
        assert forall|k: int|
            0 <= k < n && is_up(registry@, (#[trigger] members[k]).0, now) && !cordoned.contains(
                members[k].0,
            ) implies exists|i: int| 0 <= i < nodes.len() && (#[trigger] nodes[i]).id == members[k].0 by {
            if k < n - 1 {
                let i = choose|i: int| 0 <= i < prior.len() && (#[trigger] prior[i]).id == members[k].0;
                assert(nodes[i] == prior[i]);
            } else {
                assert(nodes[prior.len() as int].id == members[k].0);
            }
        }
    }
}

pub proof fn lemma_takers(state: ControlPlane, now: u64)
    requires
        state.wf(),
    ensures
        takers(state, now, state.schedulable(now)),
{
    let members = state.registry.members();
    let nodes = state.schedulable(now);
    lemma_takers_up_to(&state.registry, now, state.cordoned@, members.len() as int);
    assert(members.take(members.len() as int) =~= members);
    state.registry.lemma_members();
    assert forall|id: Seq<char>|
        #![trigger state.registry@.nodes.dom().contains(id)]
        is_up(state.registry@, id, now) && !state.cordoned@.contains(id) implies exists|i: int|
        0 <= i < nodes.len() && (#[trigger] nodes[i]).id == id by {
        let k = choose|k: int| 0 <= k < members.len() && (#[trigger] members[k]).0 == id;
        assert(is_up(state.registry@, members[k].0, now));
    }
}

/// A healthy replica of a service: a jail with the name of one of its replicas, that is placed on a node that is up
/// and said in its last report that the jail runs, at the address that is recorded for this very jail.
pub open spec fn serves(state: ControlPlane, service: Seq<char>, now: u64, replica: ServiceReplicaView) -> bool {
    &&& is_replica(service, replica.name)
    &&& runs_at(state, replica.name, replica.node, now)
    &&& is_dotted(state.used_addresses@[replica.name].1, replica.address)
}

/// A jail is placed on a node that is up and said in its last report that the jail runs, and has an address.
pub open spec fn runs_at(state: ControlPlane, jail: Seq<char>, node: Seq<char>, now: u64) -> bool {
    &&& state.placements.nodes().dom().contains(jail)
    &&& state.placements.nodes()[jail] == node
    &&& is_up(state.registry@, node, now)
    &&& exists|k: int|
        0 <= k < state.registry@.nodes[node].jails.len() && (#[trigger] state.registry@.nodes[node].jails[k]) == (
        JailHealthView { name: jail, running: true })
    &&& state.used_addresses@.dom().contains(jail)
}

/// A list holds the healthy replicas of a service: each of them, once, in the order of their names, and no other.
pub open spec fn lists_healthy(state: ControlPlane, service: Seq<char>, now: u64, listed: Seq<ServiceReplicaView>) -> bool {
    &&& forall|i: int| 0 <= i < listed.len() ==> serves(state, service, now, #[trigger] listed[i])
    &&& forall|i: int, j: int|
        0 <= i < j < listed.len() ==> str_before((#[trigger] listed[i]).name, (#[trigger] listed[j]).name)
    &&& forall|jail: Seq<char>|
        is_replica(service, jail) && #[trigger] runs_at(state, jail, state.placements.nodes()[jail], now)
            ==> exists|i: int| 0 <= i < listed.len() && (#[trigger] listed[i]).name == jail
}

/// A placed jail counts as healthy exactly if it serves, with its own address.
proof fn lemma_serves(state: ControlPlane, service: Seq<char>, now: u64, replica: ServiceReplicaView)
    requires
        state.placements.nodes().dom().contains(replica.name),
        state.placements.nodes()[replica.name] == replica.node,
        replica.address == dotted(state.used_addresses@[replica.name].1),
    ensures
        is_healthy(service, replica.name, replica.node, state.registry@, state.used_addresses@, now) <==> serves(
            state,
            service,
            now,
            replica,
        ),
        is_replica(service, replica.name) && runs_at(state, replica.name, replica.node, now) ==> serves(
            state,
            service,
            now,
            replica,
        ),
{
    lemma_is_replica(service, replica.name);
    lemma_up(state.registry@, replica.node, now);
    lemma_dotted(state.used_addresses@[replica.name].1);
    lemma_running(state.registry@.nodes[replica.node], replica.name);
}

/// What is kept of a list that ascends by name.
proof fn lemma_kept(placed: Seq<(Seq<char>, Seq<char>)>, keep: spec_fn((Seq<char>, Seq<char>)) -> bool)
    requires
        forall|i: int, j: int|
            0 <= i < j < placed.len() ==> str_before((#[trigger] placed[i]).0, (#[trigger] placed[j]).0),
    ensures
        forall|i: int|
            0 <= i < placed.filter(keep).len() ==> keep(#[trigger] placed.filter(keep)[i]) && placed.contains(
                placed.filter(keep)[i],
            ),
        forall|i: int, j: int|
            0 <= i < j < placed.filter(keep).len() ==> str_before(
                (#[trigger] placed.filter(keep)[i]).0,
                (#[trigger] placed.filter(keep)[j]).0,
            ),
        forall|k: int| 0 <= k < placed.len() && keep(#[trigger] placed[k]) ==> placed.filter(keep).contains(placed[k]),
    decreases placed.len(),
{
    reveal(Seq::filter);
    if placed.len() > 0 {
        let rest = placed.drop_last();
        let n = placed.len() - 1;
        lemma_kept(rest, keep);
        let prior = rest.filter(keep);
        let r = placed.filter(keep);
        assert(placed[n] == placed.last());
        assert forall|i: int| 0 <= i < r.len() implies keep(#[trigger] r[i]) && placed.contains(r[i]) by {
            if i < prior.len() {
                assert(r[i] == prior[i]);
                let k = choose|k: int| 0 <= k < rest.len() && rest[k] == prior[i];
                assert(placed[k] == r[i]);
            }
        }
        assert forall|i: int, j: int| 0 <= i < j < r.len() implies str_before(
            (#[trigger] r[i]).0,
            (#[trigger] r[j]).0,
        ) by {
            assert(r[i] == prior[i]);
            if j < prior.len() {
                assert(r[j] == prior[j]);
            } else {
                let k = choose|k: int| 0 <= k < rest.len() && rest[k] == prior[i];
                assert(placed[k] == r[i]);
                assert(str_before(placed[k].0, placed[n].0));
            }
        }
        assert forall|k: int| 0 <= k < placed.len() && keep(#[trigger] placed[k]) implies r.contains(placed[k]) by {
            if k < n {
                assert(rest[k] == placed[k]);
                let i = choose|i: int| 0 <= i < prior.len() && prior[i] == rest[k];
                assert(r[i] == placed[k]);
            } else {
                assert(r[r.len() - 1] == placed[k]);
            }
        }
    }
}

/// The healthy replicas are the placed jails that are healthy, each with its own address.
proof fn lemma_healthy_is_filter(
    service: Seq<char>,
    placed: Seq<(Seq<char>, Seq<char>)>,
    registry: RegistryView,
    used: Map<Seq<char>, (Seq<char>, u32)>,
    now: u64,
)
    ensures
        healthy_of(service, placed, registry, used, now) == placed.filter(
            |p: (Seq<char>, Seq<char>)| is_healthy(service, p.0, p.1, registry, used, now),
        ).map_values(
            |p: (Seq<char>, Seq<char>)| ServiceReplicaView { name: p.0, node: p.1, address: dotted(used[p.0].1) },
        ),
    decreases placed.len(),
{
    reveal(Seq::filter);
    let keep = |p: (Seq<char>, Seq<char>)| is_healthy(service, p.0, p.1, registry, used, now);
    let to = |p: (Seq<char>, Seq<char>)| ServiceReplicaView { name: p.0, node: p.1, address: dotted(used[p.0].1) };
    if placed.len() > 0 {
        let rest = placed.drop_last();
        lemma_healthy_is_filter(service, rest, registry, used, now);
        if keep(placed.last()) {
            assert(placed.filter(keep).map_values(to) =~= rest.filter(keep).map_values(to).push(to(placed.last())));
        }
    } else {
        assert(placed.filter(keep).map_values(to) =~= Seq::empty());
    }
}

proof fn lemma_running(node: NodeView, jail: Seq<char>)
    ensures
        node.runs(jail) <==> exists|k: int|
            0 <= k < node.jails.len() && (#[trigger] node.jails[k]) == (JailHealthView { name: jail, running: true }),
{
    let wanted = JailHealthView { name: jail, running: true };
    if node.runs(jail) {
        let k = choose|k: int| 0 <= k < node.jails.len() && node.jails[k] == wanted;
        assert(node.jails[k] == wanted);
    }
}

proof fn lemma_healthy(state: ControlPlane, service: Seq<char>, now: u64)
    requires
        state.wf(),
    ensures
        lists_healthy(
            state,
            service,
            now,
            healthy_of(service, state.placements.placed(), state.registry@, state.used_addresses@, now),
        ),
{
    let placed = state.placements.placed();
    let r = healthy_of(service, placed, state.registry@, state.used_addresses@, now);
    let keep = |p: (Seq<char>, Seq<char>)|
        is_healthy(service, p.0, p.1, state.registry@, state.used_addresses@, now);
    let kept = placed.filter(keep);
    state.placements.lemma_placed();
    lemma_kept(placed, keep);
    lemma_healthy_is_filter(service, placed, state.registry@, state.used_addresses@, now);
    assert forall|i: int| 0 <= i < r.len() implies serves(state, service, now, #[trigger] r[i]) by {
        assert(r[i].name == kept[i].0 && r[i].node == kept[i].1);
        assert(keep(kept[i]) && placed.contains(kept[i]));
        let k = choose|k: int| 0 <= k < placed.len() && placed[k] == kept[i];
        assert(placed[k].0 == r[i].name);
        lemma_serves(state, service, now, r[i]);
    }
    assert forall|i: int, j: int| 0 <= i < j < r.len() implies str_before(
        (#[trigger] r[i]).name,
        (#[trigger] r[j]).name,
    ) by {
        assert(r[i].name == kept[i].0 && r[j].name == kept[j].0);
    }
    assert forall|jail: Seq<char>|
        is_replica(service, jail) && #[trigger] runs_at(state, jail, state.placements.nodes()[jail], now) implies exists|
        i: int,
    | 0 <= i < r.len() && (#[trigger] r[i]).name == jail by {
        let k = choose|k: int| 0 <= k < placed.len() && (#[trigger] placed[k]).0 == jail;
        let node = state.placements.nodes()[jail];
        assert(placed[k].1 == node);
        lemma_serves(
            state,
            service,
            now,
            ServiceReplicaView { name: jail, node, address: dotted(state.used_addresses@[jail].1) },
        );
        assert(keep(placed[k]));
        let i = choose|i: int| 0 <= i < kept.len() && kept[i] == placed[k];
        assert(r[i].name == jail);
    }
}

/// Discovering a service lists its healthy replicas, each with its own node and its own address. A service that
/// there is not is an error.
pub proof fn law_discovery<F: Fn(&Vec<NodeResources>) -> Option<usize>>(
    before: ControlPlane,
    name: String,
    now: u64,
    best: F,
    after: ControlPlane,
    out: Outcome,
)
    requires
        before.wf(),
        handled(before, Command::DiscoverService(name), now, best, after, out),
    ensures
        after == before,
        out.persist is None,
        match out.reply {
            Reply::Replicas(Ok(replicas)) => before.services@.dom().contains(name@) && lists_healthy(
                before,
                name@,
                now,
                views(replicas@),
            ),
            Reply::Replicas(Err(e)) => !before.services@.dom().contains(name@) && e.0@ == name@,
            _ => false,
        },
{
    lemma_healthy(before, name@, now);
}

/// The entries for the proxies are the services in the order of their names, each with its own address, its port and
/// its healthy replicas.
pub proof fn law_proxy_entries<F: Fn(&Vec<NodeResources>) -> Option<usize>>(
    before: ControlPlane,
    now: u64,
    best: F,
    after: ControlPlane,
    out: Outcome,
)
    requires
        before.wf(),
        handled(before, Command::ListServiceProxyEntries, now, best, after, out),
    ensures
        after == before,
        out.persist is None,
        out.reply is ProxyEntries,
        ({
            let entries = out.reply->ProxyEntries_0@;
            &&& forall|i: int|
                0 <= i < entries.len() ==> {
                    let entry = (#[trigger] entries[i])@;
                    &&& before.services@.dom().contains(entry.name)
                    &&& is_dotted(before.services@[entry.name].vip, entry.vip)
                    &&& entry.port == before.services@[entry.name].port
                    &&& lists_healthy(before, entry.name, now, entry.replicas)
                }
            &&& forall|i: int, j: int|
                0 <= i < j < entries.len() ==> str_before((#[trigger] entries[i])@.name, (#[trigger] entries[j])@.name)
            &&& forall|service: Seq<char>| #[trigger]
                before.services@.dom().contains(service) ==> exists|i: int|
                    0 <= i < entries.len() && (#[trigger] entries[i])@.name == service
        }),
{
    before.services.lemma_listed();
    let listed = before.services.listed();
    let entries = out.reply->ProxyEntries_0@;
    assert forall|i: int| 0 <= i < entries.len() implies (#[trigger] entries[i])@.name == listed[i].0 && is_dotted(
        listed[i].1.vip,
        entries[i]@.vip,
    ) && lists_healthy(before, entries[i]@.name, now, entries[i]@.replicas) by {
        lemma_dotted(listed[i].1.vip);
        lemma_healthy(before, listed[i].0, now);
    }
    assert forall|service: Seq<char>| #[trigger] before.services@.dom().contains(service) implies exists|i: int|
        0 <= i < entries.len() && (#[trigger] entries[i])@.name == service by {
        let i = choose|i: int| 0 <= i < listed.len() && (#[trigger] listed[i]).0 == service;
        assert(entries[i]@.name == service);
    }
}

/// The list of services is all of them in the order of their names, each with its own number of replicas, address
/// and port.
pub proof fn law_services_listed<F: Fn(&Vec<NodeResources>) -> Option<usize>>(
    before: ControlPlane,
    now: u64,
    best: F,
    after: ControlPlane,
    out: Outcome,
)
    requires
        before.wf(),
        handled(before, Command::ListServices, now, best, after, out),
    ensures
        after == before,
        out.persist is None,
        out.reply is Services,
        ({
            let summaries = out.reply->Services_0@;
            &&& forall|i: int|
                0 <= i < summaries.len() ==> {
                    let summary = (#[trigger] summaries[i])@;
                    &&& before.services@.dom().contains(summary.name)
                    &&& summary.desired_replicas == before.services@[summary.name].desired_replicas
                    &&& is_dotted(before.services@[summary.name].vip, summary.vip)
                    &&& summary.port == before.services@[summary.name].port
                }
            &&& forall|i: int, j: int|
                0 <= i < j < summaries.len() ==> str_before(
                    (#[trigger] summaries[i])@.name,
                    (#[trigger] summaries[j])@.name,
                )
            &&& forall|service: Seq<char>| #[trigger]
                before.services@.dom().contains(service) ==> exists|i: int|
                    0 <= i < summaries.len() && (#[trigger] summaries[i])@.name == service
        }),
{
    before.services.lemma_listed();
    let listed = before.services.listed();
    let summaries = out.reply->Services_0@;
    assert forall|i: int| 0 <= i < summaries.len() implies (#[trigger] summaries[i])@.name == listed[i].0 && is_dotted(
        listed[i].1.vip,
        summaries[i]@.vip,
    ) by {
        lemma_dotted(listed[i].1.vip);
    }
    assert forall|service: Seq<char>| #[trigger] before.services@.dom().contains(service) implies exists|i: int|
        0 <= i < summaries.len() && (#[trigger] summaries[i])@.name == service by {
        let i = choose|i: int| 0 <= i < listed.len() && (#[trigger] listed[i]).0 == service;
        assert(summaries[i]@.name == service);
    }
}

/// A jail is placed on a node that is up, and that has this address.
pub open spec fn placed_at(state: ControlPlane, jail: Seq<char>, node: Seq<char>, addr: Seq<char>, now: u64) -> bool {
    &&& state.placements.nodes().dom().contains(jail)
    &&& state.placements.nodes()[jail] == node
    &&& is_up(state.registry@, node, now)
    &&& state.registry@.nodes[node].addr == addr
}

/// Some actions tear a service down: each ends a jail that has the name of a replica of the service, on the node
/// where that jail is placed, and every such jail whose node is up is ended once, in the order of the names.
pub open spec fn tears_down(state: ControlPlane, service: Seq<char>, now: u64, actions: Seq<ReplicaActionView>) -> bool {
    &&& forall|i: int|
        0 <= i < actions.len() ==> ((#[trigger] actions[i]) matches ReplicaActionView::TearDown {
            replica_name,
            node_id,
            node_addr,
        } && is_replica(service, replica_name) && placed_at(state, replica_name, node_id, node_addr, now))
    &&& forall|i: int, j: int|
        0 <= i < j < actions.len() ==> str_before(
            (#[trigger] actions[i])->TearDown_replica_name,
            (#[trigger] actions[j])->TearDown_replica_name,
        )
    &&& forall|jail: Seq<char>|
        #[trigger] state.placements.nodes().dom().contains(jail) && is_replica(service, jail) && is_up(
            state.registry@,
            state.placements.nodes()[jail],
            now,
        ) ==> exists|i: int| 0 <= i < actions.len() && (#[trigger] actions[i])->TearDown_replica_name == jail
}

proof fn lemma_teardowns_up_to(state: ControlPlane, service: Seq<char>, now: u64, n: int)
    requires
        state.wf(),
        0 <= n <= state.placements.placed().len(),
    ensures
        ({
            let placed = state.placements.placed();
            let r = teardowns_of(service, placed.take(n), state.registry@, now);
            &&& forall|i: int|
                0 <= i < r.len() ==> ((#[trigger] r[i]) matches ReplicaActionView::TearDown {
                    replica_name,
                    node_id,
                    node_addr,
                } && is_replica(service, replica_name) && placed_at(state, replica_name, node_id, node_addr, now)
                    && exists|k: int| 0 <= k < n && (#[trigger] placed[k]).0 == replica_name)
            &&& forall|i: int, j: int|
                0 <= i < j < r.len() ==> str_before(
                    (#[trigger] r[i])->TearDown_replica_name,
                    (#[trigger] r[j])->TearDown_replica_name,
                )
            &&& forall|k: int|
                0 <= k < n && is_replica(service, (#[trigger] placed[k]).0) && is_up(state.registry@, placed[k].1, now)
                    ==> exists|i: int| 0 <= i < r.len() && (#[trigger] r[i])->TearDown_replica_name == placed[k].0
        }),
    decreases n,
{
    let placed = state.placements.placed();
    state.placements.lemma_placed();
    if n > 0 {
        lemma_teardowns_up_to(state, service, now, n - 1);
        assert(placed.take(n).drop_last() =~= placed.take(n - 1));
        assert(placed.take(n).last() == placed[n - 1]);
        let prior = teardowns_of(service, placed.take(n - 1), state.registry@, now);
        let r = teardowns_of(service, placed.take(n), state.registry@, now);
        let (jail, node) = placed[n - 1];
        lemma_is_replica(service, jail);
        lemma_up(state.registry@, node, now);
        assert forall|i: int| 0 <= i < r.len() implies ((#[trigger] r[i]) matches ReplicaActionView::TearDown {
            replica_name,
            node_id,
            node_addr,
        } && is_replica(service, replica_name) && placed_at(state, replica_name, node_id, node_addr, now) && exists|k: int|
            0 <= k < n && (#[trigger] placed[k]).0 == replica_name) by {
            if i < prior.len() {
                assert(r[i] == prior[i]);
                let k = choose|k: int| 0 <= k < n - 1 && (#[trigger] placed[k]).0 == prior[i]->TearDown_replica_name;
                assert(placed[k].0 == r[i]->TearDown_replica_name);
            } else {
                assert(placed[n - 1].0 == r[i]->TearDown_replica_name);
                assert(placed_at(state, jail, node, state.registry@.nodes[node].addr, now));
            }
        }
        assert forall|i: int, j: int| 0 <= i < j < r.len() implies str_before(
            (#[trigger] r[i])->TearDown_replica_name,
            (#[trigger] r[j])->TearDown_replica_name,
        ) by {
            assert(r[i] == prior[i]);
            if j < prior.len() {
                assert(r[j] == prior[j]);
            } else {
                let k = choose|k: int| 0 <= k < n - 1 && (#[trigger] placed[k]).0 == prior[i]->TearDown_replica_name;
                assert(str_before(placed[k].0, placed[n - 1].0));
            }
        }
        assert forall|k: int|
            0 <= k < n && is_replica(service, (#[trigger] placed[k]).0) && is_up(
                state.registry@,
                placed[k].1,
                now,
            ) implies exists|i: int| 0 <= i < r.len() && (#[trigger] r[i])->TearDown_replica_name == placed[k].0 by {
            if k < n - 1 {
                let i = choose|i: int| 0 <= i < prior.len() && (#[trigger] prior[i])->TearDown_replica_name == placed[k].0;
                assert(r[i] == prior[i]);
            } else {
                assert(r[prior.len() as int]->TearDown_replica_name == placed[k].0);
            }
        }
    }
}

/// Deleting a service tears down each of its placed replicas whose node is up, and nothing else, and takes the
/// service and nothing else out of the tables. A service that there is not is an error.
pub proof fn law_deletion<F: Fn(&Vec<NodeResources>) -> Option<usize>>(
    before: ControlPlane,
    name: String,
    now: u64,
    best: F,
    after: ControlPlane,
    out: Outcome,
)
    requires
        before.wf(),
        handled(before, Command::DeleteService(name), now, best, after, out),
    ensures
        match out.reply {
            Reply::Deleted(Ok(actions)) => {
                &&& out.persist == Some(StateFile::Services)
                &&& before.services@.dom().contains(name@)
                &&& tears_down(before, name@, now, views(actions@))
                &&& !after.services@.dom().contains(name@)
                &&& forall|other: Seq<char>|
                    other != name@ ==> (#[trigger] after.services@.dom().contains(other)
                        == before.services@.dom().contains(other)) && (before.services@.dom().contains(other)
                        ==> after.services@[other] == before.services@[other])
                &&& after == (ControlPlane { services: after.services, ..before })
            },
            Reply::Deleted(Err(e)) => !before.services@.dom().contains(name@) && e.0@ == name@ && after == before
                && out.persist is None,
            _ => false,
        },
{
    let placed = before.placements.placed();
    let r = teardowns_of(name@, placed, before.registry@, now);
    before.placements.lemma_placed();
    assert(placed.take(placed.len() as int) =~= placed);
    lemma_teardowns_up_to(before, name@, now, placed.len() as int);
    assert forall|jail: Seq<char>|
        #[trigger] before.placements.nodes().dom().contains(jail) && is_replica(name@, jail) && is_up(
            before.registry@,
            before.placements.nodes()[jail],
            now,
        ) implies exists|i: int| 0 <= i < r.len() && (#[trigger] r[i])->TearDown_replica_name == jail by {
        let k = choose|k: int| 0 <= k < placed.len() && (#[trigger] placed[k]).0 == jail;
        assert(is_up(before.registry@, placed[k].1, now));
    }
}

/// Why there is no way to a node that is not up.
pub open spec fn is_down(registry: RegistryView, node: Seq<char>, now: u64, error: ResolveErrorView) -> bool {
    &&& !is_up(registry, node, now)
    &&& match error {
        ResolveErrorView::Unknown(id) => id == node && !registry.nodes.dom().contains(node),
        ResolveErrorView::Dead(id) => id == node && registry.nodes.dom().contains(node),
    }
}

/// A replica is placed, has a standby and may be moved: its node is down, unless an alive primary is allowed.
pub open spec fn may_move(state: ControlPlane, replica: Seq<char>, allow_alive: bool, now: u64) -> bool {
    &&& state.placements.nodes().dom().contains(replica)
    &&& state.standbys@.dom().contains(replica)
    &&& allow_alive || !is_up(state.registry@, state.placements.nodes()[replica], now)
}

/// A replica may be moved, its standby is up, and it is a replica of this service.
pub open spec fn can_move(state: ControlPlane, replica: Seq<char>, allow_alive: bool, now: u64, service: Seq<char>) -> bool {
    &&& may_move(state, replica, allow_alive, now)
    &&& is_up(state.registry@, state.standbys@[replica], now)
    &&& state.services@.dom().contains(service)
    &&& is_replica(service, replica)
}

/// The node that is offered as the next standby may be this, or none: `best` picks among the nodes that take
/// replicas and are neither the old primary nor the standby, or among all that take replicas if there is no other.
pub open spec fn may_be_next<F: Fn(&Vec<NodeResources>) -> Option<usize>>(
    state: ControlPlane,
    replica: Seq<char>,
    now: u64,
    best: F,
    next: Option<Seq<char>>,
) -> bool {
    exists|nodes: Seq<NodeResourcesView>| #[trigger]
        takers(state, now, nodes) && may_be_picked(
            best,
            preferred(nodes, set![state.placements.nodes()[replica], state.standbys@[replica]]),
            next,
        )
}

/// `best` may pick this of some nodes, or none of them.
pub open spec fn may_be_picked<F: Fn(&Vec<NodeResources>) -> Option<usize>>(
    best: F,
    nodes: Seq<NodeResourcesView>,
    id: Option<Seq<char>>,
) -> bool {
    exists|pick: Option<usize>| #[trigger]
        chosen_by(best, nodes, pick) && match id {
            Some(id) => names_node(nodes, pick, id),
            None => pick is None || pick->0 >= nodes.len(),
        }
}

/// A node is fit to be the next standby: it is another than the two, and takes in replication.
pub open spec fn fit_as_standby(state: ControlPlane, replica: Seq<char>, id: Seq<char>) -> bool {
    &&& id != state.placements.nodes()[replica]
    &&& id != state.standbys@[replica]
    &&& state.registry@.nodes.dom().contains(id)
    &&& state.registry@.nodes[id].replicate_addr is Some
}

/// The preparations for moving a replica say where it was, where its standby is, and what the standby needs to take
/// its place.
pub open spec fn is_prepared(
    state: ControlPlane,
    replica: Seq<char>,
    service: Seq<char>,
    prep: ForceRepinPrepView,
) -> bool {
    let old_node = state.placements.nodes()[replica];
    let standby = state.standbys@[replica];
    let known = state.registry@.nodes;
    &&& prep.old_node_id == old_node
    &&& prep.old_node_last_known_addr == if known.dom().contains(old_node) {
        Some(known[old_node].addr)
    } else {
        None
    }
    &&& prep.standby_node_id == standby
    &&& prep.standby_addr == known[standby].addr
    &&& prep.template == state.services@[service].template
    &&& prep.fresh_standby_addr == known[prep.fresh_standby_node_id].replicate_addr->0
    &&& is_lowest_unused(known[standby].pod_cidr, standby, state.used_addresses@, prep.address)
    &&& prep.prefix_len == known[standby].pod_cidr.prefix_len
    &&& prep.next_generation == state.placements.count(replica) + 1
}

pub proof fn lemma_lowest_unused(block: Ipv4Cidr, node: Seq<char>, used: Map<Seq<char>, (Seq<char>, u32)>)
    ensures
        match crate::controlplane::addresses::first_free(block, node, used) {
            Some(address) => is_lowest_unused(block, node, used, address),
            None => is_full(block, node, used),
        },
{
    lemma_first_free_is(block, node, used);
    assert forall|a: int| #[trigger] unused(used, node, a) == is_free(used, node, a) by {
        if unused(used, node, a) {
            assert forall|jail: Seq<char>| #[trigger] used.dom().contains(jail) implies !(used[jail].0 == node
                && used[jail].1 == a) by {}
        }
    }
}

/// What preparing to move a replica answers. A move is prepared exactly if the replica is placed, has a standby that
/// is up, is a replica of a service, is not primary on a node that is up (a drain moves it all the same), a node fit
/// to be the next standby is picked, and the standby's node has an address left. Otherwise the first of these that
/// fails is told.
pub proof fn law_moves_are_prepared<F: Fn(&Vec<NodeResources>) -> Option<usize>>(
    before: ControlPlane,
    replica: String,
    allow_alive: bool,
    now: u64,
    best: F,
    after: ControlPlane,
    out: Outcome,
)
    requires
        before.wf(),
        before.placements.countable(),
        handled(
            before,
            if allow_alive {
                Command::PrepareDrainRepin(replica)
            } else {
                Command::PrepareForceRepin(replica)
            },
            now,
            best,
            after,
            out,
        ),
    ensures
        after == before,
        out.persist is None,
        out.reply is Repin,
        match out.reply->Repin_0 {
            Ok(prep) => exists|service: Seq<char>|
                {
                    &&& #[trigger] can_move(before, replica@, allow_alive, now, service)
                    &&& is_prepared(before, replica@, service, prep@)
                    &&& may_be_next(before, replica@, now, best, Some(prep@.fresh_standby_node_id))
                    &&& fit_as_standby(before, replica@, prep@.fresh_standby_node_id)
                },
            Err(e) => match e@ {
                ForceRepinErrorView::NotPlaced(name) => name == replica@
                    && !before.placements.nodes().dom().contains(replica@),
                ForceRepinErrorView::NotStateful(name) => {
                    &&& name == replica@
                    &&& before.placements.nodes().dom().contains(replica@)
                    &&& before.standbys@.dom().contains(replica@) ==> {
                        &&& may_move(before, replica@, allow_alive, now)
                        &&& is_up(before.registry@, before.standbys@[replica@], now)
                        &&& forall|service: Seq<char>| #[trigger]
                            before.services@.dom().contains(service) ==> !is_replica(service, replica@)
                    }
                },
                ForceRepinErrorView::PrimaryStillAlive(id) => {
                    &&& !allow_alive
                    &&& before.placements.nodes().dom().contains(replica@)
                    &&& before.standbys@.dom().contains(replica@)
                    &&& id == before.placements.nodes()[replica@]
                    &&& is_up(before.registry@, id, now)
                },
                ForceRepinErrorView::StandbyUnresolvable(why) => may_move(before, replica@, allow_alive, now) && is_down(
                    before.registry@,
                    before.standbys@[replica@],
                    now,
                    why,
                ),
                ForceRepinErrorView::NoFreshStandby => exists|service: Seq<char>, next: Option<Seq<char>>|
                    {
                        &&& #[trigger] can_move(before, replica@, allow_alive, now, service)
                        &&& #[trigger] may_be_next(before, replica@, now, best, next)
                        &&& next matches Some(id) ==> !fit_as_standby(before, replica@, id)
                    },
                ForceRepinErrorView::NoFreeAddress => exists|service: Seq<char>, next: Option<Seq<char>>|
                    {
                        &&& #[trigger] can_move(before, replica@, allow_alive, now, service)
                        &&& #[trigger] may_be_next(before, replica@, now, best, next)
                        &&& next matches Some(id) && fit_as_standby(before, replica@, id)
                        &&& is_full(
                            before.registry@.nodes[before.standbys@[replica@]].pod_cidr,
                            before.standbys@[replica@],
                            before.used_addresses@,
                        )
                    },
            },
        },
{
    let name = replica@;
    let old_node = before.placements.nodes()[name];
    let standby = before.standbys@[name];
    lemma_up(before.registry@, old_node, now);
    lemma_up(before.registry@, standby, now);
    assert forall|service: Seq<char>| #[trigger] before.services@.dom().contains(service) implies (is_replica(
        service,
        name,
    ) <==> replica_index_of(service, name) is Some) by {
        lemma_is_replica(service, name);
    }
    if let Ok(ready) = before.repin_ready(name, allow_alive, now) {
        let service = choose|s: Seq<char>| #[trigger]
            before.services@.dom().contains(s) && replica_index_of(s, name) is Some;
        assert(can_move(before, name, allow_alive, now, service));
        let nodes = before.schedulable(now);
        let avoided = set![old_node, standby];
        let pick = choose|pick: Option<usize>| #[trigger]
            crate::controlplane::worker::may_pick(best, before.repin_candidates(ready, now), pick)
                && crate::controlplane::worker::repin_view(out.reply->Repin_0) == before.repin_with(
                name,
                ready,
                now,
                pick,
            );
        lemma_takers(before, now);
        lemma_preferred(nodes, avoided);
        assert(before.repin_candidates(ready, now) == preferred(nodes, avoided));
        assert(chosen_by(best, preferred(nodes, avoided), pick));
        let next = picked(preferred(nodes, avoided), pick);
        assert(may_be_picked(best, preferred(nodes, avoided), next));
        assert(may_be_next(before, name, now, best, next));
        lemma_lowest_unused(before.registry@.nodes[standby].pod_cidr, standby, before.used_addresses@);
    }
}

/// A node that is up is found at the address that it registered with; any other is told to be unknown or dead.
pub proof fn law_resolution<F: Fn(&Vec<NodeResources>) -> Option<usize>>(
    before: ControlPlane,
    id: String,
    now: u64,
    best: F,
    after: ControlPlane,
    out: Outcome,
)
    requires
        handled(before, Command::Resolve(id), now, best, after, out),
    ensures
        after == before,
        out.persist is None,
        match out.reply {
            Reply::Resolved(Ok(addr)) => is_up(before.registry@, id@, now) && addr@ == before.registry@.nodes[id@].addr,
            Reply::Resolved(Err(e)) => is_down(before.registry@, id@, now, e@),
            _ => false,
        },
{
    lemma_up(before.registry@, id@, now);
}

/// A placed jail is found on its node at that node's address, if the node is up; one that is not placed is told so.
pub proof fn law_placements_are_found<F: Fn(&Vec<NodeResources>) -> Option<usize>>(
    before: ControlPlane,
    jail: String,
    now: u64,
    best: F,
    after: ControlPlane,
    out: Outcome,
)
    requires
        handled(before, Command::ResolvePlacement(jail), now, best, after, out),
    ensures
        after == before,
        out.persist is None,
        match out.reply {
            Reply::Placement(Ok(found)) => placed_at(before, jail@, found.0@, found.1@, now),
            Reply::Placement(Err(PlacementError::NotPlaced(name))) => name@ == jail@
                && !before.placements.nodes().dom().contains(jail@),
            Reply::Placement(Err(PlacementError::Resolve(e))) => before.placements.nodes().dom().contains(jail@)
                && is_down(before.registry@, before.placements.nodes()[jail@], now, e@),
            _ => false,
        },
{
    lemma_up(before.registry@, before.placements.nodes()[jail@], now);
}

/// A placed jail stays on its node; for any other, `best` picks one of all the nodes that take replicas.
pub proof fn law_jails_are_resolved_or_scheduled<F: Fn(&Vec<NodeResources>) -> Option<usize>>(
    before: ControlPlane,
    jail: String,
    now: u64,
    best: F,
    after: ControlPlane,
    out: Outcome,
)
    requires
        before.wf(),
        handled(before, Command::ResolveOrSchedule(jail), now, best, after, out),
    ensures
        after == before,
        out.persist is None,
        out.reply is Scheduled,
        before.placements.nodes().dom().contains(jail@) ==> match out.reply->Scheduled_0 {
            Ok(found) => placed_at(before, jail@, found.0@, found.1@, now),
            Err(ScheduleOrResolveError::Resolve(e)) => is_down(
                before.registry@,
                before.placements.nodes()[jail@],
                now,
                e@,
            ),
            Err(ScheduleOrResolveError::Schedule(_)) => false,
        },
        !before.placements.nodes().dom().contains(jail@) ==> exists|nodes: Seq<NodeResourcesView>|
            {
                &&& #[trigger] takers(before, now, nodes)
                &&& match out.reply->Scheduled_0 {
                    Ok(found) => may_be_picked(best, nodes, Some(found.0@)) && found.1@
                        == before.registry@.nodes[found.0@].addr,
                    Err(ScheduleOrResolveError::Schedule(ScheduleError::NoAvailableNodes)) => may_be_picked(
                        best,
                        nodes,
                        None,
                    ),
                    Err(ScheduleOrResolveError::Resolve(_)) => false,
                }
            },
{
    lemma_up(before.registry@, before.placements.nodes()[jail@], now);
    lemma_takers(before, now);
    let nodes = before.schedulable(now);
    let r = out.reply->Scheduled_0;
    let pick = choose|pick: Option<usize>| #[trigger]
        crate::controlplane::worker::may_pick(best, nodes, pick) && before.found(jail@, now, pick, r);
    assert(chosen_by(best, nodes, pick));
    if let Some(id) = picked(nodes, pick) {
        assert(is_up(before.registry@, nodes[pick->0 as int].id, now));
        lemma_up(before.registry@, id, now);
    }
}

/// A node registers with what it says of itself, and with no report yet; it was heard from now. It is refused exactly
/// if another node has its block, and nothing is changed then. No other node is touched.
pub proof fn law_registration<F: Fn(&Vec<NodeResources>) -> Option<usize>>(
    before: ControlPlane,
    id: String,
    reg: Registration,
    now: u64,
    best: F,
    after: ControlPlane,
    out: Outcome,
)
    requires
        handled(before, Command::Register(id, reg), now, best, after, out),
    ensures
        out.persist is None,
        after.registry@.dead_after == before.registry@.dead_after,
        after == (ControlPlane { registry: after.registry, ..before }),
        forall|other: Seq<char>|
            other != id@ ==> #[trigger] after.registry@.nodes.dom().contains(other)
                == before.registry@.nodes.dom().contains(other) && (before.registry@.nodes.dom().contains(other)
                ==> after.registry@.nodes[other] == before.registry@.nodes[other]),
        match out.reply {
            Reply::Registered(Ok(block)) => {
                let node = after.registry@.nodes[id@];
                &&& block == reg.pod_cidr
                &&& forall|other: Seq<char>| #[trigger]
                    before.registry@.nodes.dom().contains(other) && other != id@
                        ==> before.registry@.nodes[other].pod_cidr != reg.pod_cidr
                &&& after.registry@.nodes.dom().contains(id@)
                &&& node.addr == reg.addr@
                &&& node.replicate_addr == opt_view(reg.replicate_addr)
                &&& node.pod_cidr == reg.pod_cidr
                &&& node.capacity_cpu == reg.capacity_cpu@
                &&& node.capacity_memory == reg.capacity_memory
                &&& node.committed_cpu.bits == 0
                &&& node.committed_memory == 0
                &&& node.jails.len() == 0
                &&& node.ingresses.len() == 0
                &&& node.last_seen == now
            },
            Reply::Registered(Err(e)) => {
                &&& e.id@ == id@
                &&& e.other@ != id@
                &&& before.registry@.nodes.dom().contains(e.other@)
                &&& before.registry@.nodes[e.other@].pod_cidr == reg.pod_cidr
                &&& after == before
            },
            _ => false,
        },
{
    if let Reply::Registered(Ok(_)) = out.reply {
        assert forall|other: Seq<char>| #[trigger]
            before.registry@.nodes.dom().contains(other) && other != id@ implies before.registry@.nodes[other].pod_cidr
            != reg.pod_cidr by {
            assert(!before.registry@.block_taken(id@, reg.pod_cidr, other));
        }
    }
}

/// A heartbeat of a registered node replaces what it reported, notes that it was heard from now, and touches neither
/// what it registered with nor any other node. A heartbeat of any other node is refused.
pub proof fn law_heartbeats<F: Fn(&Vec<NodeResources>) -> Option<usize>>(
    before: ControlPlane,
    id: String,
    report: Report,
    now: u64,
    best: F,
    after: ControlPlane,
    out: Outcome,
)
    requires
        handled(before, Command::Heartbeat(id, report), now, best, after, out),
    ensures
        out.persist is None,
        after.registry@.dead_after == before.registry@.dead_after,
        after == (ControlPlane { registry: after.registry, ..before }),
        forall|other: Seq<char>| #[trigger]
            after.registry@.nodes.dom().contains(other) == before.registry@.nodes.dom().contains(other) && (other != id@
                && before.registry@.nodes.dom().contains(other) ==> after.registry@.nodes[other]
                == before.registry@.nodes[other]),
        match out.reply {
            Reply::Heartbeat(Ok(_)) => {
                let old_node = before.registry@.nodes[id@];
                let node = after.registry@.nodes[id@];
                &&& before.registry@.nodes.dom().contains(id@)
                &&& node.committed_cpu == report.committed_cpu@
                &&& node.committed_memory == report.committed_memory
                &&& node.jails == views(report.jails@)
                &&& node.ingresses == views(report.ingresses@)
                &&& node.last_seen == now
                &&& node.addr == old_node.addr
                &&& node.replicate_addr == old_node.replicate_addr
                &&& node.pod_cidr == old_node.pod_cidr
                &&& node.capacity_cpu == old_node.capacity_cpu
                &&& node.capacity_memory == old_node.capacity_memory
            },
            Reply::Heartbeat(Err(e)) => !before.registry@.nodes.dom().contains(id@) && e.0@ == id@,
            _ => false,
        },
{
}

/// The status of a node says what it registered with and reported, whether it is up, and for how many whole seconds
/// it was silent.
pub open spec fn is_status(registry: RegistryView, now: u64, status: NodeStatusView) -> bool {
    let node = registry.nodes[status.id];
    &&& registry.nodes.dom().contains(status.id)
    &&& status.addr == node.addr
    &&& exists|address: Seq<char>| #[trigger]
        is_dotted(node.pod_cidr.addr, address) && status.pod_cidr == address + seq!['/'] + decimal(
            node.pod_cidr.prefix_len as nat,
        )
    &&& status.status == (if is_up(registry, status.id, now) {
        NodeState::Alive
    } else {
        NodeState::Dead
    })
    &&& now >= node.last_seen ==> status.last_seen_secs * 1_000_000_000 <= now - node.last_seen < (
    status.last_seen_secs + 1) * 1_000_000_000
    &&& now < node.last_seen ==> status.last_seen_secs == 0
    &&& status.capacity_cpu == node.capacity_cpu
    &&& status.capacity_memory == node.capacity_memory
    &&& status.committed_cpu == node.committed_cpu
    &&& status.committed_memory == node.committed_memory
    &&& status.ingresses == node.ingresses
}

proof fn lemma_status(registry: RegistryView, id: Seq<char>, now: u64)
    requires
        registry.nodes.dom().contains(id),
    ensures
        is_status(registry, now, registry.nodes[id].status(id, now, registry.dead_after)),
{
    let node = registry.nodes[id];
    let status = node.status(id, now, registry.dead_after);
    lemma_dotted(node.pod_cidr.addr);
    reveal_strlit("/");
    assert("/"@ =~= seq!['/']);
    assert(status.pod_cidr == dotted(node.pod_cidr.addr) + seq!['/'] + decimal(node.pod_cidr.prefix_len as nat));
}

/// The list of nodes is all that have registered, in the order of their ids, each with its own status.
pub proof fn law_nodes_listed<F: Fn(&Vec<NodeResources>) -> Option<usize>>(
    before: ControlPlane,
    now: u64,
    best: F,
    after: ControlPlane,
    out: Outcome,
)
    requires
        before.wf(),
        handled(before, Command::List, now, best, after, out),
    ensures
        after == before,
        out.persist is None,
        out.reply is Nodes,
        ({
            let nodes = out.reply->Nodes_0@;
            &&& forall|i: int| 0 <= i < nodes.len() ==> is_status(before.registry@, now, (#[trigger] nodes[i])@)
            &&& forall|i: int, j: int|
                0 <= i < j < nodes.len() ==> str_before((#[trigger] nodes[i])@.id, (#[trigger] nodes[j])@.id)
            &&& forall|id: Seq<char>| #[trigger]
                before.registry@.nodes.dom().contains(id) ==> exists|i: int|
                    0 <= i < nodes.len() && (#[trigger] nodes[i])@.id == id
        }),
{
    before.registry.lemma_members();
    let members = before.registry.members();
    let nodes = out.reply->Nodes_0@;
    assert forall|i: int| 0 <= i < nodes.len() implies is_status(before.registry@, now, (#[trigger] nodes[i])@)
        && nodes[i]@.id == members[i].0 by {
        lemma_status(before.registry@, members[i].0, now);
    }
    assert forall|id: Seq<char>| #[trigger] before.registry@.nodes.dom().contains(id) implies exists|i: int|
        0 <= i < nodes.len() && (#[trigger] nodes[i])@.id == id by {
        let i = choose|i: int| 0 <= i < members.len() && (#[trigger] members[i]).0 == id;
        assert(nodes[i]@.id == id);
    }
}

/// A placed jail belongs to the service that it is a replica of, or to none; a jail that is not placed has no owner.
pub proof fn law_owners<F: Fn(&Vec<NodeResources>) -> Option<usize>>(
    before: ControlPlane,
    jail: String,
    now: u64,
    best: F,
    after: ControlPlane,
    out: Outcome,
)
    requires
        handled(before, Command::OwnerOf(jail), now, best, after, out),
    ensures
        after == before,
        out.persist is None,
        out.reply is Owner,
        match opt_view(out.reply->Owner_0) {
            Some(OwnerView::Service(service)) => before.placements.nodes().dom().contains(jail@)
                && before.services@.dom().contains(service) && is_replica(service, jail@),
            Some(OwnerView::Unmanaged) => before.placements.nodes().dom().contains(jail@) && forall|service: Seq<char>|
                #[trigger] before.services@.dom().contains(service) ==> !is_replica(service, jail@),
            None => !before.placements.nodes().dom().contains(jail@),
        },
{
    assert forall|service: Seq<char>| #[trigger] before.services@.dom().contains(service) implies (is_replica(
        service,
        jail@,
    ) <==> replica_index_of(service, jail@) is Some) by {
        lemma_is_replica(service, jail@);
    }
    if let Some(OwnerView::Service(service)) = opt_view(out.reply->Owner_0) {
        assert(before.services@.dom().contains(service));
    }
}

/// Applying a service. A new one is refused if a jail with the name of one of its replicas is placed, and told the
/// first such name; one that there is keeps its template, and is refused with another. Otherwise it has the number
/// of replicas, the template and the port that it was applied with, and the address that it was created with; no
/// other service is touched.
pub proof fn law_application<F: Fn(&Vec<NodeResources>) -> Option<usize>>(
    before: ControlPlane,
    name: String,
    replicas: u32,
    template: JailTemplate,
    port: u16,
    vip: u32,
    now: u64,
    best: F,
    after: ControlPlane,
    out: Outcome,
)
    requires
        handled(before, Command::ApplyService(name, replicas, template, port, vip), now, best, after, out),
    ensures
        out.reply is Applied,
        out.persist == if out.reply->Applied_0 is Ok {
            Some(StateFile::Services)
        } else {
            None
        },
        match out.reply->Applied_0 {
            Ok(_) => {
                let record = after.services@[name@];
                &&& after.services@.dom() == before.services@.dom().insert(name@)
                &&& forall|other: Seq<char>| #[trigger]
                    before.services@.dom().contains(other) && other != name@ ==> after.services@[other]
                        == before.services@[other]
                &&& record.desired_replicas == replicas
                &&& record.template == template@
                &&& record.port == port
                &&& before.services@.dom().contains(name@) ==> record.vip == before.services@[name@].vip
                    && before.services@[name@].template == template@
                &&& !before.services@.dom().contains(name@) ==> record.vip == vip && forall|i: u32|
                    i < replicas ==> !before.placements.nodes().dom().contains(#[trigger] written_replica(name@, i))
                &&& after == (ControlPlane { services: after.services, ..before })
            },
            Err(ApplyServiceError::TemplateChanged(given)) => {
                &&& given@ == name@
                &&& before.services@.dom().contains(name@)
                &&& before.services@[name@].template != template@
                &&& after.services@ == before.services@
                &&& after == (ControlPlane { services: after.services, ..before })
            },
            Err(ApplyServiceError::NameConflict { name: taken, owner }) => {
                &&& !before.services@.dom().contains(name@)
                &&& owner@ is Unmanaged
                &&& exists|i: u32|
                    {
                        &&& i < replicas
                        &&& taken@ == #[trigger] written_replica(name@, i)
                        &&& before.placements.nodes().dom().contains(taken@)
                        &&& forall|j: u32|
                            j < i ==> !before.placements.nodes().dom().contains(#[trigger] written_replica(name@, j))
                    }
                &&& after == before
            },
        },
{
    let placed = before.placements.nodes();
    let services = before.services@;
    assert forall|i: u32| #[trigger] conflicts(name@, i, placed, services) <==> placed.dom().contains(
        written_replica(name@, i),
    ) && !services.dom().contains(name@) by {
        lemma_conflict(before, name@, i);
    }
    assert forall|i: u32| #[trigger] written_replica(name@, i) == replica_name_of(name@, i) by {
        lemma_written_replica(name@, i);
    }
    if let Err(ApplyServiceError::NameConflict { name: taken, owner }) = out.reply->Applied_0 {
        let i = choose|i: u32|
            {
                &&& i < replicas
                &&& #[trigger] conflicts(name@, i, placed, services)
                &&& forall|j: u32| j < i ==> !#[trigger] conflicts(name@, j, placed, services)
                &&& taken@ == replica_name_of(name@, i)
                &&& Some(owner@) == crate::controlplane::services::owner_of_spec(taken@, placed, services)
            };
        assert(taken@ == written_replica(name@, i));
        assert forall|j: u32| j < i implies !placed.dom().contains(#[trigger] written_replica(name@, j)) by {
            assert(!conflicts(name@, j, placed, services));
        }
        lemma_foreign(before, name@, i);
    }
    if out.reply->Applied_0 is Ok {
        assert(after.services@.dom() =~= services.dom().insert(name@));
        assert forall|i: u32| i < replicas && !services.dom().contains(name@) implies !placed.dom().contains(
            #[trigger] written_replica(name@, i),
        ) by {
            assert(!conflicts(name@, i, placed, services));
        }
    }
}

/// A jail with the name of a replica of a service that there is not belongs to no service.
proof fn lemma_foreign(state: ControlPlane, service: Seq<char>, index: u32)
    requires
        !state.services@.dom().contains(service),
        state.placements.nodes().dom().contains(replica_name_of(service, index)),
    ensures
        crate::controlplane::services::owner_of_spec(
            replica_name_of(service, index),
            state.placements.nodes(),
            state.services@,
        ) == Some(OwnerView::Unmanaged),
{
    let jail = replica_name_of(service, index);
    assert forall|s: Seq<char>| #[trigger] state.services@.dom().contains(s) implies replica_index_of(s, jail) is None by {
        if replica_index_of(s, jail) is Some {
            let k = choose|k: u32| jail == #[trigger] replica_name_of(s, k);
            law_replica_names_are_distinct(s, k, service, index);
        }
    }
}

proof fn lemma_conflict(state: ControlPlane, service: Seq<char>, index: u32)
    ensures
        conflicts(service, index, state.placements.nodes(), state.services@) <==> state.placements.nodes().dom().contains(
            written_replica(service, index),
        ) && !state.services@.dom().contains(service),
{
    lemma_written_replica(service, index);
    let jail = replica_name_of(service, index);
    if state.placements.nodes().dom().contains(jail) {
        if state.services@.dom().contains(service) {
            crate::controlplane::services::lemma_replica_index(service, index);
            crate::controlplane::services::lemma_owner_of(jail, state.placements.nodes(), state.services@, service);
        } else {
            lemma_foreign(state, service, index);
        }
    }
}

/// What a table of texts by name is after a name was given another text.
pub open spec fn is_set(
    before: Map<Seq<char>, Seq<char>>,
    name: Seq<char>,
    text: Seq<char>,
    after: Map<Seq<char>, Seq<char>>,
) -> bool {
    &&& after.dom().contains(name) && after[name] == text
    &&& forall|other: Seq<char>|
        other != name ==> #[trigger] after.dom().contains(other) == before.dom().contains(other) && (before.dom().contains(
            other,
        ) ==> after[other] == before[other])
}

/// What a table is after a name was taken out.
pub open spec fn is_unset<V>(before: Map<Seq<char>, V>, name: Seq<char>, after: Map<Seq<char>, V>) -> bool {
    &&& !after.dom().contains(name)
    &&& forall|other: Seq<char>|
        other != name ==> #[trigger] after.dom().contains(other) == before.dom().contains(other) && (before.dom().contains(
            other,
        ) ==> after[other] == before[other])
}

/// What is recorded stands in its table under its own name until it is taken out or replaced, and nothing else is
/// touched: neither another name nor another table. A placement that is recorded raises the generation of its jail by
/// one, and one that is removed leaves it.
pub proof fn law_records<F: Fn(&Vec<NodeResources>) -> Option<usize>>(
    before: ControlPlane,
    command: Command,
    now: u64,
    best: F,
    after: ControlPlane,
    out: Outcome,
)
    requires
        before.placements.countable(),
        handled(before, command, now, best, after, out),
    ensures
        match command {
            Command::RecordPlacement(jail, node) => {
                &&& out.reply is Done
                &&& out.persist == Some(StateFile::Placements)
                &&& is_set(before.placements.nodes(), jail@, node@, after.placements.nodes())
                &&& after.placements.count(jail@) == before.placements.count(jail@) + 1
                &&& forall|other: Seq<char>|
                    other != jail@ ==> #[trigger] after.placements.count(other) == before.placements.count(other)
                &&& after == (ControlPlane { placements: after.placements, ..before })
            },
            Command::RemovePlacement(jail) => {
                &&& out.reply is Done
                &&& out.persist == Some(StateFile::Placements)
                &&& is_unset(before.placements.nodes(), jail@, after.placements.nodes())
                &&& forall|other: Seq<char>| #[trigger] after.placements.count(other) == before.placements.count(other)
                &&& after == (ControlPlane { placements: after.placements, ..before })
            },
            Command::RecordReplicaAddress(jail, node, address) => {
                &&& out.reply is Done
                &&& out.persist == Some(StateFile::UsedAddresses)
                &&& after.used_addresses@.dom().contains(jail@)
                &&& after.used_addresses@[jail@].0 == node@
                &&& after.used_addresses@[jail@].1 == address
                &&& forall|other: Seq<char>|
                    other != jail@ ==> #[trigger] after.used_addresses@.dom().contains(other)
                        == before.used_addresses@.dom().contains(other) && (before.used_addresses@.dom().contains(other)
                        ==> after.used_addresses@[other] == before.used_addresses@[other])
                &&& after == (ControlPlane { used_addresses: after.used_addresses, ..before })
            },
            Command::ReleaseReplicaAddress(jail) => {
                &&& out.reply is Done
                &&& out.persist == Some(StateFile::UsedAddresses)
                &&& is_unset(before.used_addresses@, jail@, after.used_addresses@)
                &&& after == (ControlPlane { used_addresses: after.used_addresses, ..before })
            },
            Command::RecordStandby(replica, node) => {
                &&& out.reply is Done
                &&& out.persist == Some(StateFile::Standbys)
                &&& is_set(before.standbys@, replica@, node@, after.standbys@)
                &&& after == (ControlPlane { standbys: after.standbys, ..before })
            },
            Command::RemoveStandby(replica) => {
                &&& out.reply is Done
                &&& out.persist == Some(StateFile::Standbys)
                &&& is_unset(before.standbys@, replica@, after.standbys@)
                &&& after == (ControlPlane { standbys: after.standbys, ..before })
            },
            Command::RecordPendingFence(replica, node) => {
                &&& out.reply is Done
                &&& out.persist == Some(StateFile::PendingFences)
                &&& is_set(before.pending_fences@, replica@, node@, after.pending_fences@)
                &&& after == (ControlPlane { pending_fences: after.pending_fences, ..before })
            },
            Command::RemovePendingFence(replica) => {
                &&& out.reply is Done
                &&& out.persist == Some(StateFile::PendingFences)
                &&& is_unset(before.pending_fences@, replica@, after.pending_fences@)
                &&& after == (ControlPlane { pending_fences: after.pending_fences, ..before })
            },
            _ => true,
        },
{
    if let Command::RecordPlacement(jail, node) = command {
        if before.placements.counts().dom().contains(jail@) {
            assert(before.placements.counts()[jail@] < u64::MAX);
        }
    }
}

/// The fences of a node are the replicas that are recorded to be stopped there, each once and in the order of their
/// names.
pub proof fn law_fences_of_a_node<F: Fn(&Vec<NodeResources>) -> Option<usize>>(
    before: ControlPlane,
    node: String,
    now: u64,
    best: F,
    after: ControlPlane,
    out: Outcome,
)
    requires
        before.wf(),
        handled(before, Command::PendingFencesForNode(node), now, best, after, out),
    ensures
        after == before,
        out.persist is None,
        out.reply is PendingFences,
        ({
            let names = out.reply->PendingFences_0@;
            &&& forall|i: int|
                0 <= i < names.len() ==> before.pending_fences@.dom().contains((#[trigger] names[i])@)
                    && before.pending_fences@[names[i]@] == node@
            &&& forall|i: int, j: int| 0 <= i < j < names.len() ==> str_before((#[trigger] names[i])@, (#[trigger] names[j])@)
            &&& forall|replica: Seq<char>|
                #[trigger] before.pending_fences@.dom().contains(replica) && before.pending_fences@[replica] == node@
                    ==> exists|i: int| 0 <= i < names.len() && (#[trigger] names[i])@ == replica
        }),
{
    before.pending_fences.law_pending_lists_every_fence();
    let pending = before.pending_fences.pending();
    let names = out.reply->PendingFences_0@;
    let all = views(names);
    assert(pending.take(pending.len() as int) =~= pending);
    lemma_names_on(pending, node@, pending.len() as int);
    assert forall|i: int| 0 <= i < names.len() implies all[i] == (#[trigger] names[i])@ by {}
    assert forall|i: int| 0 <= i < names.len() implies before.pending_fences@.dom().contains((#[trigger] names[i])@)
        && before.pending_fences@[names[i]@] == node@ by {
        let k = choose|k: int| 0 <= k < pending.len() && (#[trigger] pending[k]) == (all[i], node@);
        assert(pending[k].0 == names[i]@);
    }
    assert forall|i: int, j: int| 0 <= i < j < names.len() implies str_before(
        (#[trigger] names[i])@,
        (#[trigger] names[j])@,
    ) by {
        assert(all[i] == names[i]@ && all[j] == names[j]@);
    }
    assert forall|replica: Seq<char>|
        #[trigger] before.pending_fences@.dom().contains(replica) && before.pending_fences@[replica]
            == node@ implies exists|i: int| 0 <= i < names.len() && (#[trigger] names[i])@ == replica by {
        let k = choose|k: int| 0 <= k < pending.len() && (#[trigger] pending[k]).0 == replica;
        let i = choose|i: int| 0 <= i < all.len() && (#[trigger] all[i]) == pending[k].0;
        assert(names[i]@ == replica);
    }
}

proof fn lemma_names_on(pending: Seq<(Seq<char>, Seq<char>)>, node: Seq<char>, n: int)
    requires
        0 <= n <= pending.len(),
        forall|i: int, j: int|
            0 <= i < j < pending.len() ==> str_before((#[trigger] pending[i]).0, (#[trigger] pending[j]).0),
    ensures
        ({
            let all = names_on(pending.take(n), node);
            &&& forall|i: int|
                0 <= i < all.len() ==> exists|k: int| 0 <= k < n && (#[trigger] pending[k]) == (#[trigger] all[i], node)
            &&& forall|i: int, j: int| 0 <= i < j < all.len() ==> str_before(#[trigger] all[i], #[trigger] all[j])
            &&& forall|k: int|
                0 <= k < n && (#[trigger] pending[k]).1 == node ==> exists|i: int|
                    0 <= i < all.len() && (#[trigger] all[i]) == pending[k].0
        }),
    decreases n,
{
    if n > 0 {
        lemma_names_on(pending, node, n - 1);
        assert(pending.take(n).drop_last() =~= pending.take(n - 1));
        assert(pending.take(n).last() == pending[n - 1]);
        let prior = names_on(pending.take(n - 1), node);
        let all = names_on(pending.take(n), node);
        assert forall|i: int| 0 <= i < all.len() implies exists|k: int|
            0 <= k < n && (#[trigger] pending[k]) == (#[trigger] all[i], node) by {
            if i < prior.len() {
                assert(all[i] == prior[i]);
                let k = choose|k: int| 0 <= k < n - 1 && (#[trigger] pending[k]) == (prior[i], node);
                assert(pending[k] == (all[i], node));
            } else {
                assert(pending[n - 1] == (all[i], node));
            }
        }
        assert forall|i: int, j: int| 0 <= i < j < all.len() implies str_before(#[trigger] all[i], #[trigger] all[j]) by {
            assert(all[i] == prior[i]);
            if j < prior.len() {
                assert(all[j] == prior[j]);
            } else {
                let k = choose|k: int| 0 <= k < n - 1 && (#[trigger] pending[k]) == (prior[i], node);
                assert(str_before(pending[k].0, pending[n - 1].0));
            }
        }
        assert forall|k: int| 0 <= k < n && (#[trigger] pending[k]).1 == node implies exists|i: int|
            0 <= i < all.len() && (#[trigger] all[i]) == pending[k].0 by {
            if k < n - 1 {
                let i = choose|i: int| 0 <= i < prior.len() && (#[trigger] prior[i]) == pending[k].0;
                assert(all[i] == pending[k].0);
            } else {
                assert(all[prior.len() as int] == pending[k].0);
            }
        }
    }
}

/// A registered node can be cordoned, and that can be ended; no other node is touched. A node that has not registered
/// is refused.
pub proof fn law_cordons<F: Fn(&Vec<NodeResources>) -> Option<usize>>(
    before: ControlPlane,
    id: String,
    on: bool,
    now: u64,
    best: F,
    after: ControlPlane,
    out: Outcome,
)
    requires
        handled(
            before,
            if on {
                Command::Cordon(id)
            } else {
                Command::Uncordon(id)
            },
            now,
            best,
            after,
            out,
        ),
    ensures
        match out.reply {
            Reply::Cordon(Ok(_)) => {
                &&& out.persist == Some(StateFile::Cordoned)
                &&& before.registry@.nodes.dom().contains(id@)
                &&& after.cordoned@.contains(id@) == on
                &&& forall|other: Seq<char>|
                    other != id@ ==> #[trigger] after.cordoned@.contains(other) == before.cordoned@.contains(other)
                &&& after == (ControlPlane { cordoned: after.cordoned, ..before })
            },
            Reply::Cordon(Err(e)) => !before.registry@.nodes.dom().contains(id@) && e.0@ == id@ && after == before
                && out.persist is None,
            _ => false,
        },
{
}

/// Every table has a file of its own.
pub proof fn law_files_of_tables()
    ensures
        StateFile::Placements.name() == "placements.yaml"@,
        StateFile::Services.name() == "services.yaml"@,
        StateFile::UsedAddresses.name() == "used_addresses.yaml"@,
        StateFile::Standbys.name() == "standbys.yaml"@,
        StateFile::PendingFences.name() == "pending_fences.yaml"@,
        StateFile::Cordoned.name() == "cordoned.yaml"@,
{
}

} // verus!
