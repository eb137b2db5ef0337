//! Which nodes a replica may go to.

use crate::controlplane::cordoned::Cordoned;
use crate::controlplane::registry::{NodeView, Registry};
use crate::jail::ResourcesSpecView;
use crate::resources::{memory_bytes, parse_memory_bytes};
use crate::strmap::StrMap;
use crate::text::same;
use crate::views::{duplicate_all, views, Duplicate};
use crate::wire::{CpuCores, CpuCoresView, NodeState, NodeStatus, NodeStatusView};
use vstd::prelude::*;
use vstd::string::*;

verus! {

/// Why no node was picked.
#[derive(Debug, Clone, Copy, PartialEq, Eq, Structural)]
pub enum ScheduleError {
    NoAvailableNodes,
}

impl ScheduleError {
    pub open spec fn text(self) -> Seq<char> {
        "no alive node is available"@
    }

    /// The error in words.
    pub fn message(&self) -> (r: String)
        ensures
            r@ == self.text(),
    {
        "no alive node is available".to_owned()
    }
}

/// What a node has, what is committed of it, and what a pass has added to that.
#[derive(Debug, Clone, PartialEq, Eq)]
pub struct NodeResources {
    pub id: String,
    pub capacity_cpu: CpuCores,
    pub capacity_memory: u64,
    pub committed_cpu: CpuCores,
    pub committed_memory: u64,
    /// The processor shares of the replicas that this pass has put on the node, as they are
    /// written in their templates.
    pub spent_cpu: Vec<String>,
    /// The bytes of the replicas that this pass has put on the node.
    pub spent_memory: Vec<u64>,
}

/// What a [`NodeResources`] holds.
#[verifier::ext_equal]
pub struct NodeResourcesView {
    pub id: Seq<char>,
    pub capacity_cpu: CpuCoresView,
    pub capacity_memory: u64,
    pub committed_cpu: CpuCoresView,
    pub committed_memory: u64,
    pub spent_cpu: Seq<Seq<char>>,
    pub spent_memory: Seq<u64>,
}

impl View for NodeResources {
    type V = NodeResourcesView;

    open spec fn view(&self) -> NodeResourcesView {
        NodeResourcesView {
            id: self.id@,
            capacity_cpu: self.capacity_cpu@,
            capacity_memory: self.capacity_memory,
            committed_cpu: self.committed_cpu@,
            committed_memory: self.committed_memory,
            spent_cpu: views(self.spent_cpu@),
            spent_memory: self.spent_memory@,
        }
    }
}

fn copy_sizes(v: &Vec<u64>) -> (r: Vec<u64>)
    ensures
        r@ == v@,
{
    let mut out: Vec<u64> = Vec::new();
    let mut i: usize = 0;
    while i < v.len()
        invariant
            i <= v@.len(),
            out@ == v@.take(i as int),
        decreases v.len() - i,
    {
        out.push(v[i]);
        i = i + 1;
        assert(v@.take(i as int) =~= v@.take(i - 1).push(v@[i - 1]));
    }
    assert(v@.take(i as int) =~= v@);
    out
}

impl Duplicate for NodeResources {
    fn duplicate(&self) -> (r: Self) {
        NodeResources {
            id: self.id.clone(),
            capacity_cpu: self.capacity_cpu.duplicate(),
            capacity_memory: self.capacity_memory,
            committed_cpu: self.committed_cpu.duplicate(),
            committed_memory: self.committed_memory,
            spent_cpu: duplicate_all(&self.spent_cpu),
            spent_memory: copy_sizes(&self.spent_memory),
        }
    }
}

impl NodeResourcesView {
    /// The node after a replica with these resources was put on it.
    pub open spec fn charged(self, resources: ResourcesSpecView) -> NodeResourcesView {
        NodeResourcesView {
            spent_cpu: self.spent_cpu.push(resources.cpu),
            spent_memory: match memory_bytes(resources.memory) {
                Some(n) => self.spent_memory.push(n as u64),
                None => self.spent_memory,
            },
            ..self
        }
    }
}

/// A node that stands like this takes new replicas.
pub open spec fn schedulable(status: NodeStatusView, cordoned: Set<Seq<char>>) -> bool {
    status.status == NodeState::Alive && !cordoned.contains(status.id)
}

/// Whether a node takes new replicas: it is alive, and not cordoned.
pub fn is_schedulable(status: &NodeStatus, cordoned: &Cordoned) -> (r: bool)
    requires
        cordoned.wf(),
    ensures
        r == schedulable(status@, cordoned@),
{
    status.status == NodeState::Alive && !cordoned.is_cordoned(status.id.as_str())
}

/// A node as the scheduler sees it.
pub open spec fn resources_of(status: NodeStatusView) -> NodeResourcesView {
    NodeResourcesView {
        id: status.id,
        capacity_cpu: status.capacity_cpu,
        capacity_memory: status.capacity_memory,
        committed_cpu: status.committed_cpu,
        committed_memory: status.committed_memory,
        spent_cpu: Seq::empty(),
        spent_memory: Seq::empty(),
    }
}

/// The nodes that take new replicas, in the order of the list.
pub open spec fn schedulable_of(
    members: Seq<(Seq<char>, NodeView)>,
    now: u64,
    dead_after: u64,
    cordoned: Set<Seq<char>>,
) -> Seq<NodeResourcesView>
    decreases members.len(),
{
    if members.len() == 0 {
        Seq::empty()
    } else {
        let prior = schedulable_of(members.drop_last(), now, dead_after, cordoned);
        let status = members.last().1.status(members.last().0, now, dead_after);
        if schedulable(status, cordoned) {
            prior.push(resources_of(status))
        } else {
            prior
        }
    }
}

/// The nodes that take new replicas, in ascending order of their ids.
pub fn schedulable_nodes(registry: &Registry, cordoned: &Cordoned, now: u64) -> (r: Vec<NodeResources>)
    requires
        cordoned.wf(),
    ensures
        views(r@) == schedulable_of(registry.members(), now, registry@.dead_after, cordoned@),
{
    let statuses = registry.list(now);
    let mut out: Vec<NodeResources> = Vec::new();
    let mut i: usize = 0;
    let ghost members = registry.members();
    assert(members.take(0) =~= Seq::empty());
    while i < statuses.len()
        invariant
            cordoned.wf(),
            i <= statuses@.len(),
            members == registry.members(),
            statuses@.len() == members.len(),
            forall|j: int|
                0 <= j < statuses@.len() ==> (#[trigger] statuses@[j])@ == members[j].1.status(
                    members[j].0,
                    now,
                    registry@.dead_after,
                ),
            views(out@) == schedulable_of(members.take(i as int), now, registry@.dead_after, cordoned@),
        decreases statuses.len() - i,
    {
        let ghost before_push = out@;
        proof {
            assert(members.take(i + 1).drop_last() =~= members.take(i as int));
            assert(statuses@[i as int]@ == members[i as int].1.status(members[i as int].0, now, registry@.dead_after));
        }
        let status = &statuses[i];
        if is_schedulable(status, cordoned) {
            let node = NodeResources {
                id: status.id.clone(),
                capacity_cpu: status.capacity_cpu.duplicate(),
                capacity_memory: status.capacity_memory,
                committed_cpu: status.committed_cpu.duplicate(),
                committed_memory: status.committed_memory,
                spent_cpu: Vec::new(),
                spent_memory: Vec::new(),
            };
            let ghost added = node@;
            assert(added =~= resources_of(status@));
            out.push(node);
            assert(views(out@) =~= views(before_push).push(added));
        }
        i = i + 1;
    }
    assert(members.take(i as int) =~= members);
    out
}

/// A schedulable node is a registered one that is alive and not cordoned, and no id is listed twice.
pub proof fn lemma_schedulable(registry: &Registry, now: u64, cordoned: Set<Seq<char>>, n: int)
    requires
        registry.wf(),
        0 <= n <= registry.members().len(),
    ensures
        forall|i: int|
            0 <= i < schedulable_of(registry.members().take(n), now, registry@.dead_after, cordoned).len() ==> {
                let id = (#[trigger] schedulable_of(registry.members().take(n), now, registry@.dead_after, cordoned)[i]).id;
                &&& registry@.resolve(id, now) is Ok
                &&& !cordoned.contains(id)
                &&& exists|k: int| 0 <= k < n && (#[trigger] registry.members()[k]).0 == id
            },
    decreases n,
{
    registry.lemma_members();
    if n > 0 {
        let members = registry.members();
        lemma_schedulable(registry, now, cordoned, n - 1);
        assert(members.take(n).drop_last() =~= members.take(n - 1));
        let all = schedulable_of(members.take(n), now, registry@.dead_after, cordoned);
        let prior = schedulable_of(members.take(n - 1), now, registry@.dead_after, cordoned);
        assert forall|i: int| 0 <= i < all.len() implies {
            let id = (#[trigger] all[i]).id;
            &&& registry@.resolve(id, now) is Ok
            &&& !cordoned.contains(id)
            &&& exists|k: int| 0 <= k < n && (#[trigger] members[k]).0 == id
        } by {
            if i < prior.len() {
                assert(all[i] == prior[i]);
                let id = prior[i].id;
                let k = choose|k: int| 0 <= k < n - 1 && (#[trigger] members[k]).0 == id;
                assert(members[k].0 == id);
            } else {
                assert(members[n - 1].0 == all[i].id);
            }
        }
    }
}

/// The nodes that are not busy, in the order of the list.
pub open spec fn idle(nodes: Seq<NodeResourcesView>, busy: Set<Seq<char>>) -> Seq<NodeResourcesView>
    decreases nodes.len(),
{
    if nodes.len() == 0 {
        Seq::empty()
    } else if busy.contains(nodes.last().id) {
        idle(nodes.drop_last(), busy)
    } else {
        idle(nodes.drop_last(), busy).push(nodes.last())
    }
}

/// The nodes to pick from: those that are not busy, or all if every node is busy.
pub open spec fn candidates_of(nodes: Seq<NodeResourcesView>, busy: Set<Seq<char>>) -> Seq<NodeResourcesView> {
    if idle(nodes, busy).len() > 0 {
        idle(nodes, busy)
    } else {
        nodes
    }
}

/// The node at a picked position, if there is one.
pub open spec fn picked(nodes: Seq<NodeResourcesView>, pick: Option<usize>) -> Option<Seq<char>> {
    match pick {
        Some(i) => if i < nodes.len() {
            Some(nodes[i as int].id)
        } else {
            None
        },
        None => None,
    }
}

/// A candidate is one of the nodes, and is busy only if every node is.
pub proof fn lemma_candidates(nodes: Seq<NodeResourcesView>, busy: Set<Seq<char>>)
    ensures
        forall|i: int|
            0 <= i < candidates_of(nodes, busy).len() ==> nodes.contains(#[trigger] candidates_of(nodes, busy)[i]),
        forall|i: int|
            0 <= i < candidates_of(nodes, busy).len() && busy.contains(
                (#[trigger] candidates_of(nodes, busy)[i]).id,
            ) ==> forall|j: int| 0 <= j < nodes.len() ==> busy.contains((#[trigger] nodes[j]).id),
{
    lemma_idle(nodes, busy);
    let c = candidates_of(nodes, busy);
    assert forall|i: int| 0 <= i < c.len() implies nodes.contains(#[trigger] c[i]) by {
        if idle(nodes, busy).len() == 0 {
            assert(nodes[i] == c[i]);
        }
    }
}

proof fn lemma_idle(nodes: Seq<NodeResourcesView>, busy: Set<Seq<char>>)
    ensures
        forall|i: int|
            0 <= i < idle(nodes, busy).len() ==> nodes.contains(#[trigger] idle(nodes, busy)[i]) && !busy.contains(
                idle(nodes, busy)[i].id,
            ),
        idle(nodes, busy).len() == 0 ==> forall|j: int|
            0 <= j < nodes.len() ==> busy.contains((#[trigger] nodes[j]).id),
    decreases nodes.len(),
{
    if nodes.len() > 0 {
        let prior = nodes.drop_last();
        lemma_idle(prior, busy);
        let all = idle(nodes, busy);
        assert forall|i: int| 0 <= i < all.len() implies nodes.contains(#[trigger] all[i]) && !busy.contains(
            all[i].id,
        ) by {
            if i < idle(prior, busy).len() {
                assert(prior.contains(idle(prior, busy)[i]));
                let k = choose|k: int| 0 <= k < prior.len() && prior[k] == all[i];
                assert(nodes[k] == all[i]);
            } else {
                assert(nodes[nodes.len() - 1] == all[i]);
            }
        }
        if all.len() == 0 {
            assert forall|j: int| 0 <= j < nodes.len() implies busy.contains((#[trigger] nodes[j]).id) by {
                if j < prior.len() {
                    assert(prior[j] == nodes[j]);
                }
            }
        }
    }
}

/// The nodes to pick from for a replica of a service whose replicas are on the busy nodes.
pub fn candidates(nodes: &Vec<NodeResources>, busy: &StrMap<()>) -> (r: Vec<NodeResources>)
    requires
        busy.wf(),
    ensures
        views(r@) == candidates_of(views(nodes@), busy.map().dom()),
{
    let ghost all = views(nodes@);
    let mut out: Vec<NodeResources> = Vec::new();
    let mut i: usize = 0;
    assert(all.take(0) =~= Seq::empty());
    while i < nodes.len()
        invariant
            busy.wf(),
            all == views(nodes@),
            i <= nodes@.len(),
            views(out@) == idle(all.take(i as int), busy.map().dom()),
        decreases nodes.len() - i,
    {
        let ghost before_push = out@;
        assert(all.take(i + 1).drop_last() =~= all.take(i as int));
        if !busy.contains_key(nodes[i].id.as_str()) {
            let node = nodes[i].duplicate();
            let ghost added = node@;
            out.push(node);
            assert(views(out@) =~= views(before_push).push(added));
        }
        i = i + 1;
    }
    assert(all.take(i as int) =~= all);
    if out.len() > 0 {
        out
    } else {
        duplicate_all(nodes)
    }
}

/// The nodes after a replica with these resources was put on one of them.
pub open spec fn nodes_charged(
    nodes: Seq<NodeResourcesView>,
    id: Seq<char>,
    resources: ResourcesSpecView,
) -> Seq<NodeResourcesView> {
    Seq::new(
        nodes.len(),
        |i: int|
            if nodes[i].id == id {
                nodes[i].charged(resources)
            } else {
                nodes[i]
            },
    )
}

/// Records that a replica with these resources was put on a node, so that the next pick sees what
/// is left of it.
pub fn charge(nodes: &mut Vec<NodeResources>, id: &str, resources: &crate::jail::ResourcesSpec)
    ensures
        views(final(nodes)@) == nodes_charged(views(old(nodes)@), id@, resources@),
{
    let ghost before_call = views(nodes@);
    let mut i: usize = 0;
    while i < nodes.len()
        invariant
            i <= nodes@.len(),
            nodes@.len() == before_call.len(),
            forall|j: int| 0 <= j < i ==> (#[trigger] nodes@[j])@ == nodes_charged(before_call, id@, resources@)[j],
            forall|j: int| i <= j < nodes@.len() ==> (#[trigger] nodes@[j])@ == before_call[j],
        decreases nodes.len() - i,
    {
        if same(nodes[i].id.as_str(), id) {
            let mut node = nodes[i].duplicate();
            let ghost spent = node.spent_cpu@;
            node.spent_cpu.push(resources.cpu.clone());
            assert(views(node.spent_cpu@) =~= views(spent).push(resources.cpu@));
            if let Ok(bytes) = parse_memory_bytes(resources.memory.as_str()) {
                node.spent_memory.push(bytes);
            }
            assert(node@ =~= before_call[i as int].charged(resources@));
            nodes.set(i, node);
        }
        i = i + 1;
    }
    assert(views(nodes@) =~= nodes_charged(before_call, id@, resources@));
}

} // verus!
