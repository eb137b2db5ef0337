//! The nodes of the cluster: where they are, what they have and when they were last heard from.
//!
//! Times are nanoseconds on a clock that only moves forward.

use crate::backoff::NANOS_PER_SEC;
use crate::controlplane::addresses::{block_text, cidr_text, Ipv4Cidr};
use crate::strmap::StrMap;
use crate::text::{between, same};
use crate::views::{duplicate_all, duplicate_opt, opt_view, views, Duplicate};
use crate::wire::{
    CpuCores, CpuCoresView, IngressHealth, IngressHealthView, JailHealth, JailHealthView, NodeState, NodeStatus,
    NodeStatusView,
};
use vstd::prelude::*;
use vstd::string::*;

verus! {

/// The block of a node's jails would be that of another node.
#[derive(Debug, Clone, PartialEq, Eq)]
pub struct PodCidrCollision {
    pub id: String,
    pub other: String,
}

/// No node of this id has registered.
#[derive(Debug, Clone, PartialEq, Eq)]
pub struct UnknownNode(pub String);

/// Why a node has no address to reach it by.
#[derive(Debug, Clone, PartialEq, Eq)]
pub enum ResolveError {
    /// No node of this id has registered.
    Unknown(String),
    /// The node was not heard from lately.
    Dead(String),
}

#[verifier::ext_equal]
pub enum ResolveErrorView {
    Unknown(Seq<char>),
    Dead(Seq<char>),
}

impl View for ResolveError {
    type V = ResolveErrorView;

    open spec fn view(&self) -> ResolveErrorView {
        match self {
            ResolveError::Unknown(id) => ResolveErrorView::Unknown(id@),
            ResolveError::Dead(id) => ResolveErrorView::Dead(id@),
        }
    }
}

impl ResolveErrorView {
    pub open spec fn text(self) -> Seq<char> {
        match self {
            ResolveErrorView::Unknown(id) => "no node '"@ + id + "' has registered"@,
            ResolveErrorView::Dead(id) => "node '"@ + id + "' is dead"@,
        }
    }
}

impl ResolveError {
    /// The error in words.
    pub fn message(&self) -> (r: String)
        ensures
            r@ == self@.text(),
    {
        match self {
            ResolveError::Unknown(id) => between("no node '", id.as_str(), "' has registered"),
            ResolveError::Dead(id) => between("node '", id.as_str(), "' is dead"),
        }
    }
}

/// What a node said of itself when it registered.
pub struct Registration {
    pub addr: String,
    pub replicate_addr: Option<String>,
    pub pod_cidr: Ipv4Cidr,
    pub capacity_cpu: CpuCores,
    pub capacity_memory: u64,
}

/// What a node says of itself in a heartbeat.
pub struct Report {
    pub committed_cpu: CpuCores,
    pub committed_memory: u64,
    pub jails: Vec<JailHealth>,
    pub ingresses: Vec<IngressHealth>,
}

/// A registered node.
pub struct Node {
    registration: Registration,
    report: Report,
    last_seen: u64,
}

/// What the registry knows of a node.
#[verifier::ext_equal]
pub struct NodeView {
    pub addr: Seq<char>,
    pub replicate_addr: Option<Seq<char>>,
    pub pod_cidr: Ipv4Cidr,
    pub capacity_cpu: CpuCoresView,
    pub capacity_memory: u64,
    pub committed_cpu: CpuCoresView,
    pub committed_memory: u64,
    pub jails: Seq<JailHealthView>,
    pub ingresses: Seq<IngressHealthView>,
    pub last_seen: u64,
}

impl View for Node {
    type V = NodeView;

    closed spec fn view(&self) -> NodeView {
        NodeView {
            addr: self.registration.addr@,
            replicate_addr: opt_view(self.registration.replicate_addr),
            pod_cidr: self.registration.pod_cidr,
            capacity_cpu: self.registration.capacity_cpu@,
            capacity_memory: self.registration.capacity_memory,
            committed_cpu: self.report.committed_cpu@,
            committed_memory: self.report.committed_memory,
            jails: views(self.report.jails@),
            ingresses: views(self.report.ingresses@),
            last_seen: self.last_seen,
        }
    }
}

impl NodeView {
    /// A node that has just registered, and has reported nothing yet.
    pub open spec fn registered(reg: Registration, now: u64) -> NodeView {
        NodeView {
            addr: reg.addr@,
            replicate_addr: opt_view(reg.replicate_addr),
            pod_cidr: reg.pod_cidr,
            capacity_cpu: reg.capacity_cpu@,
            capacity_memory: reg.capacity_memory,
            committed_cpu: CpuCoresView { bits: 0, shown: "0.00"@ },
            committed_memory: 0,
            jails: Seq::empty(),
            ingresses: Seq::empty(),
            last_seen: now,
        }
    }

    /// The node after a heartbeat.
    pub open spec fn reported(self, report: Report, now: u64) -> NodeView {
        NodeView {
            committed_cpu: report.committed_cpu@,
            committed_memory: report.committed_memory,
            jails: views(report.jails@),
            ingresses: views(report.ingresses@),
            last_seen: now,
            ..self
        }
    }

    /// How long ago the node was heard from.
    pub open spec fn silence(self, now: u64) -> int {
        if now > self.last_seen {
            now - self.last_seen
        } else {
            0
        }
    }

    pub open spec fn state(self, now: u64, dead_after: u64) -> NodeState {
        if self.silence(now) < dead_after {
            NodeState::Alive
        } else {
            NodeState::Dead
        }
    }

    /// How the node stands.
    pub open spec fn status(self, id: Seq<char>, now: u64, dead_after: u64) -> NodeStatusView {
        NodeStatusView {
            id,
            addr: self.addr,
            pod_cidr: cidr_text(self.pod_cidr),
            status: self.state(now, dead_after),
            last_seen_secs: (self.silence(now) / NANOS_PER_SEC as int) as u64,
            capacity_cpu: self.capacity_cpu,
            capacity_memory: self.capacity_memory,
            committed_cpu: self.committed_cpu,
            committed_memory: self.committed_memory,
            ingresses: self.ingresses,
        }
    }

    /// Whether the last heartbeat said that the jail runs.
    pub open spec fn runs(self, jail: Seq<char>) -> bool {
        self.jails.contains(JailHealthView { name: jail, running: true })
    }
}

/// The nodes that have registered.
pub struct Registry {
    nodes: StrMap<Node>,
    dead_after: u64,
}

/// What the registry holds.
#[verifier::ext_equal]
pub struct RegistryView {
    pub nodes: Map<Seq<char>, NodeView>,
    pub dead_after: u64,
}

/// The nodes that a list of entries holds.
pub closed spec fn node_entries(s: Seq<(String, Node)>) -> Seq<(Seq<char>, NodeView)> {
    Seq::new(s.len(), |i: int| (s[i].0@, s[i].1@))
}

impl View for Registry {
    type V = RegistryView;

    closed spec fn view(&self) -> RegistryView {
        RegistryView { nodes: self.nodes.map().map_values(|n: Node| n@), dead_after: self.dead_after }
    }
}

impl RegistryView {
    /// The address of a node that is alive.
    pub open spec fn resolve(self, id: Seq<char>, now: u64) -> Result<Seq<char>, ResolveErrorView> {
        if !self.nodes.dom().contains(id) {
            Err(ResolveErrorView::Unknown(id))
        } else if self.nodes[id].state(now, self.dead_after) == NodeState::Dead {
            Err(ResolveErrorView::Dead(id))
        } else {
            Ok(self.nodes[id].addr)
        }
    }

    /// Another node has the block.
    pub open spec fn block_taken(self, id: Seq<char>, block: Ipv4Cidr, other: Seq<char>) -> bool {
        other != id && self.nodes.dom().contains(other) && self.nodes[other].pod_cidr == block
    }

    pub open spec fn pod_cidr(self, id: Seq<char>) -> Option<Ipv4Cidr> {
        if self.nodes.dom().contains(id) {
            Some(self.nodes[id].pod_cidr)
        } else {
            None
        }
    }

    pub open spec fn last_known_addr(self, id: Seq<char>) -> Option<Seq<char>> {
        if self.nodes.dom().contains(id) {
            Some(self.nodes[id].addr)
        } else {
            None
        }
    }

    pub open spec fn replicate_addr(self, id: Seq<char>) -> Option<Seq<char>> {
        if self.nodes.dom().contains(id) {
            self.nodes[id].replicate_addr
        } else {
            None
        }
    }

    pub open spec fn is_jail_running(self, id: Seq<char>, jail: Seq<char>) -> bool {
        self.nodes.dom().contains(id) && self.nodes[id].runs(jail)
    }
}

/// The result of a resolution, by what it holds.
pub open spec fn resolution(r: Result<String, ResolveError>) -> Result<Seq<char>, ResolveErrorView> {
    match r {
        Ok(addr) => Ok(addr@),
        Err(e) => Err(e@),
    }
}

impl Registry {
    pub closed spec fn wf(&self) -> bool {
        self.nodes.wf()
    }

    /// The nodes in ascending order of their ids.
    pub closed spec fn members(&self) -> Seq<(Seq<char>, NodeView)> {
        node_entries(self.nodes.entries())
    }

    /// `members` lists the nodes, each once and in order.
    pub proof fn lemma_members(&self)
        requires
            self.wf(),
        ensures
            forall|i: int, j: int|
                0 <= i < j < self.members().len() ==> crate::text::str_before(
                    (#[trigger] self.members()[i]).0,
                    (#[trigger] self.members()[j]).0,
                ),
            forall|i: int|
                0 <= i < self.members().len() ==> {
                    &&& self@.nodes.dom().contains((#[trigger] self.members()[i]).0)
                    &&& self@.nodes[self.members()[i].0] == self.members()[i].1
                },
            forall|id: Seq<char>| #[trigger]
                self@.nodes.dom().contains(id) ==> exists|i: int|
                    0 <= i < self.members().len() && (#[trigger] self.members()[i]).0 == id,
    {
        assert forall|i: int| 0 <= i < self.members().len() implies {
            &&& self@.nodes.dom().contains((#[trigger] self.members()[i]).0)
            &&& self@.nodes[self.members()[i].0] == self.members()[i].1
        } by {
            self.nodes.lemma_entry(i);
        }
        assert forall|id: Seq<char>| #[trigger] self@.nodes.dom().contains(id) implies exists|i: int|
            0 <= i < self.members().len() && (#[trigger] self.members()[i]).0 == id by {
            let i = choose|i: int| crate::strmap::holds_at(self.nodes.entries(), id, i);
            assert(self.members()[i].0 == id);
        }
    }

    /// An empty registry, in which a node is dead once it was silent for `dead_after`.
    pub fn new(dead_after: u64) -> (r: Self)
        ensures
            r.wf(),
            r@ == (RegistryView { nodes: Map::empty(), dead_after }),
    {
        let r = Registry { nodes: StrMap::new(), dead_after };
        assert(r@.nodes =~= Map::<Seq<char>, NodeView>::empty());
        r
    }

    /// Registers a node, or registers it anew. Refused if another node has the block.
    pub fn register(&mut self, id: String, reg: Registration, now: u64) -> (r: Result<Ipv4Cidr, PodCidrCollision>)
        requires
            old(self).wf(),
        ensures
            final(self).wf(),
            match r {
                Ok(block) => {
                    &&& block == reg.pod_cidr
                    &&& forall|other: Seq<char>| !#[trigger] old(self)@.block_taken(id@, reg.pod_cidr, other)
                    &&& final(self)@ == (RegistryView {
                        nodes: old(self)@.nodes.insert(id@, NodeView::registered(reg, now)),
                        ..old(self)@
                    })
                },
                Err(e) => {
                    &&& e.id@ == id@
                    &&& old(self)@.block_taken(id@, reg.pod_cidr, e.other@)
                    &&& *final(self) == *old(self)
                },
            },
    {
        let mut i: usize = 0;
        while i < self.nodes.len()
            invariant
                *self == *old(self),
                self.wf(),
                i <= self.nodes.entries().len(),
                forall|j: int|
                    0 <= j < i ==> !((#[trigger] self.nodes.entries()[j]).0@ != id@
                        && self.nodes.entries()[j].1.registration.pod_cidr == reg.pod_cidr),
            decreases self.nodes.entries().len() - i,
        {
            if self.nodes.value_at(i).registration.pod_cidr == reg.pod_cidr && !same(
                self.nodes.key_at(i).as_str(),
                id.as_str(),
            ) {
                proof {
                    self.nodes.lemma_entry(i as int);
                }
                return Err(PodCidrCollision { id, other: self.nodes.key_at(i).clone() });
            }
            i = i + 1;
        }
        assert forall|other: Seq<char>| !#[trigger] self@.block_taken(id@, reg.pod_cidr, other) by {
            if self@.nodes.dom().contains(other) {
                let j = choose|j: int| crate::strmap::holds_at(self.nodes.entries(), other, j);
                self.nodes.lemma_entry(j);
            }
        }
        let block = reg.pod_cidr;
        let ghost added = NodeView::registered(reg, now);
        let report = Report {
            committed_cpu: CpuCores { bits: 0, shown: "0.00".to_owned() },
            committed_memory: 0,
            jails: Vec::new(),
            ingresses: Vec::new(),
        };
        let node = Node { registration: reg, report, last_seen: now };
        assert(node@ =~= added);
        self.nodes.insert(id, node);
        assert(self@.nodes =~= old(self)@.nodes.insert(id@, added));
        Ok(block)
    }

    /// Records what a node says of itself.
    pub fn heartbeat(&mut self, id: &str, report: Report, now: u64) -> (r: Result<(), UnknownNode>)
        requires
            old(self).wf(),
        ensures
            final(self).wf(),
            r is Ok <==> old(self)@.nodes.dom().contains(id@),
            match r {
                Ok(_) => final(self)@ == (RegistryView {
                    nodes: old(self)@.nodes.insert(id@, old(self)@.nodes[id@].reported(report, now)),
                    ..old(self)@
                }),
                Err(UnknownNode(given)) => given@ == id@ && final(self)@ == old(self)@,
            },
    {
        match self.nodes.remove(id) {
            None => {
                assert(self@.nodes =~= old(self)@.nodes);
                Err(UnknownNode(id.to_owned()))
            },
            Some(node) => {
                let ghost after = node@.reported(report, now);
                let updated = Node { registration: node.registration, report, last_seen: now };
                assert(updated@ =~= after);
                self.nodes.insert(id.to_owned(), updated);
                assert(self@.nodes =~= old(self)@.nodes.insert(id@, after));
                Ok(())
            },
        }
    }

    /// How long ago a node was heard from.
    fn silence(node: &Node, now: u64) -> (r: u64)
        ensures
            r == node@.silence(now),
    {
        now.saturating_sub(node.last_seen)
    }

    /// How every node stands, in ascending order of the ids.
    pub fn list(&self, now: u64) -> (r: Vec<NodeStatus>)
        ensures
            r@.len() == self.members().len(),
            forall|i: int|
                0 <= i < r@.len() ==> (#[trigger] r@[i])@ == self.members()[i].1.status(
                    self.members()[i].0,
                    now,
                    self@.dead_after,
                ),
    {
        let mut out: Vec<NodeStatus> = Vec::new();
        let mut i: usize = 0;
        while i < self.nodes.len()
            invariant
                i <= self.members().len(),
                self.members() == node_entries(self.nodes.entries()),
                out@.len() == i,
                forall|j: int|
                    0 <= j < i ==> (#[trigger] out@[j])@ == self.members()[j].1.status(
                        self.members()[j].0,
                        now,
                        self@.dead_after,
                    ),
            decreases self.members().len() - i,
        {
            let node = self.nodes.value_at(i);
            let silence: u64 = Self::silence(node, now);
            let status = NodeStatus {
                id: self.nodes.key_at(i).clone(),
                addr: node.registration.addr.clone(),
                pod_cidr: block_text(node.registration.pod_cidr),
                status: if silence < self.dead_after {
                    NodeState::Alive
                } else {
                    NodeState::Dead
                },
                last_seen_secs: silence / NANOS_PER_SEC,
                capacity_cpu: node.registration.capacity_cpu.duplicate(),
                capacity_memory: node.registration.capacity_memory,
                committed_cpu: node.report.committed_cpu.duplicate(),
                committed_memory: node.report.committed_memory,
                ingresses: duplicate_all(&node.report.ingresses),
            };
            assert(status@ =~= self.members()[i as int].1.status(self.members()[i as int].0, now, self@.dead_after));
            out.push(status);
            i = i + 1;
        }
        out
    }

    /// The address of a node that is alive.
    pub fn resolve(&self, id: &str, now: u64) -> (r: Result<String, ResolveError>)
        requires
            self.wf(),
        ensures
            resolution(r) == self@.resolve(id@, now),
    {
        match self.nodes.get(id) {
            None => Err(ResolveError::Unknown(id.to_owned())),
            Some(node) => if Self::silence(node, now) < self.dead_after {
                Ok(node.registration.addr.clone())
            } else {
                Err(ResolveError::Dead(id.to_owned()))
            },
        }
    }

    /// The address that a node registered with, whether or not it is alive.
    pub fn last_known_addr(&self, id: &str) -> (r: Option<String>)
        requires
            self.wf(),
        ensures
            opt_view(r) == self@.last_known_addr(id@),
    {
        match self.nodes.get(id) {
            None => None,
            Some(node) => Some(node.registration.addr.clone()),
        }
    }

    /// Where a node takes in replication streams.
    pub fn replicate_addr(&self, id: &str) -> (r: Option<String>)
        requires
            self.wf(),
        ensures
            opt_view(r) == self@.replicate_addr(id@),
    {
        match self.nodes.get(id) {
            None => None,
            Some(node) => duplicate_opt(&node.registration.replicate_addr),
        }
    }

    /// The block of a node's jails; none if no such node has registered.
    pub fn pod_cidr(&self, id: &str) -> (r: Option<Ipv4Cidr>)
        requires
            self.wf(),
        ensures
            r == self@.pod_cidr(id@),
    {
        match self.nodes.get(id) {
            None => None,
            Some(node) => Some(node.registration.pod_cidr),
        }
    }

    /// Whether the last heartbeat of a node said that a jail runs.
    pub fn is_jail_running(&self, id: &str, jail_name: &str) -> (r: bool)
        requires
            self.wf(),
        ensures
            r == self@.is_jail_running(id@, jail_name@),
    {
        match self.nodes.get(id) {
            None => false,
            Some(node) => {
                let ghost wanted = JailHealthView { name: jail_name@, running: true };
                let jails = &node.report.jails;
                let mut i: usize = 0;
                while i < jails.len()
                    invariant
                        i <= jails@.len(),
                        forall|j: int| 0 <= j < i ==> (#[trigger] jails@[j])@ != wanted,
                        wanted == (JailHealthView { name: jail_name@, running: true }),
                        node@.jails == views(jails@),
                        self@.nodes.dom().contains(id@),
                        self@.nodes[id@] == node@,
                    decreases jails.len() - i,
                {
                    if jails[i].running && same(jails[i].name.as_str(), jail_name) {
                        assert(node@.jails[i as int] == wanted);
                        return true;
                    }
                    assert(jails@[i as int]@ != wanted);
                    i = i + 1;
                }
                assert(!node@.jails.contains(wanted)) by {
                    if node@.jails.contains(wanted) {
                        let k = choose|k: int| 0 <= k < node@.jails.len() && node@.jails[k] == wanted;
                        assert(jails@[k]@ == wanted);
                    }
                }
                false
            },
        }
    }
}

} // verus!
