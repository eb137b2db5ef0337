//! Where the dashboard gets its data from.

use crate::dashboard::snapshot::Reply;
use crate::strmap::StrMap;
use crate::views::{duplicate_all, views};
use crate::wire::{
    JailStatus, JailStatusView, NodeStatus, NodeStatusView, ServiceReplica, ServiceReplicaView, ServiceSummary,
    ServiceSummaryView, VolumeStatus, VolumeStatusView,
};
use vstd::prelude::*;
use vstd::string::*;

verus! {

/// An answer by what it holds.
pub open spec fn reply_view<T: View>(r: Result<Vec<T>, String>) -> Result<Seq<T::V>, Seq<char>> {
    match r {
        Ok(v) => Ok(views(v@)),
        Err(e) => Err(e@),
    }
}

/// A request to the control plane.
pub enum Fetch<'a> {
    Nodes,
    /// The jails of a node.
    Jails(&'a str),
    /// The volumes of a node.
    Volumes(&'a str),
    Services,
    /// The replicas of a service.
    Service(&'a str),
}

impl<'a> Fetch<'a> {
    /// Where the control plane answers a request.
    pub open spec fn path_of(self) -> Seq<char> {
        match self {
            Fetch::Nodes => "/nodes"@,
            Fetch::Jails(node_id) => "/nodes/"@ + node_id@ + "/jails"@,
            Fetch::Volumes(node_id) => "/nodes/"@ + node_id@ + "/volumes"@,
            Fetch::Services => "/services"@,
            Fetch::Service(name) => "/services/"@ + name@,
        }
    }

    /// Where the control plane answers the request.
    pub fn path(&self) -> (r: String)
        ensures
            r@ == self.path_of(),
    {
        match self {
            Fetch::Nodes => "/nodes".to_owned(),
            Fetch::Jails(node_id) => {
                let mut out = "/nodes/".to_owned();
                out.append(node_id);
                out.append("/jails");
                out
            },
            Fetch::Volumes(node_id) => {
                let mut out = "/nodes/".to_owned();
                out.append(node_id);
                out.append("/volumes");
                out
            },
            Fetch::Services => "/services".to_owned(),
            Fetch::Service(name) => {
                let mut out = "/services/".to_owned();
                out.append(name);
                out
            },
        }
    }
}

/// Something that answers for the control plane. What an implementation may answer is its own matter, and
/// is told by the predicates: anything, unless it says otherwise.
pub trait ControlPlaneClient: Sized {
    /// It can be asked.
    open spec fn ready(&self) -> bool {
        true
    }

    open spec fn nodes_may_be(&self, r: Reply<NodeStatusView>) -> bool {
        true
    }

    open spec fn jails_may_be(&self, node_id: Seq<char>, r: Reply<JailStatusView>) -> bool {
        true
    }

    open spec fn volumes_may_be(&self, node_id: Seq<char>, r: Reply<VolumeStatusView>) -> bool {
        true
    }

    open spec fn services_may_be(&self, r: Reply<ServiceSummaryView>) -> bool {
        true
    }

    open spec fn service_may_be(&self, name: Seq<char>, r: Reply<ServiceReplicaView>) -> bool {
        true
    }

    fn fetch_nodes(&self) -> (r: Result<Vec<NodeStatus>, String>)
        requires
            self.ready(),
        ensures
            self.nodes_may_be(reply_view(r)),
    ;

    fn fetch_jails(&self, node_id: &str) -> (r: Result<Vec<JailStatus>, String>)
        requires
            self.ready(),
        ensures
            self.jails_may_be(node_id@, reply_view(r)),
    ;

    fn fetch_volumes(&self, node_id: &str) -> (r: Result<Vec<VolumeStatus>, String>)
        requires
            self.ready(),
        ensures
            self.volumes_may_be(node_id@, reply_view(r)),
    ;

    fn fetch_services(&self) -> (r: Result<Vec<ServiceSummary>, String>)
        requires
            self.ready(),
        ensures
            self.services_may_be(reply_view(r)),
    ;

    /// The replicas of a service; its name and address come with the summaries.
    fn fetch_service(&self, name: &str) -> (r: Result<Vec<ServiceReplica>, String>)
        requires
            self.ready(),
        ensures
            self.service_may_be(name@, reply_view(r)),
    ;
}

/// A client that answers with what it was given, or fails where it was told to.
pub struct FakeControlPlaneClient {
    nodes: Vec<NodeStatus>,
    jails: StrMap<Vec<JailStatus>>,
    volumes: StrMap<Vec<VolumeStatus>>,
    services: Vec<ServiceSummary>,
    service_details: StrMap<Vec<ServiceReplica>>,
    nodes_failing: bool,
    failing_jail_nodes: StrMap<()>,
    failing_volume_nodes: StrMap<()>,
    services_failing: bool,
    failing_services: StrMap<()>,
}

/// What a [`FakeControlPlaneClient`] holds.
#[verifier::ext_equal]
pub struct FakeClientView {
    pub nodes: Seq<NodeStatusView>,
    pub jails: Map<Seq<char>, Seq<JailStatusView>>,
    pub volumes: Map<Seq<char>, Seq<VolumeStatusView>>,
    pub services: Seq<ServiceSummaryView>,
    pub service_details: Map<Seq<char>, Seq<ServiceReplicaView>>,
    pub nodes_failing: bool,
    pub failing_jail_nodes: Set<Seq<char>>,
    pub failing_volume_nodes: Set<Seq<char>>,
    pub services_failing: bool,
    pub failing_services: Set<Seq<char>>,
}

impl View for FakeControlPlaneClient {
    type V = FakeClientView;

    closed spec fn view(&self) -> FakeClientView {
        FakeClientView {
            nodes: views(self.nodes@),
            jails: self.jails.map().map_values(|v: Vec<JailStatus>| views(v@)),
            volumes: self.volumes.map().map_values(|v: Vec<VolumeStatus>| views(v@)),
            services: views(self.services@),
            service_details: self.service_details.map().map_values(|v: Vec<ServiceReplica>| views(v@)),
            nodes_failing: self.nodes_failing,
            failing_jail_nodes: self.failing_jail_nodes.map().dom(),
            failing_volume_nodes: self.failing_volume_nodes.map().dom(),
            services_failing: self.services_failing,
            failing_services: self.failing_services.map().dom(),
        }
    }
}

impl FakeClientView {
    pub open spec fn empty() -> FakeClientView {
        FakeClientView {
            nodes: Seq::empty(),
            jails: Map::empty(),
            volumes: Map::empty(),
            services: Seq::empty(),
            service_details: Map::empty(),
            nodes_failing: false,
            failing_jail_nodes: Set::empty(),
            failing_volume_nodes: Set::empty(),
            services_failing: false,
            failing_services: Set::empty(),
        }
    }

    pub open spec fn nodes_reply(self) -> Reply<NodeStatusView> {
        if self.nodes_failing {
            Err("simulated control-plane unreachable"@)
        } else {
            Ok(self.nodes)
        }
    }

    pub open spec fn jails_reply(self, node_id: Seq<char>) -> Reply<JailStatusView> {
        if self.failing_jail_nodes.contains(node_id) {
            Err("simulated failure fetching jails for '"@ + node_id + "'"@)
        } else if self.jails.dom().contains(node_id) {
            Ok(self.jails[node_id])
        } else {
            Ok(Seq::empty())
        }
    }

    pub open spec fn volumes_reply(self, node_id: Seq<char>) -> Reply<VolumeStatusView> {
        if self.failing_volume_nodes.contains(node_id) {
            Err("simulated failure fetching volumes for '"@ + node_id + "'"@)
        } else if self.volumes.dom().contains(node_id) {
            Ok(self.volumes[node_id])
        } else {
            Ok(Seq::empty())
        }
    }

    pub open spec fn services_reply(self) -> Reply<ServiceSummaryView> {
        if self.services_failing {
            Err("simulated failure fetching services"@)
        } else {
            Ok(self.services)
        }
    }

    pub open spec fn service_reply(self, name: Seq<char>) -> Reply<ServiceReplicaView> {
        if self.failing_services.contains(name) {
            Err("simulated failure fetching service '"@ + name + "'"@)
        } else if self.service_details.dom().contains(name) {
            Ok(self.service_details[name])
        } else {
            Err("no such service '"@ + name + "'"@)
        }
    }
}

fn quoted(before: &str, name: &str) -> (r: String)
    ensures
        r@ == before@ + name@ + "'"@,
{
    let mut out = before.to_owned();
    out.append(name);
    out.append("'");
    out
}

impl ControlPlaneClient for FakeControlPlaneClient {
    open spec fn ready(&self) -> bool {
        self.wf()
    }

    open spec fn nodes_may_be(&self, r: Reply<NodeStatusView>) -> bool {
        r == self@.nodes_reply()
    }

    open spec fn jails_may_be(&self, node_id: Seq<char>, r: Reply<JailStatusView>) -> bool {
        r == self@.jails_reply(node_id)
    }

    open spec fn volumes_may_be(&self, node_id: Seq<char>, r: Reply<VolumeStatusView>) -> bool {
        r == self@.volumes_reply(node_id)
    }

    open spec fn services_may_be(&self, r: Reply<ServiceSummaryView>) -> bool {
        r == self@.services_reply()
    }

    open spec fn service_may_be(&self, name: Seq<char>, r: Reply<ServiceReplicaView>) -> bool {
        r == self@.service_reply(name)
    }

    fn fetch_nodes(&self) -> (r: Result<Vec<NodeStatus>, String>) {
        if self.nodes_failing {
            return Err("simulated control-plane unreachable".to_owned());
        }
        Ok(duplicate_all(&self.nodes))
    }

    fn fetch_jails(&self, node_id: &str) -> (r: Result<Vec<JailStatus>, String>) {
        if self.failing_jail_nodes.contains_key(node_id) {
            return Err(quoted("simulated failure fetching jails for '", node_id));
        }
        match self.jails.get(node_id) {
            Some(jails) => Ok(duplicate_all(jails)),
            None => {
                let none: Vec<JailStatus> = Vec::new();
                assert(views(none@) =~= Seq::empty());
                Ok(none)
            },
        }
    }

    fn fetch_volumes(&self, node_id: &str) -> (r: Result<Vec<VolumeStatus>, String>) {
        if self.failing_volume_nodes.contains_key(node_id) {
            return Err(quoted("simulated failure fetching volumes for '", node_id));
        }
        match self.volumes.get(node_id) {
            Some(volumes) => Ok(duplicate_all(volumes)),
            None => {
                let none: Vec<VolumeStatus> = Vec::new();
                assert(views(none@) =~= Seq::empty());
                Ok(none)
            },
        }
    }

    fn fetch_services(&self) -> (r: Result<Vec<ServiceSummary>, String>) {
        if self.services_failing {
            return Err("simulated failure fetching services".to_owned());
        }
        Ok(duplicate_all(&self.services))
    }

    fn fetch_service(&self, name: &str) -> (r: Result<Vec<ServiceReplica>, String>) {
        if self.failing_services.contains_key(name) {
            return Err(quoted("simulated failure fetching service '", name));
        }
        match self.service_details.get(name) {
            Some(replicas) => Ok(duplicate_all(replicas)),
            None => Err(quoted("no such service '", name)),
        }
    }
}

impl FakeControlPlaneClient {
    pub closed spec fn wf(&self) -> bool {
        &&& self.jails.wf()
        &&& self.volumes.wf()
        &&& self.service_details.wf()
        &&& self.failing_jail_nodes.wf()
        &&& self.failing_volume_nodes.wf()
        &&& self.failing_services.wf()
    }

    pub fn new() -> (r: Self)
        ensures
            r.wf(),
            r@ == FakeClientView::empty(),
    {
        let r = FakeControlPlaneClient {
            nodes: Vec::new(),
            jails: StrMap::new(),
            volumes: StrMap::new(),
            services: Vec::new(),
            service_details: StrMap::new(),
            nodes_failing: false,
            failing_jail_nodes: StrMap::new(),
            failing_volume_nodes: StrMap::new(),
            services_failing: false,
            failing_services: StrMap::new(),
        };
        assert(r@ =~= FakeClientView::empty());
        r
    }

    pub fn set_nodes(&mut self, nodes: Vec<NodeStatus>)
        requires
            old(self).wf(),
        ensures
            final(self).wf(),
            final(self)@ == (FakeClientView { nodes: views(nodes@), ..old(self)@ }),
    {
        self.nodes = nodes;
        assert(self@ =~= (FakeClientView { nodes: views(nodes@), ..old(self)@ }));
    }

    pub fn fail_nodes(&mut self)
        requires
            old(self).wf(),
        ensures
            final(self).wf(),
            final(self)@ == (FakeClientView { nodes_failing: true, ..old(self)@ }),
    {
        self.nodes_failing = true;
        assert(self@ =~= (FakeClientView { nodes_failing: true, ..old(self)@ }));
    }

    pub fn set_jails(&mut self, node_id: &str, jails: Vec<JailStatus>)
        requires
            old(self).wf(),
        ensures
            final(self).wf(),
            final(self)@ == (FakeClientView { jails: old(self)@.jails.insert(node_id@, views(jails@)), ..old(self)@ }),
    {
        self.jails.insert(node_id.to_owned(), jails);
        assert(self@ =~= (FakeClientView {
            jails: old(self)@.jails.insert(node_id@, views(jails@)),
            ..old(self)@
        }));
    }

    pub fn fail_jails(&mut self, node_id: &str)
        requires
            old(self).wf(),
        ensures
            final(self).wf(),
            final(self)@ == (FakeClientView {
                failing_jail_nodes: old(self)@.failing_jail_nodes.insert(node_id@),
                ..old(self)@
            }),
    {
        self.failing_jail_nodes.insert(node_id.to_owned(), ());
        assert(self@ =~= (FakeClientView {
            failing_jail_nodes: old(self)@.failing_jail_nodes.insert(node_id@),
            ..old(self)@
        }));
    }

    pub fn set_volumes(&mut self, node_id: &str, volumes: Vec<VolumeStatus>)
        requires
            old(self).wf(),
        ensures
            final(self).wf(),
            final(self)@ == (FakeClientView {
                volumes: old(self)@.volumes.insert(node_id@, views(volumes@)),
                ..old(self)@
            }),
    {
        self.volumes.insert(node_id.to_owned(), volumes);
        assert(self@ =~= (FakeClientView {
            volumes: old(self)@.volumes.insert(node_id@, views(volumes@)),
            ..old(self)@
        }));
    }

    pub fn fail_volumes(&mut self, node_id: &str)
        requires
            old(self).wf(),
        ensures
            final(self).wf(),
            final(self)@ == (FakeClientView {
                failing_volume_nodes: old(self)@.failing_volume_nodes.insert(node_id@),
                ..old(self)@
            }),
    {
        self.failing_volume_nodes.insert(node_id.to_owned(), ());
        assert(self@ =~= (FakeClientView {
            failing_volume_nodes: old(self)@.failing_volume_nodes.insert(node_id@),
            ..old(self)@
        }));
    }

    pub fn set_services(&mut self, services: Vec<ServiceSummary>)
        requires
            old(self).wf(),
        ensures
            final(self).wf(),
            final(self)@ == (FakeClientView { services: views(services@), ..old(self)@ }),
    {
        self.services = services;
        assert(self@ =~= (FakeClientView { services: views(services@), ..old(self)@ }));
    }

    pub fn fail_services(&mut self)
        requires
            old(self).wf(),
        ensures
            final(self).wf(),
            final(self)@ == (FakeClientView { services_failing: true, ..old(self)@ }),
    {
        self.services_failing = true;
        assert(self@ =~= (FakeClientView { services_failing: true, ..old(self)@ }));
    }

    pub fn set_service(&mut self, name: &str, replicas: Vec<ServiceReplica>)
        requires
            old(self).wf(),
        ensures
            final(self).wf(),
            final(self)@ == (FakeClientView {
                service_details: old(self)@.service_details.insert(name@, views(replicas@)),
                ..old(self)@
            }),
    {
        self.service_details.insert(name.to_owned(), replicas);
        assert(self@ =~= (FakeClientView {
            service_details: old(self)@.service_details.insert(name@, views(replicas@)),
            ..old(self)@
        }));
    }

    pub fn fail_service(&mut self, name: &str)
        requires
            old(self).wf(),
        ensures
            final(self).wf(),
            final(self)@ == (FakeClientView {
                failing_services: old(self)@.failing_services.insert(name@),
                ..old(self)@
            }),
    {
        self.failing_services.insert(name.to_owned(), ());
        assert(self@ =~= (FakeClientView {
            failing_services: old(self)@.failing_services.insert(name@),
            ..old(self)@
        }));
    }
}

} // verus!
