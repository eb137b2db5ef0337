//! What the dashboard knows of the cluster, and how a poll changes it.

use crate::dashboard::control_plane_client::{reply_view, ControlPlaneClient};
use crate::text::same;
use crate::views::{duplicate_all, opt_views, views, Duplicate};
use crate::wire::{
    JailStatus, JailStatusView, NodeStatus, NodeStatusView, ServiceReplica, ServiceReplicaView, ServiceSummary,
    ServiceSummaryView, VolumeStatus, VolumeStatusView,
};
use vstd::prelude::*;

verus! {

/// A node with its jails and volumes; the data of a stale one is from an earlier poll, in part at least.
#[derive(Debug, Clone, PartialEq, Eq)]
pub struct NodeSnapshot {
    pub status: NodeStatus,
    pub jails: Vec<JailStatus>,
    pub volumes: Vec<VolumeStatus>,
    pub data_stale: bool,
}

/// What a [`NodeSnapshot`] holds.
#[verifier::ext_equal]
pub struct NodeSnapshotView {
    pub status: NodeStatusView,
    pub jails: Seq<JailStatusView>,
    pub volumes: Seq<VolumeStatusView>,
    pub data_stale: bool,
}

impl View for NodeSnapshot {
    type V = NodeSnapshotView;

    open spec fn view(&self) -> NodeSnapshotView {
        NodeSnapshotView {
            status: self.status@,
            jails: views(self.jails@),
            volumes: views(self.volumes@),
            data_stale: self.data_stale,
        }
    }
}

impl Duplicate for NodeSnapshot {
    fn duplicate(&self) -> (r: Self) {
        NodeSnapshot {
            status: self.status.duplicate(),
            jails: duplicate_all(&self.jails),
            volumes: duplicate_all(&self.volumes),
            data_stale: self.data_stale,
        }
    }
}

/// A service with its replicas, as far as they are known.
#[derive(Debug, Clone, PartialEq, Eq)]
pub struct ServiceSnapshot {
    pub summary: ServiceSummary,
    pub detail: Option<Vec<ServiceReplica>>,
    pub data_stale: bool,
}

/// What a [`ServiceSnapshot`] holds.
#[verifier::ext_equal]
pub struct ServiceSnapshotView {
    pub summary: ServiceSummaryView,
    pub detail: Option<Seq<ServiceReplicaView>>,
    pub data_stale: bool,
}

impl View for ServiceSnapshot {
    type V = ServiceSnapshotView;

    open spec fn view(&self) -> ServiceSnapshotView {
        ServiceSnapshotView {
            summary: self.summary@,
            detail: opt_views(self.detail),
            data_stale: self.data_stale,
        }
    }
}

impl Duplicate for ServiceSnapshot {
    fn duplicate(&self) -> (r: Self) {
        ServiceSnapshot {
            summary: self.summary.duplicate(),
            detail: match &self.detail {
                Some(v) => Some(duplicate_all(v)),
                None => None,
            },
            data_stale: self.data_stale,
        }
    }
}

/// The cluster as the dashboard last saw it.
#[derive(Debug, Clone, PartialEq, Eq)]
pub struct Snapshot {
    pub nodes: Vec<NodeSnapshot>,
    pub services: Vec<ServiceSnapshot>,
    pub stale: bool,
    pub stale_as_of_unix: Option<i64>,
}

/// What a [`Snapshot`] holds.
#[verifier::ext_equal]
pub struct SnapshotView {
    pub nodes: Seq<NodeSnapshotView>,
    pub services: Seq<ServiceSnapshotView>,
    pub stale: bool,
    pub stale_as_of_unix: Option<i64>,
}

impl View for Snapshot {
    type V = SnapshotView;

    open spec fn view(&self) -> SnapshotView {
        SnapshotView {
            nodes: views(self.nodes@),
            services: views(self.services@),
            stale: self.stale,
            stale_as_of_unix: self.stale_as_of_unix,
        }
    }
}

impl Duplicate for Snapshot {
    fn duplicate(&self) -> (r: Self) {
        Snapshot {
            nodes: duplicate_all(&self.nodes),
            services: duplicate_all(&self.services),
            stale: self.stale,
            stale_as_of_unix: self.stale_as_of_unix,
        }
    }
}

impl Default for Snapshot {
    fn default() -> (r: Self)
        ensures
            r@ == SnapshotView::empty(),
    {
        let r = Snapshot { nodes: Vec::new(), services: Vec::new(), stale: false, stale_as_of_unix: None };
        assert(r@ =~= SnapshotView::empty());
        r
    }
}

/// The answer to a question that can fail.
pub type Reply<T> = Result<Seq<T>, Seq<char>>;

/// The first node of an id.
pub open spec fn node_named(nodes: Seq<NodeSnapshotView>, id: Seq<char>) -> Option<NodeSnapshotView>
    decreases nodes.len(),
{
    if nodes.len() == 0 {
        None
    } else if nodes[0].status.id == id {
        Some(nodes[0])
    } else {
        node_named(nodes.skip(1), id)
    }
}

/// The first service of a name.
pub open spec fn service_named(services: Seq<ServiceSnapshotView>, name: Seq<char>) -> Option<ServiceSnapshotView>
    decreases services.len(),
{
    if services.len() == 0 {
        None
    } else if services[0].summary.name == name {
        Some(services[0])
    } else {
        service_named(services.skip(1), name)
    }
}

/// What a node becomes: fresh where the answers came, and as it was where they did not.
pub open spec fn node_after(
    status: NodeStatusView,
    jails: Reply<JailStatusView>,
    volumes: Reply<VolumeStatusView>,
    previous: Seq<NodeSnapshotView>,
) -> NodeSnapshotView {
    let known = node_named(previous, status.id);
    NodeSnapshotView {
        status,
        jails: match jails {
            Ok(j) => j,
            Err(_) => match known {
                Some(n) => n.jails,
                None => Seq::empty(),
            },
        },
        volumes: match volumes {
            Ok(v) => v,
            Err(_) => match known {
                Some(n) => n.volumes,
                None => Seq::empty(),
            },
        },
        data_stale: jails is Err || volumes is Err,
    }
}

/// What a service becomes: fresh where the answer came, and as it was where it did not.
pub open spec fn service_after(
    summary: ServiceSummaryView,
    detail: Reply<ServiceReplicaView>,
    previous: Seq<ServiceSnapshotView>,
) -> ServiceSnapshotView {
    ServiceSnapshotView {
        summary,
        detail: match detail {
            Ok(d) => Some(d),
            Err(_) => match service_named(previous, summary.name) {
                Some(s) => s.detail,
                None => None,
            },
        },
        data_stale: detail is Err,
    }
}

/// The services that a poll goes through: those that the control plane names, or else those known before.
pub open spec fn summaries_after(
    services: Reply<ServiceSummaryView>,
    previous: Seq<ServiceSnapshotView>,
) -> Seq<ServiceSummaryView> {
    match services {
        Ok(s) => s,
        Err(_) => Seq::new(previous.len(), |i: int| previous[i].summary),
    }
}

/// All that a control plane answers in one poll.
pub struct Replies {
    pub nodes: Reply<NodeStatusView>,
    /// The jails of each node, in the order of the nodes.
    pub jails: Seq<Reply<JailStatusView>>,
    pub volumes: Seq<Reply<VolumeStatusView>>,
    pub services: Reply<ServiceSummaryView>,
    /// The replicas of each service, in the order of the services.
    pub details: Seq<Reply<ServiceReplicaView>>,
}

impl SnapshotView {
    pub open spec fn empty() -> SnapshotView {
        SnapshotView { nodes: Seq::empty(), services: Seq::empty(), stale: false, stale_as_of_unix: None }
    }

    /// The snapshot when the control plane cannot be reached: all as it was, and stale since the first such
    /// poll.
    pub open spec fn made_stale(self, now_unix: i64) -> SnapshotView {
        SnapshotView {
            stale: true,
            stale_as_of_unix: Some(
                match self.stale_as_of_unix {
                    Some(t) => t,
                    None => now_unix,
                },
            ),
            ..self
        }
    }

    /// The snapshot after a poll with these answers.
    pub open spec fn polled(self, now_unix: i64, replies: Replies) -> SnapshotView {
        match replies.nodes {
            Err(_) => self.made_stale(now_unix),
            Ok(statuses) => SnapshotView {
                nodes: Seq::new(
                    statuses.len(),
                    |i: int| node_after(statuses[i], replies.jails[i], replies.volumes[i], self.nodes),
                ),
                services: Seq::new(
                    summaries_after(replies.services, self.services).len(),
                    |i: int|
                        service_after(
                            summaries_after(replies.services, self.services)[i],
                            replies.details[i],
                            self.services,
                        ),
                ),
                stale: false,
                stale_as_of_unix: None,
            },
        }
    }
}

/// These are answers that a client may give when it is polled over a snapshot.
pub open spec fn may_reply<C: ControlPlaneClient>(client: &C, previous: SnapshotView, replies: Replies) -> bool {
    &&& client.nodes_may_be(replies.nodes)
    &&& replies.nodes matches Ok(statuses) ==> {
        &&& replies.jails.len() == statuses.len()
        &&& replies.volumes.len() == statuses.len()
        &&& forall|i: int|
            0 <= i < statuses.len() ==> client.jails_may_be((#[trigger] statuses[i]).id, replies.jails[i])
                && client.volumes_may_be(statuses[i].id, replies.volumes[i])
        &&& client.services_may_be(replies.services)
        &&& replies.details.len() == summaries_after(replies.services, previous.services).len()
        &&& forall|i: int|
            0 <= i < replies.details.len() ==> client.service_may_be(
                summaries_after(replies.services, previous.services)[i].name,
                #[trigger] replies.details[i],
            )
    }
}

fn find_node<'a>(nodes: &'a Vec<NodeSnapshot>, id: &str) -> (r: Option<&'a NodeSnapshot>)
    ensures
        match r {
            Some(n) => node_named(views(nodes@), id@) == Some(n@),
            None => node_named(views(nodes@), id@) is None,
        },
{
    let ghost all = views(nodes@);
    let mut i: usize = 0;
    assert(all.skip(0) =~= all);
    while i < nodes.len()
        invariant
            all == views(nodes@),
            i <= nodes@.len(),
            node_named(all, id@) == node_named(all.skip(i as int), id@),
        decreases nodes.len() - i,
    {
        assert(all.skip(i as int)[0] == nodes@[i as int]@);
        assert(all.skip(i as int).skip(1) =~= all.skip(i + 1));
        if same(nodes[i].status.id.as_str(), id) {
            return Some(&nodes[i]);
        }
        i = i + 1;
    }
    None
}

fn find_service<'a>(services: &'a Vec<ServiceSnapshot>, name: &str) -> (r: Option<&'a ServiceSnapshot>)
    ensures
        match r {
            Some(s) => service_named(views(services@), name@) == Some(s@),
            None => service_named(views(services@), name@) is None,
        },
{
    let ghost all = views(services@);
    let mut i: usize = 0;
    assert(all.skip(0) =~= all);
    while i < services.len()
        invariant
            all == views(services@),
            i <= services@.len(),
            service_named(all, name@) == service_named(all.skip(i as int), name@),
        decreases services.len() - i,
    {
        assert(all.skip(i as int)[0] == services@[i as int]@);
        assert(all.skip(i as int).skip(1) =~= all.skip(i + 1));
        if same(services[i].summary.name.as_str(), name) {
            return Some(&services[i]);
        }
        i = i + 1;
    }
    None
}

/// The snapshot when the control plane cannot be reached.
pub fn stale_snapshot(previous: &Snapshot, now_unix: i64) -> (r: Snapshot)
    ensures
        r@ == previous@.made_stale(now_unix),
{
    let mut stale = previous.duplicate();
    stale.stale = true;
    stale.stale_as_of_unix = Some(
        match previous.stale_as_of_unix {
            Some(t) => t,
            None => now_unix,
        },
    );
    assert(stale@ =~= previous@.made_stale(now_unix));
    stale
}

/// What a node becomes with these answers about its jails and its volumes.
pub fn node_snapshot(
    status: NodeStatus,
    jails: Result<Vec<JailStatus>, String>,
    volumes: Result<Vec<VolumeStatus>, String>,
    previous: &Vec<NodeSnapshot>,
) -> (r: NodeSnapshot)
    ensures
        r@ == node_after(status@, reply_view(jails), reply_view(volumes), views(previous@)),
{
    let ghost expected = node_after(status@, reply_view(jails), reply_view(volumes), views(previous@));
    let data_stale = jails.is_err() || volumes.is_err();
    let known = find_node(previous, status.id.as_str());
    let jails = match jails {
        Ok(j) => j,
        Err(_) => match known {
            Some(n) => duplicate_all(&n.jails),
            None => Vec::new(),
        },
    };
    let volumes = match volumes {
        Ok(v) => v,
        Err(_) => match known {
            Some(n) => duplicate_all(&n.volumes),
            None => Vec::new(),
        },
    };
    let node = NodeSnapshot { status, jails, volumes, data_stale };
    assert(node@ =~= expected);
    node
}

/// What a service becomes with this answer about its replicas.
pub fn service_snapshot(
    summary: ServiceSummary,
    detail: Result<Vec<ServiceReplica>, String>,
    previous: &Vec<ServiceSnapshot>,
) -> (r: ServiceSnapshot)
    ensures
        r@ == service_after(summary@, reply_view(detail), views(previous@)),
{
    let ghost expected = service_after(summary@, reply_view(detail), views(previous@));
    let data_stale = detail.is_err();
    let detail = match detail {
        Ok(d) => Some(d),
        Err(_) => match find_service(previous, summary.name.as_str()) {
            Some(s) => match &s.detail {
                Some(d) => Some(duplicate_all(d)),
                None => None,
            },
            None => None,
        },
    };
    let service = ServiceSnapshot { summary, detail, data_stale };
    assert(service@ =~= expected);
    service
}

/// The summaries of the services that were known before.
fn known_summaries(previous: &Vec<ServiceSnapshot>) -> (r: Vec<ServiceSummary>)
    ensures
        views(r@) == Seq::new(previous@.len(), |i: int| views(previous@)[i].summary),
{
    let mut out: Vec<ServiceSummary> = Vec::new();
    let mut i: usize = 0;
    while i < previous.len()
        invariant
            i <= previous@.len(),
            out@.len() == i,
            forall|j: int| 0 <= j < i ==> (#[trigger] out@[j])@ == previous@[j]@.summary,
        decreases previous.len() - i,
    {
        out.push(previous[i].summary.duplicate());
        i = i + 1;
    }
    assert(views(out@) =~= Seq::new(previous@.len(), |i: int| views(previous@)[i].summary));
    out
}

/// Asks the control plane for everything once. Where an answer fails, what was known before stays: if the
/// control plane cannot be reached, the whole snapshot stays and becomes stale; if one node or one service
/// fails, only that one does.
pub fn poll_once<C: ControlPlaneClient>(client: &C, previous: &Snapshot, now_unix: i64) -> (r: Snapshot)
    requires
        client.ready(),
    ensures
        exists|replies: Replies| #[trigger]
            may_reply(client, previous@, replies) && r@ == previous@.polled(now_unix, replies),
{
    let ghost nodes_reply: Reply<NodeStatusView>;
    let fetched = client.fetch_nodes();
    proof {
        nodes_reply = reply_view(fetched);
    }
    let statuses = match fetched {
        Ok(statuses) => statuses,
        Err(_) => {
            let stale = stale_snapshot(previous, now_unix);
            proof {
                let replies = Replies {
                    nodes: nodes_reply,
                    jails: Seq::empty(),
                    volumes: Seq::empty(),
                    services: Ok(Seq::empty()),
                    details: Seq::empty(),
                };
                assert(may_reply(client, previous@, replies));
            }
            return stale;
        },
    };
    let ghost all_statuses = views(statuses@);
    let ghost mut jail_replies: Seq<Reply<JailStatusView>> = Seq::empty();
    let ghost mut volume_replies: Seq<Reply<VolumeStatusView>> = Seq::empty();
    let mut nodes: Vec<NodeSnapshot> = Vec::new();
    let mut i: usize = 0;
    while i < statuses.len()
        invariant
            client.ready(),
            all_statuses == views(statuses@),
            i <= statuses@.len(),
            jail_replies.len() == i,
            volume_replies.len() == i,
            nodes@.len() == i,
            forall|j: int|
                0 <= j < i ==> client.jails_may_be((#[trigger] all_statuses[j]).id, jail_replies[j])
                    && client.volumes_may_be(all_statuses[j].id, volume_replies[j]),
            forall|j: int|
                0 <= j < i ==> (#[trigger] nodes@[j])@ == node_after(
                    all_statuses[j],
                    jail_replies[j],
                    volume_replies[j],
                    previous@.nodes,
                ),
        decreases statuses.len() - i,
    {
        let status = statuses[i].duplicate();
        assert(all_statuses[i as int] == status@);
        let jails = client.fetch_jails(status.id.as_str());
        let volumes = client.fetch_volumes(status.id.as_str());
        proof {
            jail_replies = jail_replies.push(reply_view(jails));
            volume_replies = volume_replies.push(reply_view(volumes));
        }
        nodes.push(node_snapshot(status, jails, volumes, &previous.nodes));
        i = i + 1;
    }
    let fetched_services = client.fetch_services();
    let ghost services_reply = reply_view(fetched_services);
    let summaries = match fetched_services {
        Ok(s) => s,
        Err(_) => known_summaries(&previous.services),
    };
    let ghost all_summaries = summaries_after(services_reply, previous@.services);
    assert(views(summaries@) =~= all_summaries);
    let ghost mut detail_replies: Seq<Reply<ServiceReplicaView>> = Seq::empty();
    let mut services: Vec<ServiceSnapshot> = Vec::new();
    let mut k: usize = 0;
    while k < summaries.len()
        invariant
            client.ready(),
            all_summaries == views(summaries@),
            k <= summaries@.len(),
            detail_replies.len() == k,
            services@.len() == k,
            forall|j: int|
                0 <= j < k ==> client.service_may_be(all_summaries[j].name, #[trigger] detail_replies[j]),
            forall|j: int|
                0 <= j < k ==> (#[trigger] services@[j])@ == service_after(
                    all_summaries[j],
                    detail_replies[j],
                    previous@.services,
                ),
        decreases summaries.len() - k,
    {
        let summary = summaries[k].duplicate();
        assert(all_summaries[k as int] == summary@);
        let detail = client.fetch_service(summary.name.as_str());
        proof {
            detail_replies = detail_replies.push(reply_view(detail));
        }
        services.push(service_snapshot(summary, detail, &previous.services));
        k = k + 1;
    }
    let snapshot = Snapshot { nodes, services, stale: false, stale_as_of_unix: None };
    proof {
        let replies = Replies {
            nodes: nodes_reply,
            jails: jail_replies,
            volumes: volume_replies,
            services: services_reply,
            details: detail_replies,
        };
        assert(may_reply(client, previous@, replies));
        assert(snapshot@ =~= previous@.polled(now_unix, replies));
    }
    snapshot
}

/// Polls that fail in a row keep the last good data and the time of the first failure.
pub proof fn law_staleness_counts_from_the_first_failure(s: SnapshotView, first: i64, second: i64)
    ensures
        s.made_stale(first).made_stale(second) == s.made_stale(first),
        s.made_stale(first).nodes == s.nodes,
        s.made_stale(first).services == s.services,
{
}

/// When the control plane answers, a node whose jails or volumes could not be fetched is marked, and keeps
/// what was known of them, or nothing if it is new. Nothing else is marked for it, and all that came is fresh.
pub proof fn law_failures_stay_at_their_node(s: SnapshotView, now_unix: i64, replies: Replies, i: int)
    requires
        replies.nodes matches Ok(statuses) && 0 <= i < statuses.len(),
    ensures
        ({
            let after = s.polled(now_unix, replies);
            let status = replies.nodes->Ok_0[i];
            let known = node_named(s.nodes, status.id);
            &&& !after.stale && after.stale_as_of_unix is None
            &&& after.nodes[i].status == status
            &&& after.nodes[i].data_stale <==> replies.jails[i] is Err || replies.volumes[i] is Err
            &&& replies.jails[i] matches Ok(jails) ==> after.nodes[i].jails == jails
            &&& replies.volumes[i] matches Ok(volumes) ==> after.nodes[i].volumes == volumes
            &&& replies.jails[i] is Err && known is Some ==> after.nodes[i].jails == known->0.jails
            &&& replies.volumes[i] is Err && known is Some ==> after.nodes[i].volumes == known->0.volumes
            &&& replies.jails[i] is Err && known is None ==> after.nodes[i].jails.len() == 0
            &&& replies.volumes[i] is Err && known is None ==> after.nodes[i].volumes.len() == 0
        }),
{
}

/// When the control plane answers, a service whose replicas could not be fetched is marked, and keeps what was
/// known of them, or nothing if it is new. Nothing else is marked for it.
pub proof fn law_failures_stay_at_their_service(s: SnapshotView, now_unix: i64, replies: Replies, i: int)
    requires
        replies.nodes is Ok,
        0 <= i < summaries_after(replies.services, s.services).len(),
    ensures
        ({
            let after = s.polled(now_unix, replies);
            let known = service_named(s.services, after.services[i].summary.name);
            &&& !after.stale
            &&& after.services[i].data_stale <==> replies.details[i] is Err
            &&& replies.services matches Ok(listed) ==> after.services[i].summary == listed[i]
            &&& replies.services is Err ==> after.services[i].summary == s.services[i].summary
            &&& replies.details[i] matches Ok(replicas) ==> after.services[i].detail == Some(replicas)
            &&& replies.details[i] is Err && known is Some ==> after.services[i].detail == known->0.detail
            &&& replies.details[i] is Err && known is None ==> after.services[i].detail is None
        }),
{
}

} // verus!
