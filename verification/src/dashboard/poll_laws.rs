//! What a poll makes of a snapshot, told by the answers that came.

use crate::dashboard::control_plane_client::{ControlPlaneClient, FakeClientView, Fetch};
use crate::dashboard::snapshot::{
    may_reply, node_named, service_named, summaries_after, NodeSnapshotView, Replies, Reply, ServiceSnapshotView,
    SnapshotView,
};
use crate::wire::{JailStatusView, ServiceReplicaView, VolumeStatusView};
use vstd::prelude::*;

verus! {

/// The first node of an id stands at a place.
pub open spec fn is_first_node(nodes: Seq<NodeSnapshotView>, id: Seq<char>, k: int) -> bool {
    &&& 0 <= k < nodes.len()
    &&& nodes[k].status.id == id
    &&& forall|j: int| 0 <= j < k ==> (#[trigger] nodes[j]).status.id != id
}

/// No node has this id.
pub open spec fn is_new_node(nodes: Seq<NodeSnapshotView>, id: Seq<char>) -> bool {
    forall|j: int| 0 <= j < nodes.len() ==> (#[trigger] nodes[j]).status.id != id
}

/// The first service of a name stands at a place.
pub open spec fn is_first_service(services: Seq<ServiceSnapshotView>, name: Seq<char>, k: int) -> bool {
    &&& 0 <= k < services.len()
    &&& services[k].summary.name == name
    &&& forall|j: int| 0 <= j < k ==> (#[trigger] services[j]).summary.name != name
}

/// No service has this name.
pub open spec fn is_new_service(services: Seq<ServiceSnapshotView>, name: Seq<char>) -> bool {
    forall|j: int| 0 <= j < services.len() ==> (#[trigger] services[j]).summary.name != name
}

proof fn lemma_node_named(nodes: Seq<NodeSnapshotView>, id: Seq<char>)
    ensures
        match node_named(nodes, id) {
            Some(node) => exists|k: int| #[trigger] is_first_node(nodes, id, k) && nodes[k] == node,
            None => is_new_node(nodes, id),
        },
    decreases nodes.len(),
{
    if nodes.len() > 0 {
        if nodes[0].status.id == id {
            assert(is_first_node(nodes, id, 0));
        } else {
            let rest = nodes.skip(1);
            lemma_node_named(rest, id);
            if let Some(node) = node_named(rest, id) {
                let k = choose|k: int| #[trigger] is_first_node(rest, id, k) && rest[k] == node;
                assert forall|j: int| 0 <= j < k + 1 implies (#[trigger] nodes[j]).status.id != id by {
                    if j > 0 {
                        assert(rest[j - 1] == nodes[j]);
                    }
                }
                assert(is_first_node(nodes, id, k + 1));
            } else {
                assert forall|j: int| 0 <= j < nodes.len() implies (#[trigger] nodes[j]).status.id != id by {
                    if j > 0 {
                        assert(rest[j - 1] == nodes[j]);
                    }
                }
            }
        }
    }
}

proof fn lemma_service_named(services: Seq<ServiceSnapshotView>, name: Seq<char>)
    ensures
        match service_named(services, name) {
            Some(service) => exists|k: int| #[trigger] is_first_service(services, name, k) && services[k] == service,
            None => is_new_service(services, name),
        },
    decreases services.len(),
{
    if services.len() > 0 {
        if services[0].summary.name == name {
            assert(is_first_service(services, name, 0));
        } else {
            let rest = services.skip(1);
            lemma_service_named(rest, name);
            if let Some(service) = service_named(rest, name) {
                let k = choose|k: int| #[trigger] is_first_service(rest, name, k) && rest[k] == service;
                assert forall|j: int| 0 <= j < k + 1 implies (#[trigger] services[j]).summary.name != name by {
                    if j > 0 {
                        assert(rest[j - 1] == services[j]);
                    }
                }
                assert(is_first_service(services, name, k + 1));
            } else {
                assert forall|j: int| 0 <= j < services.len() implies (#[trigger] services[j]).summary.name != name by {
                    if j > 0 {
                        assert(rest[j - 1] == services[j]);
                    }
                }
            }
        }
    }
}

/// What is known of a node after a poll: what was answered about it, and where no answer came, what was known of the
/// first node of its id, or nothing.
pub open spec fn is_polled_node(
    before: Seq<NodeSnapshotView>,
    jails: Reply<JailStatusView>,
    volumes: Reply<VolumeStatusView>,
    after: NodeSnapshotView,
) -> bool {
    let id = after.status.id;
    &&& after.data_stale <==> (jails is Err || volumes is Err)
    &&& jails matches Ok(found) ==> after.jails == found
    &&& volumes matches Ok(found) ==> after.volumes == found
    &&& forall|k: int| #[trigger]
        is_first_node(before, id, k) ==> (jails is Err ==> after.jails == before[k].jails) && (volumes is Err
            ==> after.volumes == before[k].volumes)
    &&& is_new_node(before, id) ==> (jails is Err ==> after.jails.len() == 0) && (volumes is Err
        ==> after.volumes.len() == 0)
}

/// What is known of a service after a poll.
pub open spec fn is_polled_service(
    before: Seq<ServiceSnapshotView>,
    detail: Reply<ServiceReplicaView>,
    after: ServiceSnapshotView,
) -> bool {
    let name = after.summary.name;
    &&& after.data_stale <==> detail is Err
    &&& detail matches Ok(found) ==> after.detail == Some(found)
    &&& forall|k: int| #[trigger]
        is_first_service(before, name, k) ==> (detail is Err ==> after.detail == before[k].detail)
    &&& is_new_service(before, name) ==> (detail is Err ==> after.detail is None)
}

/// What a poll leaves behind, for every answer that may come. If the control plane cannot be reached, everything stays
/// as it was and is stale since the first such poll. Otherwise nothing is stale but what could not be fetched: the
/// nodes are those that were named, in their order, and the services those that were named, or else those known
/// before.
pub proof fn law_polls<C: ControlPlaneClient>(client: &C, before: SnapshotView, now_unix: i64, replies: Replies)
    requires
        may_reply(client, before, replies),
    ensures
        ({
            let after = before.polled(now_unix, replies);
            &&& replies.nodes is Err ==> {
                &&& after.nodes == before.nodes
                &&& after.services == before.services
                &&& after.stale
                &&& before.stale_as_of_unix is Some ==> after.stale_as_of_unix == before.stale_as_of_unix
                &&& before.stale_as_of_unix is None ==> after.stale_as_of_unix == Some(now_unix)
            }
            &&& replies.nodes matches Ok(named) ==> {
                &&& !after.stale
                &&& after.stale_as_of_unix is None
                &&& after.nodes.len() == named.len()
                &&& forall|i: int|
                    0 <= i < named.len() ==> (#[trigger] after.nodes[i]).status == named[i] && is_polled_node(
                        before.nodes,
                        replies.jails[i],
                        replies.volumes[i],
                        after.nodes[i],
                    )
                &&& replies.services matches Ok(listed) ==> after.services.len() == listed.len() && forall|i: int|
                    0 <= i < listed.len() ==> (#[trigger] after.services[i]).summary == listed[i]
                &&& replies.services is Err ==> after.services.len() == before.services.len() && forall|i: int|
                    0 <= i < before.services.len() ==> (#[trigger] after.services[i]).summary
                        == before.services[i].summary
                &&& forall|i: int|
                    0 <= i < after.services.len() ==> is_polled_service(
                        before.services,
                        replies.details[i],
                        #[trigger] after.services[i],
                    )
            }
        }),
{
    let after = before.polled(now_unix, replies);
    if replies.nodes is Ok {
        let named = replies.nodes->Ok_0;
        assert forall|i: int| 0 <= i < named.len() implies (#[trigger] after.nodes[i]).status == named[i] && is_polled_node(
            before.nodes,
            replies.jails[i],
            replies.volumes[i],
            after.nodes[i],
        ) by {
            let id = named[i].id;
            lemma_node_named(before.nodes, id);
            if let Some(node) = node_named(before.nodes, id) {
                let k = choose|k: int| #[trigger] is_first_node(before.nodes, id, k) && before.nodes[k] == node;
                assert forall|j: int| #[trigger] is_first_node(before.nodes, id, j) implies j == k by {
                    if j < k {
                        assert(before.nodes[j].status.id != id);
                    } else if k < j {
                        assert(before.nodes[k].status.id != id);
                    }
                }
                assert(!is_new_node(before.nodes, id)) by {
                    assert(before.nodes[k].status.id == id);
                }
            }
        }
        assert forall|i: int| 0 <= i < after.services.len() implies is_polled_service(
            before.services,
            replies.details[i],
            #[trigger] after.services[i],
        ) by {
            let name = after.services[i].summary.name;
            lemma_service_named(before.services, name);
            if let Some(service) = service_named(before.services, name) {
                let k = choose|k: int|
                    #[trigger] is_first_service(before.services, name, k) && before.services[k] == service;
                assert forall|j: int| #[trigger] is_first_service(before.services, name, j) implies j == k by {
                    if j < k {
                        assert(before.services[j].summary.name != name);
                    } else if k < j {
                        assert(before.services[k].summary.name != name);
                    }
                }
                assert(!is_new_service(before.services, name)) by {
                    assert(before.services[k].summary.name == name);
                }
            }
        }
    }
}

/// A poll asks about every node that was named, by its own id, and about every service by its own name.
pub proof fn law_polls_ask_by_name<C: ControlPlaneClient>(
    client: &C,
    before: SnapshotView,
    now_unix: i64,
    replies: Replies,
)
    requires
        may_reply(client, before, replies),
        replies.nodes is Ok,
    ensures
        ({
            let after = before.polled(now_unix, replies);
            &&& client.nodes_may_be(replies.nodes)
            &&& client.services_may_be(replies.services)
            &&& forall|i: int|
                0 <= i < after.nodes.len() ==> client.jails_may_be(
                    (#[trigger] after.nodes[i]).status.id,
                    replies.jails[i],
                ) && client.volumes_may_be(after.nodes[i].status.id, replies.volumes[i])
            &&& forall|i: int|
                0 <= i < after.services.len() ==> client.service_may_be(
                    (#[trigger] after.services[i]).summary.name,
                    replies.details[i],
                )
        }),
{
    let after = before.polled(now_unix, replies);
    let named = replies.nodes->Ok_0;
    assert forall|i: int| 0 <= i < after.nodes.len() implies client.jails_may_be(
        (#[trigger] after.nodes[i]).status.id,
        replies.jails[i],
    ) && client.volumes_may_be(after.nodes[i].status.id, replies.volumes[i]) by {
        assert(after.nodes[i].status == named[i]);
    }
    assert forall|i: int| 0 <= i < after.services.len() implies client.service_may_be(
        (#[trigger] after.services[i]).summary.name,
        replies.details[i],
    ) by {
        assert(after.services[i].summary == summaries_after(replies.services, before.services)[i]);
        assert(client.service_may_be(summaries_after(replies.services, before.services)[i].name, replies.details[i]));
    }
}

/// Where the control plane answers for a node or a service: at the place of the collection, and below it at the id of
/// the node or the name of the service, whatever that is.
pub proof fn law_paths(id: &str)
    ensures
        Fetch::Jails(id).path_of() == Fetch::Nodes.path_of() + "/"@ + id@ + "/jails"@,
        Fetch::Volumes(id).path_of() == Fetch::Nodes.path_of() + "/"@ + id@ + "/volumes"@,
        Fetch::Service(id).path_of() == Fetch::Services.path_of() + "/"@ + id@,
        Fetch::Nodes.path_of() == "/nodes"@,
        Fetch::Services.path_of() == "/services"@,
{
    reveal_strlit("/");
    reveal_strlit("/nodes");
    reveal_strlit("/nodes/");
    reveal_strlit("/services");
    reveal_strlit("/services/");
    assert("/nodes/"@ =~= "/nodes"@ + "/"@);
    assert("/services/"@ =~= "/services"@ + "/"@);
}

/// A client that answers with what it was given answers about each node and each service with what it was given for that one,
/// and fails exactly where it was told to; about a service that it was given nothing for it fails too.
pub proof fn law_answers_of_the_fake(client: FakeClientView, id: Seq<char>)
    ensures
        client.nodes_reply() is Err <==> client.nodes_failing,
        !client.nodes_failing ==> client.nodes_reply()->Ok_0 == client.nodes,
        client.services_reply() is Err <==> client.services_failing,
        !client.services_failing ==> client.services_reply()->Ok_0 == client.services,
        client.jails_reply(id) is Err <==> client.failing_jail_nodes.contains(id),
        client.jails_reply(id) matches Ok(jails) ==> if client.jails.dom().contains(id) {
            jails == client.jails[id]
        } else {
            jails.len() == 0
        },
        client.volumes_reply(id) is Err <==> client.failing_volume_nodes.contains(id),
        client.volumes_reply(id) matches Ok(volumes) ==> if client.volumes.dom().contains(id) {
            volumes == client.volumes[id]
        } else {
            volumes.len() == 0
        },
        client.service_reply(id) is Err <==> client.failing_services.contains(id)
            || !client.service_details.dom().contains(id),
        client.service_reply(id) matches Ok(replicas) ==> replicas == client.service_details[id],
{
}

} // verus!
