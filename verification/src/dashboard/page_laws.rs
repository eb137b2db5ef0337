//! What a page shows: every part of the snapshot in a row of its own, and nothing else.

use crate::dashboard::html::{
    escaped, escaped_char, expiry_cell, ingress_row, ingress_rows, ingress_rows_of, jail_row, jail_rows, jail_rows_of,
    jail_state, node_row, node_rows, page_of, placement, service_row, service_rows, stale_banner, stale_cell, volume_row,
    volume_rows, volume_rows_of,
};
use crate::dashboard::snapshot::{NodeSnapshotView, ServiceSnapshotView, SnapshotView};
use crate::decimal::{decimal, signed_decimal};
use crate::wire::{IngressHealthView, JailStatusView, NodeState, ServiceReplicaView, VolumeStatusView};
use vstd::prelude::*;

verus! {

/// A cell of a table.
pub open spec fn cell(text: Seq<char>) -> Seq<char> {
    "<td>"@ + text + "</td>"@
}

/// Two numbers, or what stands for them, of which the first is part of the second.
pub open spec fn of_both(part: Seq<char>, whole: Seq<char>) -> Seq<char> {
    part + "/"@ + whole
}

/// The text that marks old data.
pub open spec fn mark(stale: bool) -> Seq<char> {
    if stale {
        "stale"@
    } else {
        ""@
    }
}

proof fn lemma_tags()
    ensures
        "<tr><td>"@ == "<tr>"@ + "<td>"@,
        "</td><td>"@ == "</td>"@ + "<td>"@,
        "</td></tr>"@ == "</td>"@ + "</tr>"@,
        "s</td>"@ == "s"@ + "</td>"@,
        forall|stale: bool| #[trigger] stale_cell(stale) == cell(mark(stale)),
{
    reveal_strlit("<tr><td>");
    reveal_strlit("<tr>");
    reveal_strlit("<td>");
    reveal_strlit("</td><td>");
    reveal_strlit("</td>");
    reveal_strlit("</td></tr>");
    reveal_strlit("</tr>");
    reveal_strlit("s</td>");
    reveal_strlit("s");
    reveal_strlit("<td>stale</td>");
    reveal_strlit("<td></td>");
    reveal_strlit("stale");
    reveal_strlit("");
    assert("<tr><td>"@ =~= "<tr>"@ + "<td>"@);
    assert("</td><td>"@ =~= "</td>"@ + "<td>"@);
    assert("</td></tr>"@ =~= "</td>"@ + "</tr>"@);
    assert("s</td>"@ =~= "s"@ + "</td>"@);
    assert("<td>stale</td>"@ =~= "<td>"@ + "stale"@ + "</td>"@);
    assert("<td></td>"@ =~= "<td>"@ + ""@ + "</td>"@);
}

/// The row of a node: its id, its address, how it stands, what of its processors and of its memory is committed, how
/// long it was silent, and whether what is shown of it is old.
pub proof fn law_node_row(n: NodeSnapshotView)
    ensures
        node_row(n) == "<tr>"@ + cell(escaped(n.status.id)) + cell(escaped(n.status.addr)) + cell(
            if n.status.status == NodeState::Alive {
                "Alive"@
            } else {
                "Dead"@
            },
        ) + cell(of_both(n.status.committed_cpu.shown, n.status.capacity_cpu.shown)) + cell(
            of_both(decimal(n.status.committed_memory as nat), decimal(n.status.capacity_memory as nat)),
        ) + cell(decimal(n.status.last_seen_secs as nat) + "s"@) + cell(mark(n.data_stale)) + "</tr>"@,
{
    lemma_tags();
    let s = n.status;
    let state = if s.status == NodeState::Alive {
        "Alive"@
    } else {
        "Dead"@
    };
    let cpu = of_both(s.committed_cpu.shown, s.capacity_cpu.shown);
    let memory = of_both(decimal(s.committed_memory as nat), decimal(s.capacity_memory as nat));
    let silence = decimal(s.last_seen_secs as nat) + "s"@;
    let r0 = "<tr>"@;
    lemma_next_cell(r0, escaped(s.id));
    let r1 = r0 + cell(escaped(s.id));
    lemma_next_cell(r1, escaped(s.addr));
    let r2 = r1 + cell(escaped(s.addr));
    lemma_next_cell(r2, state);
    let r3 = r2 + cell(state);
    lemma_next_pair(r3, s.committed_cpu.shown, s.capacity_cpu.shown);
    let r4 = r3 + cell(cpu);
    lemma_next_pair(r4, decimal(s.committed_memory as nat), decimal(s.capacity_memory as nat));
    let r5 = r4 + cell(memory);
    lemma_last_cell(r5, decimal(s.last_seen_secs as nat), "s"@);
}

proof fn lemma_next_cell(before: Seq<char>, text: Seq<char>)
    ensures
        before + "<td>"@ + text + "</td><td>"@ == before + cell(text) + "<td>"@,
{
    lemma_tags();
    assert(before + "<td>"@ + text + ("</td>"@ + "<td>"@) =~= before + ("<td>"@ + text + "</td>"@) + "<td>"@);
}

proof fn lemma_next_pair(before: Seq<char>, part: Seq<char>, whole: Seq<char>)
    ensures
        before + "<td>"@ + part + "/"@ + whole + "</td><td>"@ == before + cell(of_both(part, whole)) + "<td>"@,
{
    lemma_next_cell(before, of_both(part, whole));
    assert(before + "<td>"@ + (part + "/"@ + whole) =~= before + "<td>"@ + part + "/"@ + whole);
}

proof fn lemma_last_cell(before: Seq<char>, text: Seq<char>, unit: Seq<char>)
    ensures
        before + "<td>"@ + text + (unit + "</td>"@) == before + cell(text + unit),
{
    assert(before + "<td>"@ + text + (unit + "</td>"@) =~= before + ("<td>"@ + (text + unit) + "</td>"@));
}

/// The row of a jail: its node, its name, and whether it runs, was started in vain and waits, or does not run.
pub proof fn law_jail_row(node_id: Seq<char>, j: JailStatusView)
    ensures
        jail_row(node_id, j) == "<tr>"@ + cell(escaped(node_id)) + cell(escaped(j.record.spec.metadata.name)) + cell(
            jail_state(j),
        ) + "</tr>"@,
        j.running ==> jail_state(j) == "running"@,
        !j.running && j.backoff.current_delay_secs is Some ==> jail_state(j) == "crash-looping"@,
        !j.running && j.backoff.current_delay_secs is None ==> jail_state(j) == "not running"@,
{
    lemma_tags();
    assert(jail_row(node_id, j) =~= "<tr>"@ + cell(escaped(node_id)) + cell(escaped(j.record.spec.metadata.name))
        + cell(jail_state(j)) + "</tr>"@);
}

/// The row of a volume: its node and its name.
pub proof fn law_volume_row(node_id: Seq<char>, name: Seq<char>)
    ensures
        volume_row(node_id, name) == "<tr>"@ + cell(escaped(node_id)) + cell(escaped(name)) + "</tr>"@,
{
    lemma_tags();
    assert(volume_row(node_id, name) =~= "<tr>"@ + cell(escaped(node_id)) + cell(escaped(name)) + "</tr>"@);
}

/// Where the replicas of a service are: each with its node and address, in their order, with commas between them.
pub open spec fn all_placed(replicas: Seq<ServiceReplicaView>) -> Seq<char> {
    Seq::new(
        replicas.len(),
        |i: int|
            (if i == 0 {
                ""@
            } else {
                ", "@
            }) + escaped(replicas[i].name) + " ("@ + escaped(replicas[i].node) + "@"@ + escaped(replicas[i].address)
                + ")"@,
    ).flatten()
}

proof fn lemma_placement(replicas: Seq<ServiceReplicaView>)
    ensures
        placement(replicas) == all_placed(replicas),
    decreases replicas.len(),
{
    reveal_strlit("");
    let parts = |r: Seq<ServiceReplicaView>|
        Seq::new(
            r.len(),
            |i: int|
                (if i == 0 {
                    ""@
                } else {
                    ", "@
                }) + escaped(r[i].name) + " ("@ + escaped(r[i].node) + "@"@ + escaped(r[i].address) + ")"@,
        );
    if replicas.len() == 0 {
        assert(parts(replicas) =~= Seq::empty());
        assert(all_placed(replicas) =~= Seq::empty());
    } else {
        let rest = replicas.drop_last();
        lemma_placement(rest);
        let last = parts(replicas).last();
        assert(parts(replicas) =~= parts(rest).push(last));
        parts(rest).lemma_flatten_push(last);
        assert(all_placed(replicas) == all_placed(rest) + last);
        if replicas.len() == 1 {
            assert(placement(rest) =~= Seq::empty());
            assert(placement(replicas) =~= all_placed(rest) + last);
        } else {
            assert(placement(replicas) =~= all_placed(rest) + last);
        }
    }
}

/// The row of a service: its name, how many of its replicas are known and how many are wanted, its address and port,
/// where the replicas are, and whether what is shown of it is old.
pub proof fn law_service_row(s: ServiceSnapshotView)
    ensures
        ({
            let known = if s.detail is Some {
                s.detail->0
            } else {
                Seq::empty()
            };
            service_row(s) == "<tr>"@ + cell(escaped(s.summary.name)) + cell(
                of_both(decimal(known.len()), decimal(s.summary.desired_replicas as nat)),
            ) + cell(escaped(s.summary.vip) + ":"@ + decimal(s.summary.port as nat)) + cell(all_placed(known)) + cell(
                mark(s.data_stale),
            ) + "</tr>"@
        }),
{
    lemma_tags();
    let known = if s.detail is Some {
        s.detail->0
    } else {
        Seq::empty()
    };
    lemma_placement(known);
    let name = cell(escaped(s.summary.name));
    let count = cell(of_both(decimal(known.len()), decimal(s.summary.desired_replicas as nat)));
    let reached = cell(escaped(s.summary.vip) + ":"@ + decimal(s.summary.port as nat));
    let start = "<tr>"@ + name + count;
    assert(start + "<td>"@ =~= "<tr><td>"@ + escaped(s.summary.name) + "</td><td>"@ + decimal(known.len()) + "/"@
        + decimal(s.summary.desired_replicas as nat) + "</td><td>"@);
    assert(start + reached + "<td>"@ =~= start + "<td>"@ + escaped(s.summary.vip) + ":"@ + decimal(
        s.summary.port as nat,
    ) + "</td><td>"@);
    assert(start + reached + cell(all_placed(known)) =~= start + reached + "<td>"@ + all_placed(known) + "</td>"@);
}

/// The row of an ingress: its host, the service and port behind it, and the end of its certificate. One that ends in
/// less than thirty days is marked.
pub proof fn law_ingress_row(i: IngressHealthView, now_unix: i64)
    ensures
        ingress_row(i, now_unix) == "<tr>"@ + cell(escaped(i.host)) + cell(
            escaped(i.backend_service) + ":"@ + decimal(i.backend_port as nat),
        ) + expiry_cell(i.cert_expires_at_unix, now_unix) + "</tr>"@,
        i.cert_expires_at_unix is None ==> expiry_cell(i.cert_expires_at_unix, now_unix) == cell("none"@),
        i.cert_expires_at_unix matches Some(t) ==> if t >= now_unix + 30 * 86_400 {
            expiry_cell(i.cert_expires_at_unix, now_unix) == cell(signed_decimal(t as int))
        } else {
            expiry_cell(i.cert_expires_at_unix, now_unix)
                == "<td class=\"expiry-warning\" style=\"color:#a00;font-weight:bold\">"@ + signed_decimal(t as int)
                + " (renewing soon)"@ + "</td>"@
        },
{
    lemma_tags();
    reveal_strlit("<td>none</td>");
    reveal_strlit("<td>");
    reveal_strlit("none");
    reveal_strlit("</td>");
    reveal_strlit(" (renewing soon)</td>");
    reveal_strlit(" (renewing soon)");
    assert("<td>none</td>"@ =~= cell("none"@));
    assert(" (renewing soon)</td>"@ =~= " (renewing soon)"@ + "</td>"@);
    if let Some(t) = i.cert_expires_at_unix {
        let opening = "<td class=\"expiry-warning\" style=\"color:#a00;font-weight:bold\">"@;
        assert(opening + signed_decimal(t as int) + " (renewing soon)</td>"@ =~= opening + signed_decimal(t as int)
            + " (renewing soon)"@ + "</td>"@);
    }
    assert("<tr>"@ + cell(escaped(i.host)) + cell(escaped(i.backend_service) + ":"@ + decimal(i.backend_port as nat))
        =~= "<tr><td>"@ + escaped(i.host) + "</td><td>"@ + escaped(i.backend_service) + ":"@ + decimal(
        i.backend_port as nat,
    ) + "</td>"@);
}

/// The rows of the nodes, in their order.
pub open spec fn every_node(nodes: Seq<NodeSnapshotView>) -> Seq<char> {
    Seq::new(nodes.len(), |i: int| node_row(nodes[i])).flatten()
}

/// The rows of the services, in their order.
pub open spec fn every_service(services: Seq<ServiceSnapshotView>) -> Seq<char> {
    Seq::new(services.len(), |i: int| service_row(services[i])).flatten()
}

/// The rows of the jails of a node, in their order.
pub open spec fn jails_on(node_id: Seq<char>, jails: Seq<JailStatusView>) -> Seq<char> {
    Seq::new(jails.len(), |i: int| jail_row(node_id, jails[i])).flatten()
}

/// The rows of the jails, node by node.
pub open spec fn every_jail(nodes: Seq<NodeSnapshotView>) -> Seq<char> {
    Seq::new(nodes.len(), |i: int| jails_on(nodes[i].status.id, nodes[i].jails)).flatten()
}

/// The rows of the volumes of a node, in their order.
pub open spec fn volumes_on(node_id: Seq<char>, volumes: Seq<VolumeStatusView>) -> Seq<char> {
    Seq::new(volumes.len(), |i: int| volume_row(node_id, volumes[i].name)).flatten()
}

/// The rows of the volumes, node by node.
pub open spec fn every_volume(nodes: Seq<NodeSnapshotView>) -> Seq<char> {
    Seq::new(nodes.len(), |i: int| volumes_on(nodes[i].status.id, nodes[i].volumes)).flatten()
}

/// The rows of the ingresses of a node, in their order.
pub open spec fn ingresses_on(ingresses: Seq<IngressHealthView>, now_unix: i64) -> Seq<char> {
    Seq::new(ingresses.len(), |i: int| ingress_row(ingresses[i], now_unix)).flatten()
}

/// The rows of the ingresses, node by node.
pub open spec fn every_ingress(nodes: Seq<NodeSnapshotView>, now_unix: i64) -> Seq<char> {
    Seq::new(nodes.len(), |i: int| ingresses_on(nodes[i].status.ingresses, now_unix)).flatten()
}

proof fn lemma_pushed(all: Seq<Seq<char>>, rest: Seq<Seq<char>>)
    requires
        all.len() > 0,
        rest == all.drop_last(),
    ensures
        all.flatten() == rest.flatten() + all.last(),
{
    assert(all =~= rest.push(all.last()));
    rest.lemma_flatten_push(all.last());
}

proof fn lemma_node_rows(nodes: Seq<NodeSnapshotView>)
    ensures
        node_rows(nodes) == every_node(nodes),
    decreases nodes.len(),
{
    let rows = Seq::new(nodes.len(), |i: int| node_row(nodes[i]));
    if nodes.len() > 0 {
        let rest = nodes.drop_last();
        lemma_node_rows(rest);
        let fewer = Seq::new(rest.len(), |i: int| node_row(rest[i]));
        assert(fewer =~= rows.drop_last());
        lemma_pushed(rows, fewer);
    } else {
        assert(rows =~= Seq::empty());
    }
}

proof fn lemma_service_rows(services: Seq<ServiceSnapshotView>)
    ensures
        service_rows(services) == every_service(services),
    decreases services.len(),
{
    let rows = Seq::new(services.len(), |i: int| service_row(services[i]));
    if services.len() > 0 {
        let rest = services.drop_last();
        lemma_service_rows(rest);
        let fewer = Seq::new(rest.len(), |i: int| service_row(rest[i]));
        assert(fewer =~= rows.drop_last());
        lemma_pushed(rows, fewer);
    } else {
        assert(rows =~= Seq::empty());
    }
}

proof fn lemma_jail_rows_of(node_id: Seq<char>, jails: Seq<JailStatusView>)
    ensures
        jail_rows_of(node_id, jails) == jails_on(node_id, jails),
    decreases jails.len(),
{
    let rows = Seq::new(jails.len(), |i: int| jail_row(node_id, jails[i]));
    if jails.len() > 0 {
        let rest = jails.drop_last();
        lemma_jail_rows_of(node_id, rest);
        let fewer = Seq::new(rest.len(), |i: int| jail_row(node_id, rest[i]));
        assert(fewer =~= rows.drop_last());
        lemma_pushed(rows, fewer);
    } else {
        assert(rows =~= Seq::empty());
    }
}

proof fn lemma_jail_rows(nodes: Seq<NodeSnapshotView>)
    ensures
        jail_rows(nodes) == every_jail(nodes),
    decreases nodes.len(),
{
    let rows = Seq::new(nodes.len(), |i: int| jails_on(nodes[i].status.id, nodes[i].jails));
    if nodes.len() > 0 {
        let rest = nodes.drop_last();
        lemma_jail_rows(rest);
        lemma_jail_rows_of(nodes.last().status.id, nodes.last().jails);
        let fewer = Seq::new(rest.len(), |i: int| jails_on(rest[i].status.id, rest[i].jails));
        assert(fewer =~= rows.drop_last());
        lemma_pushed(rows, fewer);
    } else {
        assert(rows =~= Seq::empty());
    }
}

proof fn lemma_volume_rows_of(node_id: Seq<char>, volumes: Seq<VolumeStatusView>)
    ensures
        volume_rows_of(node_id, volumes) == volumes_on(node_id, volumes),
    decreases volumes.len(),
{
    let rows = Seq::new(volumes.len(), |i: int| volume_row(node_id, volumes[i].name));
    if volumes.len() > 0 {
        let rest = volumes.drop_last();
        lemma_volume_rows_of(node_id, rest);
        let fewer = Seq::new(rest.len(), |i: int| volume_row(node_id, rest[i].name));
        assert(fewer =~= rows.drop_last());
        lemma_pushed(rows, fewer);
    } else {
        assert(rows =~= Seq::empty());
    }
}

proof fn lemma_volume_rows(nodes: Seq<NodeSnapshotView>)
    ensures
        volume_rows(nodes) == every_volume(nodes),
    decreases nodes.len(),
{
    let rows = Seq::new(nodes.len(), |i: int| volumes_on(nodes[i].status.id, nodes[i].volumes));
    if nodes.len() > 0 {
        let rest = nodes.drop_last();
        lemma_volume_rows(rest);
        lemma_volume_rows_of(nodes.last().status.id, nodes.last().volumes);
        let fewer = Seq::new(rest.len(), |i: int| volumes_on(rest[i].status.id, rest[i].volumes));
        assert(fewer =~= rows.drop_last());
        lemma_pushed(rows, fewer);
    } else {
        assert(rows =~= Seq::empty());
    }
}

proof fn lemma_ingress_rows_of(ingresses: Seq<IngressHealthView>, now_unix: i64)
    ensures
        ingress_rows_of(ingresses, now_unix) == ingresses_on(ingresses, now_unix),
    decreases ingresses.len(),
{
    let rows = Seq::new(ingresses.len(), |i: int| ingress_row(ingresses[i], now_unix));
    if ingresses.len() > 0 {
        let rest = ingresses.drop_last();
        lemma_ingress_rows_of(rest, now_unix);
        let fewer = Seq::new(rest.len(), |i: int| ingress_row(rest[i], now_unix));
        assert(fewer =~= rows.drop_last());
        lemma_pushed(rows, fewer);
    } else {
        assert(rows =~= Seq::empty());
    }
}

proof fn lemma_ingress_rows(nodes: Seq<NodeSnapshotView>, now_unix: i64)
    ensures
        ingress_rows(nodes, now_unix) == every_ingress(nodes, now_unix),
    decreases nodes.len(),
{
    let rows = Seq::new(nodes.len(), |i: int| ingresses_on(nodes[i].status.ingresses, now_unix));
    if nodes.len() > 0 {
        let rest = nodes.drop_last();
        lemma_ingress_rows(rest, now_unix);
        lemma_ingress_rows_of(nodes.last().status.ingresses, now_unix);
        let fewer = Seq::new(rest.len(), |i: int| ingresses_on(rest[i].status.ingresses, now_unix));
        assert(fewer =~= rows.drop_last());
        lemma_pushed(rows, fewer);
    } else {
        assert(rows =~= Seq::empty());
    }
}

/// A page holds a banner if its data is old, and then five tables, in which every node, every jail, every service, every
/// volume and every ingress has its row. What stands around them is the same on every page.
pub proof fn law_pages(s: SnapshotView, t: SnapshotView, now_unix: i64)
    ensures
        exists|frame: Seq<Seq<char>>| #[trigger]
            is_page_of(s, now_unix, frame) && is_page_of(t, now_unix, frame),
        !s.stale ==> stale_banner(s, now_unix).len() == 0,
        s.stale && s.stale_as_of_unix is Some ==> stale_banner(s, now_unix)
            == "<div class=\"stale\">stale as of unix time "@ + signed_decimal(s.stale_as_of_unix->0 as int)
            + ": control plane unreachable, showing the last known state</div>"@,
{
    let frame = seq![
        "<!doctype html>\n<html><head><title>keel dashboard</title><style>body{font-family:sans-serif;margin:2em}table{border-collapse:collapse;margin-bottom:2em}td,th{border:1px solid #ccc;padding:4px 8px;text-align:left}.stale{background:#fee;padding:8px;margin-bottom:1em}</style></head><body>\n"@,
        "<h1>keel dashboard</h1>\n"@
            + "<h2>Nodes</h2><table><tr><th>ID</th><th>Address</th><th>Status</th><th>CPU (committed/capacity)</th><th>Memory (committed/capacity)</th><th>Last seen</th><th></th></tr>"@,
        "</table>"@ + "\n"@ + "<h2>Jails</h2><table><tr><th>Node</th><th>Name</th><th>State</th></tr>"@,
        "</table>"@ + "\n"@
            + "<h2>Services</h2><table><tr><th>Name</th><th>Replicas (actual/desired)</th><th>VIP:Port</th><th>Placement</th><th></th></tr>"@,
        "</table>"@ + "\n"@ + "<h2>Volumes</h2><table><tr><th>Node</th><th>Name</th></tr>"@,
        "</table>"@ + "\n"@ + "<h2>Ingress</h2><table><tr><th>Host</th><th>Backend</th><th>Cert expiry (unix)</th></tr>"@,
        "</table>"@
            + "\n<script>setInterval(function(){fetch('/api/snapshot').then(function(){location.reload();}).catch(function(){});}, 5000);</script>\n</body></html>\n"@,
    ];
    lemma_page(s, now_unix, frame);
    lemma_page(t, now_unix, frame);
}

/// A page shows a snapshot, with these parts around what it shows.
pub open spec fn is_page_of(s: SnapshotView, now_unix: i64, frame: Seq<Seq<char>>) -> bool {
    page_of(s, now_unix) == frame[0] + stale_banner(s, now_unix) + frame[1] + every_node(s.nodes) + frame[2]
        + every_jail(s.nodes) + frame[3] + every_service(s.services) + frame[4] + every_volume(s.nodes) + frame[5]
        + every_ingress(s.nodes, now_unix) + frame[6]
}

proof fn lemma_page(s: SnapshotView, now_unix: i64, frame: Seq<Seq<char>>)
    requires
        frame.len() == 7,
        frame[0]
            == "<!doctype html>\n<html><head><title>keel dashboard</title><style>body{font-family:sans-serif;margin:2em}table{border-collapse:collapse;margin-bottom:2em}td,th{border:1px solid #ccc;padding:4px 8px;text-align:left}.stale{background:#fee;padding:8px;margin-bottom:1em}</style></head><body>\n"@,
        frame[1] == "<h1>keel dashboard</h1>\n"@
            + "<h2>Nodes</h2><table><tr><th>ID</th><th>Address</th><th>Status</th><th>CPU (committed/capacity)</th><th>Memory (committed/capacity)</th><th>Last seen</th><th></th></tr>"@,
        frame[2] == "</table>"@ + "\n"@ + "<h2>Jails</h2><table><tr><th>Node</th><th>Name</th><th>State</th></tr>"@,
        frame[3] == "</table>"@ + "\n"@
            + "<h2>Services</h2><table><tr><th>Name</th><th>Replicas (actual/desired)</th><th>VIP:Port</th><th>Placement</th><th></th></tr>"@,
        frame[4] == "</table>"@ + "\n"@ + "<h2>Volumes</h2><table><tr><th>Node</th><th>Name</th></tr>"@,
        frame[5] == "</table>"@ + "\n"@
            + "<h2>Ingress</h2><table><tr><th>Host</th><th>Backend</th><th>Cert expiry (unix)</th></tr>"@,
        frame[6] == "</table>"@
            + "\n<script>setInterval(function(){fetch('/api/snapshot').then(function(){location.reload();}).catch(function(){});}, 5000);</script>\n</body></html>\n"@,
    ensures
        is_page_of(s, now_unix, frame),
{
    lemma_node_rows(s.nodes);
    lemma_jail_rows(s.nodes);
    lemma_service_rows(s.services);
    lemma_volume_rows(s.nodes);
    lemma_ingress_rows(s.nodes, now_unix);
    let end = "</table>"@;
    let line = "\n"@;
    let a = frame[0] + stale_banner(s, now_unix);
    let b = a + frame[1] + every_node(s.nodes);
    lemma_first_table(
        a,
        "<h1>keel dashboard</h1>\n"@,
        "<h2>Nodes</h2><table><tr><th>ID</th><th>Address</th><th>Status</th><th>CPU (committed/capacity)</th><th>Memory (committed/capacity)</th><th>Last seen</th><th></th></tr>"@,
        every_node(s.nodes),
        end,
    );
    lemma_next_table(
        b,
        end,
        line,
        "<h2>Jails</h2><table><tr><th>Node</th><th>Name</th><th>State</th></tr>"@,
        every_jail(s.nodes),
    );
    let c = b + frame[2] + every_jail(s.nodes);
    lemma_next_table(
        c,
        end,
        line,
        "<h2>Services</h2><table><tr><th>Name</th><th>Replicas (actual/desired)</th><th>VIP:Port</th><th>Placement</th><th></th></tr>"@,
        every_service(s.services),
    );
    let d = c + frame[3] + every_service(s.services);
    lemma_next_table(
        d,
        end,
        line,
        "<h2>Volumes</h2><table><tr><th>Node</th><th>Name</th></tr>"@,
        every_volume(s.nodes),
    );
    let e = d + frame[4] + every_volume(s.nodes);
    lemma_next_table(
        e,
        end,
        line,
        "<h2>Ingress</h2><table><tr><th>Host</th><th>Backend</th><th>Cert expiry (unix)</th></tr>"@,
        every_ingress(s.nodes, now_unix),
    );
    let f = e + frame[5] + every_ingress(s.nodes, now_unix);
    lemma_joined(
        f,
        end,
        "\n<script>setInterval(function(){fetch('/api/snapshot').then(function(){location.reload();}).catch(function(){});}, 5000);</script>\n</body></html>\n"@,
    );
}

proof fn lemma_joined(a: Seq<char>, b: Seq<char>, c: Seq<char>)
    ensures
        a + b + c == a + (b + c),
{
    assert(a + b + c =~= a + (b + c));
}

proof fn lemma_first_table(a: Seq<char>, title: Seq<char>, head: Seq<char>, rows: Seq<char>, end: Seq<char>)
    ensures
        a + title + (head + rows + end) == a + (title + head) + rows + end,
{
    assert(a + title + (head + rows + end) =~= a + (title + head) + rows + end);
}

proof fn lemma_next_table(a: Seq<char>, end: Seq<char>, line: Seq<char>, head: Seq<char>, rows: Seq<char>)
    ensures
        a + end + line + (head + rows + end) == a + (end + line + head) + rows + end,
{
    assert(a + end + line + (head + rows + end) =~= a + (end + line + head) + rows + end);
}

/// The four characters that mean something in a page are written by their names, and any other as it is.
pub proof fn law_escaped_characters(c: char)
    ensures
        escaped(seq!['&']) == "&amp;"@,
        escaped(seq!['<']) == "&lt;"@,
        escaped(seq!['>']) == "&gt;"@,
        escaped(seq!['"']) == "&quot;"@,
        c != '&' && c != '<' && c != '>' && c != '"' ==> escaped(seq![c]) == seq![c],
{
    lemma_escaped_alone('&');
    lemma_escaped_alone('<');
    lemma_escaped_alone('>');
    lemma_escaped_alone('"');
    lemma_escaped_alone(c);
}

proof fn lemma_escaped_alone(c: char)
    ensures
        escaped(seq![c]) == escaped_char(c),
{
    let s = seq![c];
    assert(escaped(s.drop_last()) =~= Seq::empty());
    assert(s.last() == c);
    assert(escaped(s) =~= escaped_char(c));
}

} // verus!
