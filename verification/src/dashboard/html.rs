//! The page of the dashboard.

use crate::dashboard::snapshot::{
    NodeSnapshot, NodeSnapshotView, ServiceSnapshot, ServiceSnapshotView, Snapshot, SnapshotView,
};
use crate::decimal::{decimal, push_decimal, push_signed, signed_decimal};
use crate::text::chars_of;
use crate::views::views;
use crate::wire::{
    IngressHealth, IngressHealthView, JailStatus, JailStatusView, NodeState, ServiceReplica, ServiceReplicaView,
};
use vstd::prelude::*;
use vstd::string::*;

verus! {

/// How long before its end a certificate is renewed, in seconds: thirty days. The agents renew by the same
/// number.
pub const RENEWAL_THRESHOLD_SECS: i64 = 2_592_000;

/// What a character is written as in a page.
pub open spec fn escaped_char(c: char) -> Seq<char> {
    if c == '&' {
        "&amp;"@
    } else if c == '<' {
        "&lt;"@
    } else if c == '>' {
        "&gt;"@
    } else if c == '"' {
        "&quot;"@
    } else {
        seq![c]
    }
}

/// What a text is written as in a page.
pub open spec fn escaped(s: Seq<char>) -> Seq<char>
    decreases s.len(),
{
    if s.len() == 0 {
        Seq::empty()
    } else {
        escaped(s.drop_last()) + escaped_char(s.last())
    }
}

/// Appends a text as it is written in a page.
fn push_escaped(out: &mut String, s: &str)
    ensures
        final(out)@ == old(out)@ + escaped(s@),
{
    let ghost base = out@;
    let v = chars_of(s);
    let mut i: usize = 0;
    assert(out@ =~= base + escaped(s@.take(0)));
    while i < v.len()
        invariant
            v@ == s@,
            i <= v@.len(),
            out@ == base + escaped(s@.take(i as int)),
        decreases v.len() - i,
    {
        let ghost before_char = out@;
        let c = v[i];
        assert(s@.take(i + 1).drop_last() =~= s@.take(i as int));
        assert(s@.take(i + 1).last() == c);
        if c == '&' {
            out.append("&amp;");
        } else if c == '<' {
            out.append("&lt;");
        } else if c == '>' {
            out.append("&gt;");
        } else if c == '"' {
            out.append("&quot;");
        } else {
            out.push(c);
            assert(out@ =~= before_char + escaped_char(c));
        }
        assert(out@ == before_char + escaped_char(c));
        i = i + 1;
        assert(out@ =~= base + escaped(s@.take(i as int)));
    }
    assert(s@.take(i as int) =~= s@);
}

/// A text as it is written in a page.
pub fn escape_html(s: &str) -> (r: String)
    ensures
        r@ == escaped(s@),
{
    let mut out = String::new();
    push_escaped(&mut out, s);
    assert(out@ =~= escaped(s@));
    out
}

/// What is written in a page never opens or closes a tag, and never ends an attribute.
pub proof fn law_escaped_text_is_inert(s: Seq<char>)
    ensures
        forall|i: int|
            0 <= i < escaped(s).len() ==> (#[trigger] escaped(s)[i]) != '<' && escaped(s)[i] != '>' && escaped(s)[i] != '"',
    decreases s.len(),
{
    if s.len() > 0 {
        law_escaped_text_is_inert(s.drop_last());
        reveal_strlit("&amp;");
        reveal_strlit("&lt;");
        reveal_strlit("&gt;");
        reveal_strlit("&quot;");
        let a = escaped(s.drop_last());
        let b = escaped_char(s.last());
        assert forall|i: int| 0 <= i < escaped(s).len() implies (#[trigger] escaped(s)[i]) != '<' && escaped(s)[i] != '>'
            && escaped(s)[i] != '"' by {
            if i < a.len() {
                assert(escaped(s)[i] == a[i]);
            } else {
                assert(escaped(s)[i] == b[i - a.len()]);
            }
        }
    }
}

/// A text is written as its parts are, one behind the other.
pub proof fn law_escaping_joins(a: Seq<char>, b: Seq<char>)
    ensures
        escaped(a + b) == escaped(a) + escaped(b),
    decreases b.len(),
{
    if b.len() == 0 {
        assert(a + b =~= a);
        assert(escaped(a) + escaped(b) =~= escaped(a));
    } else {
        law_escaping_joins(a, b.drop_last());
        assert((a + b).drop_last() =~= a + b.drop_last());
        assert((a + b).last() == b.last());
        assert(escaped(a + b) =~= escaped(a) + escaped(b));
    }
}

proof fn lemma_escaped_first(s: Seq<char>)
    requires
        s.len() > 0,
    ensures
        escaped(s) == escaped_char(s[0]) + escaped(s.skip(1)),
        escaped_char(s[0]).len() > 0,
        escaped(s)[0] == escaped_char(s[0])[0],
{
    let first = seq![s[0]];
    assert(s =~= first + s.skip(1));
    law_escaping_joins(first, s.skip(1));
    assert(escaped(first.drop_last()) =~= Seq::empty());
    assert(first.last() == s[0]);
    assert(escaped(first) =~= escaped_char(s[0]));
    reveal_strlit("&amp;");
    reveal_strlit("&lt;");
    reveal_strlit("&gt;");
    reveal_strlit("&quot;");
}

/// What is written in a page can be read back: no two texts are written alike.
pub proof fn law_escaping_can_be_undone(a: Seq<char>, b: Seq<char>)
    requires
        escaped(a) == escaped(b),
    ensures
        a == b,
    decreases a.len(),
{
    if a.len() > 0 {
        lemma_escaped_first(a);
    }
    if b.len() > 0 {
        lemma_escaped_first(b);
    }
    if a.len() == 0 || b.len() == 0 {
        assert(a =~= b);
    } else {
        reveal_strlit("&amp;");
        reveal_strlit("&lt;");
        reveal_strlit("&gt;");
        reveal_strlit("&quot;");
        let x = escaped_char(a[0]);
        let y = escaped_char(b[0]);
        assert(x[0] == y[0]);
        if x[0] == '&' {
            assert(escaped(a)[1] == x[1]);
            assert(escaped(b)[1] == y[1]);
        }
        assert(a[0] == b[0]);
        assert(escaped(a.skip(1)) =~= escaped(b.skip(1))) by {
            assert(escaped(a.skip(1)) =~= escaped(a).skip(x.len() as int));
            assert(escaped(b.skip(1)) =~= escaped(b).skip(x.len() as int));
        }
        law_escaping_can_be_undone(a.skip(1), b.skip(1));
        assert(a =~= seq![a[0]] + a.skip(1));
        assert(b =~= seq![b[0]] + b.skip(1));
    }
}

/// A text without these characters is written as it is.
pub proof fn law_plain_text_is_kept(s: Seq<char>)
    requires
        forall|i: int|
            0 <= i < s.len() ==> (#[trigger] s[i]) != '&' && s[i] != '<' && s[i] != '>' && s[i] != '"',
    ensures
        escaped(s) == s,
    decreases s.len(),
{
    if s.len() > 0 {
        law_plain_text_is_kept(s.drop_last());
        assert(s.last() == s[s.len() - 1]);
        assert(s =~= s.drop_last() + seq![s.last()]);
    } else {
        assert(escaped(s) =~= s);
    }
}

/// The banner over a page whose data is old.
pub open spec fn stale_banner(s: SnapshotView, now_unix: i64) -> Seq<char> {
    if !s.stale {
        Seq::empty()
    } else {
        "<div class=\"stale\">stale as of unix time "@ + signed_decimal(
            match s.stale_as_of_unix {
                Some(t) => t as int,
                None => now_unix as int,
            },
        ) + ": control plane unreachable, showing the last known state</div>"@
    }
}

/// The cell that marks old data.
pub open spec fn stale_cell(stale: bool) -> Seq<char> {
    if stale {
        "<td>stale</td>"@
    } else {
        "<td></td>"@
    }
}

pub open spec fn state_name(state: NodeState) -> Seq<char> {
    match state {
        NodeState::Alive => "Alive"@,
        NodeState::Dead => "Dead"@,
    }
}

/// The row of a node.
pub open spec fn node_row(n: NodeSnapshotView) -> Seq<char> {
    let s = n.status;
    "<tr><td>"@ + escaped(s.id) + "</td><td>"@ + escaped(s.addr) + "</td><td>"@ + state_name(s.status)
        + "</td><td>"@ + s.committed_cpu.shown + "/"@ + s.capacity_cpu.shown + "</td><td>"@ + decimal(
        s.committed_memory as nat,
    ) + "/"@ + decimal(s.capacity_memory as nat) + "</td><td>"@ + decimal(s.last_seen_secs as nat) + "s</td>"@
        + stale_cell(n.data_stale) + "</tr>"@
}

pub open spec fn node_rows(nodes: Seq<NodeSnapshotView>) -> Seq<char>
    decreases nodes.len(),
{
    if nodes.len() == 0 {
        Seq::empty()
    } else {
        node_rows(nodes.drop_last()) + node_row(nodes.last())
    }
}

/// The table of the nodes.
pub open spec fn nodes_table(nodes: Seq<NodeSnapshotView>) -> Seq<char> {
    "<h2>Nodes</h2><table><tr><th>ID</th><th>Address</th><th>Status</th><th>CPU (committed/capacity)</th><th>Memory (committed/capacity)</th><th>Last seen</th><th></th></tr>"@
        + node_rows(nodes) + "</table>"@
}

/// What a jail is doing: a jail that does not run and has a delay was started in vain.
pub open spec fn jail_state(j: JailStatusView) -> Seq<char> {
    if j.running {
        "running"@
    } else if j.backoff.current_delay_secs is Some {
        "crash-looping"@
    } else {
        "not running"@
    }
}

pub open spec fn jail_row(node_id: Seq<char>, j: JailStatusView) -> Seq<char> {
    "<tr><td>"@ + escaped(node_id) + "</td><td>"@ + escaped(j.record.spec.metadata.name) + "</td><td>"@
        + jail_state(j) + "</td></tr>"@
}

pub open spec fn jail_rows_of(node_id: Seq<char>, jails: Seq<JailStatusView>) -> Seq<char>
    decreases jails.len(),
{
    if jails.len() == 0 {
        Seq::empty()
    } else {
        jail_rows_of(node_id, jails.drop_last()) + jail_row(node_id, jails.last())
    }
}

pub open spec fn jail_rows(nodes: Seq<NodeSnapshotView>) -> Seq<char>
    decreases nodes.len(),
{
    if nodes.len() == 0 {
        Seq::empty()
    } else {
        jail_rows(nodes.drop_last()) + jail_rows_of(nodes.last().status.id, nodes.last().jails)
    }
}

/// The table of the jails.
pub open spec fn jails_table(nodes: Seq<NodeSnapshotView>) -> Seq<char> {
    "<h2>Jails</h2><table><tr><th>Node</th><th>Name</th><th>State</th></tr>"@ + jail_rows(nodes) + "</table>"@
}

pub open spec fn volume_row(node_id: Seq<char>, name: Seq<char>) -> Seq<char> {
    "<tr><td>"@ + escaped(node_id) + "</td><td>"@ + escaped(name) + "</td></tr>"@
}

pub open spec fn volume_rows_of(node_id: Seq<char>, volumes: Seq<crate::wire::VolumeStatusView>) -> Seq<char>
    decreases volumes.len(),
{
    if volumes.len() == 0 {
        Seq::empty()
    } else {
        volume_rows_of(node_id, volumes.drop_last()) + volume_row(node_id, volumes.last().name)
    }
}

pub open spec fn volume_rows(nodes: Seq<NodeSnapshotView>) -> Seq<char>
    decreases nodes.len(),
{
    if nodes.len() == 0 {
        Seq::empty()
    } else {
        volume_rows(nodes.drop_last()) + volume_rows_of(nodes.last().status.id, nodes.last().volumes)
    }
}

/// The table of the volumes.
pub open spec fn volumes_table(nodes: Seq<NodeSnapshotView>) -> Seq<char> {
    "<h2>Volumes</h2><table><tr><th>Node</th><th>Name</th></tr>"@ + volume_rows(nodes) + "</table>"@
}

/// Where a replica is.
pub open spec fn replica_text(r: ServiceReplicaView) -> Seq<char> {
    escaped(r.name) + " ("@ + escaped(r.node) + "@"@ + escaped(r.address) + ")"@
}

/// Where the replicas are, with commas between them.
pub open spec fn placement(replicas: Seq<ServiceReplicaView>) -> Seq<char>
    decreases replicas.len(),
{
    if replicas.len() == 0 {
        Seq::empty()
    } else if replicas.len() == 1 {
        replica_text(replicas[0])
    } else {
        placement(replicas.drop_last()) + ", "@ + replica_text(replicas.last())
    }
}

/// The replicas that are known.
pub open spec fn known_replicas(s: ServiceSnapshotView) -> Seq<ServiceReplicaView> {
    match s.detail {
        Some(d) => d,
        None => Seq::empty(),
    }
}

pub open spec fn service_row(s: ServiceSnapshotView) -> Seq<char> {
    "<tr><td>"@ + escaped(s.summary.name) + "</td><td>"@ + decimal(known_replicas(s).len()) + "/"@ + decimal(
        s.summary.desired_replicas as nat,
    ) + "</td><td>"@ + escaped(s.summary.vip) + ":"@ + decimal(s.summary.port as nat) + "</td><td>"@ + placement(
        known_replicas(s),
    ) + "</td>"@ + stale_cell(s.data_stale) + "</tr>"@
}

pub open spec fn service_rows(services: Seq<ServiceSnapshotView>) -> Seq<char>
    decreases services.len(),
{
    if services.len() == 0 {
        Seq::empty()
    } else {
        service_rows(services.drop_last()) + service_row(services.last())
    }
}

/// The table of the services.
pub open spec fn services_table(services: Seq<ServiceSnapshotView>) -> Seq<char> {
    "<h2>Services</h2><table><tr><th>Name</th><th>Replicas (actual/desired)</th><th>VIP:Port</th><th>Placement</th><th></th></tr>"@
        + service_rows(services) + "</table>"@
}

/// A certificate that ends so soon is about to be renewed.
pub open spec fn renews_soon(expires_at: i64, now_unix: i64) -> bool {
    expires_at - now_unix < RENEWAL_THRESHOLD_SECS
}

/// The cell with the end of a certificate.
pub open spec fn expiry_cell(expires_at: Option<i64>, now_unix: i64) -> Seq<char> {
    match expires_at {
        Some(t) => if renews_soon(t, now_unix) {
            "<td class=\"expiry-warning\" style=\"color:#a00;font-weight:bold\">"@ + signed_decimal(t as int)
                + " (renewing soon)</td>"@
        } else {
            "<td>"@ + signed_decimal(t as int) + "</td>"@
        },
        None => "<td>none</td>"@,
    }
}

pub open spec fn ingress_row(i: IngressHealthView, now_unix: i64) -> Seq<char> {
    "<tr><td>"@ + escaped(i.host) + "</td><td>"@ + escaped(i.backend_service) + ":"@ + decimal(
        i.backend_port as nat,
    ) + "</td>"@ + expiry_cell(i.cert_expires_at_unix, now_unix) + "</tr>"@
}

pub open spec fn ingress_rows_of(ingresses: Seq<IngressHealthView>, now_unix: i64) -> Seq<char>
    decreases ingresses.len(),
{
    if ingresses.len() == 0 {
        Seq::empty()
    } else {
        ingress_rows_of(ingresses.drop_last(), now_unix) + ingress_row(ingresses.last(), now_unix)
    }
}

pub open spec fn ingress_rows(nodes: Seq<NodeSnapshotView>, now_unix: i64) -> Seq<char>
    decreases nodes.len(),
{
    if nodes.len() == 0 {
        Seq::empty()
    } else {
        ingress_rows(nodes.drop_last(), now_unix) + ingress_rows_of(nodes.last().status.ingresses, now_unix)
    }
}

/// The table of the ingresses.
pub open spec fn ingress_table(nodes: Seq<NodeSnapshotView>, now_unix: i64) -> Seq<char> {
    "<h2>Ingress</h2><table><tr><th>Host</th><th>Backend</th><th>Cert expiry (unix)</th></tr>"@ + ingress_rows(
        nodes,
        now_unix,
    ) + "</table>"@
}

/// The page for a snapshot.
pub open spec fn page_of(s: SnapshotView, now_unix: i64) -> Seq<char> {
    "<!doctype html>\n<html><head><title>keel dashboard</title><style>body{font-family:sans-serif;margin:2em}table{border-collapse:collapse;margin-bottom:2em}td,th{border:1px solid #ccc;padding:4px 8px;text-align:left}.stale{background:#fee;padding:8px;margin-bottom:1em}</style></head><body>\n"@
        + stale_banner(s, now_unix) + "<h1>keel dashboard</h1>\n"@ + nodes_table(s.nodes) + "\n"@ + jails_table(s.nodes)
        + "\n"@ + services_table(s.services) + "\n"@ + volumes_table(s.nodes) + "\n"@ + ingress_table(s.nodes, now_unix)
        + "\n<script>setInterval(function(){fetch('/api/snapshot').then(function(){location.reload();}).catch(function(){});}, 5000);</script>\n</body></html>\n"@
}

fn render_stale_banner(snapshot: &Snapshot, now_unix: i64) -> (r: String)
    ensures
        r@ == stale_banner(snapshot@, now_unix),
{
    if !snapshot.stale {
        let none = String::new();
        assert(none@ =~= Seq::empty());
        return none;
    }
    let as_of: i64 = match snapshot.stale_as_of_unix {
        Some(t) => t,
        None => now_unix,
    };
    let mut out = "<div class=\"stale\">stale as of unix time ".to_owned();
    push_signed(&mut out, as_of);
    out.append(": control plane unreachable, showing the last known state</div>");
    out
}

fn push_stale_cell(out: &mut String, stale: bool)
    ensures
        final(out)@ == old(out)@ + stale_cell(stale),
{
    if stale {
        out.append("<td>stale</td>");
    } else {
        out.append("<td></td>");
    }
}

fn render_node(node: &NodeSnapshot) -> (r: String)
    ensures
        r@ == node_row(node@),
{
    let s = &node.status;
    let mut out = "<tr><td>".to_owned();
    push_escaped(&mut out, s.id.as_str());
    out.append("</td><td>");
    push_escaped(&mut out, s.addr.as_str());
    out.append("</td><td>");
    match s.status {
        NodeState::Alive => {
            out.append("Alive");
        },
        NodeState::Dead => {
            out.append("Dead");
        },
    }
    out.append("</td><td>");
    out.append(s.committed_cpu.shown.as_str());
    out.append("/");
    out.append(s.capacity_cpu.shown.as_str());
    out.append("</td><td>");
    push_decimal(&mut out, s.committed_memory);
    out.append("/");
    push_decimal(&mut out, s.capacity_memory);
    out.append("</td><td>");
    push_decimal(&mut out, s.last_seen_secs);
    out.append("s</td>");
    push_stale_cell(&mut out, node.data_stale);
    out.append("</tr>");
    out
}

fn render_nodes(nodes: &Vec<NodeSnapshot>) -> (r: String)
    ensures
        r@ == nodes_table(views(nodes@)),
{
    let ghost all = views(nodes@);
    let mut out = "<h2>Nodes</h2><table><tr><th>ID</th><th>Address</th><th>Status</th><th>CPU (committed/capacity)</th><th>Memory (committed/capacity)</th><th>Last seen</th><th></th></tr>".to_owned();
    let ghost head = out@;
    let mut i: usize = 0;
    assert(out@ =~= head + node_rows(all.take(0)));
    while i < nodes.len()
        invariant
            all == views(nodes@),
            i <= nodes@.len(),
            out@ == head + node_rows(all.take(i as int)),
        decreases nodes.len() - i,
    {
        assert(all.take(i + 1).drop_last() =~= all.take(i as int));
        out.append(render_node(&nodes[i]).as_str());
        i = i + 1;
        assert(out@ =~= head + node_rows(all.take(i as int)));
    }
    assert(all.take(i as int) =~= all);
    out.append("</table>");
    out
}

fn push_jail(out: &mut String, node_id: &str, jail: &JailStatus)
    ensures
        final(out)@ == old(out)@ + jail_row(node_id@, jail@),
{
    let ghost base = out@;
    let mut row = "<tr><td>".to_owned();
    push_escaped(&mut row, node_id);
    row.append("</td><td>");
    push_escaped(&mut row, jail.record.spec.metadata.name.as_str());
    row.append("</td><td>");
    if jail.running {
        row.append("running");
    } else if jail.backoff.current_delay_secs.is_some() {
        row.append("crash-looping");
    } else {
        row.append("not running");
    }
    row.append("</td></tr>");
    out.append(row.as_str());
}

fn push_node_jails(out: &mut String, node: &NodeSnapshot)
    ensures
        final(out)@ == old(out)@ + jail_rows_of(node@.status.id, node@.jails),
{
    let ghost base = out@;
    let ghost all = node@.jails;
    let mut i: usize = 0;
    assert(out@ =~= base + jail_rows_of(node@.status.id, all.take(0)));
    while i < node.jails.len()
        invariant
            all == node@.jails,
            i <= node.jails@.len(),
            out@ == base + jail_rows_of(node@.status.id, all.take(i as int)),
        decreases node.jails.len() - i,
    {
        assert(all.take(i + 1).drop_last() =~= all.take(i as int));
        assert(all.take(i + 1).last() == node.jails@[i as int]@);
        push_jail(out, node.status.id.as_str(), &node.jails[i]);
        i = i + 1;
        assert(out@ =~= base + jail_rows_of(node@.status.id, all.take(i as int)));
    }
    assert(all.take(i as int) =~= all);
}

fn render_jails(nodes: &Vec<NodeSnapshot>) -> (r: String)
    ensures
        r@ == jails_table(views(nodes@)),
{
    let ghost all = views(nodes@);
    let mut out = "<h2>Jails</h2><table><tr><th>Node</th><th>Name</th><th>State</th></tr>".to_owned();
    let ghost head = out@;
    let mut i: usize = 0;
    assert(out@ =~= head + jail_rows(all.take(0)));
    while i < nodes.len()
        invariant
            all == views(nodes@),
            i <= nodes@.len(),
            out@ == head + jail_rows(all.take(i as int)),
        decreases nodes.len() - i,
    {
        assert(all.take(i + 1).drop_last() =~= all.take(i as int));
        assert(all.take(i + 1).last() == nodes@[i as int]@);
        push_node_jails(&mut out, &nodes[i]);
        i = i + 1;
        assert(out@ =~= head + jail_rows(all.take(i as int)));
    }
    assert(all.take(i as int) =~= all);
    out.append("</table>");
    out
}

fn push_node_volumes(out: &mut String, node: &NodeSnapshot)
    ensures
        final(out)@ == old(out)@ + volume_rows_of(node@.status.id, node@.volumes),
{
    let ghost base = out@;
    let ghost all = node@.volumes;
    let mut i: usize = 0;
    assert(out@ =~= base + volume_rows_of(node@.status.id, all.take(0)));
    while i < node.volumes.len()
        invariant
            all == node@.volumes,
            i <= node.volumes@.len(),
            out@ == base + volume_rows_of(node@.status.id, all.take(i as int)),
        decreases node.volumes.len() - i,
    {
        assert(all.take(i + 1).drop_last() =~= all.take(i as int));
        assert(all.take(i + 1).last() == node.volumes@[i as int]@);
        let mut row = "<tr><td>".to_owned();
        push_escaped(&mut row, node.status.id.as_str());
        row.append("</td><td>");
        push_escaped(&mut row, node.volumes[i].name.as_str());
        row.append("</td></tr>");
        out.append(row.as_str());
        i = i + 1;
        assert(out@ =~= base + volume_rows_of(node@.status.id, all.take(i as int)));
    }
    assert(all.take(i as int) =~= all);
}

fn render_volumes(nodes: &Vec<NodeSnapshot>) -> (r: String)
    ensures
        r@ == volumes_table(views(nodes@)),
{
    let ghost all = views(nodes@);
    let mut out = "<h2>Volumes</h2><table><tr><th>Node</th><th>Name</th></tr>".to_owned();
    let ghost head = out@;
    let mut i: usize = 0;
    assert(out@ =~= head + volume_rows(all.take(0)));
    while i < nodes.len()
        invariant
            all == views(nodes@),
            i <= nodes@.len(),
            out@ == head + volume_rows(all.take(i as int)),
        decreases nodes.len() - i,
    {
        assert(all.take(i + 1).drop_last() =~= all.take(i as int));
        assert(all.take(i + 1).last() == nodes@[i as int]@);
        push_node_volumes(&mut out, &nodes[i]);
        i = i + 1;
        assert(out@ =~= head + volume_rows(all.take(i as int)));
    }
    assert(all.take(i as int) =~= all);
    out.append("</table>");
    out
}

fn render_replica(replica: &ServiceReplica) -> (r: String)
    ensures
        r@ == replica_text(replica@),
{
    let mut out = escape_html(replica.name.as_str());
    out.append(" (");
    push_escaped(&mut out, replica.node.as_str());
    out.append("@");
    push_escaped(&mut out, replica.address.as_str());
    out.append(")");
    out
}

fn render_placement(replicas: &Vec<ServiceReplica>) -> (r: String)
    ensures
        r@ == placement(views(replicas@)),
{
    let ghost all = views(replicas@);
    let mut out = String::new();
    let mut i: usize = 0;
    assert(out@ =~= placement(all.take(0)));
    while i < replicas.len()
        invariant
            all == views(replicas@),
            i <= replicas@.len(),
            out@ == placement(all.take(i as int)),
        decreases replicas.len() - i,
    {
        let ghost before_replica = out@;
        assert(all.take(i + 1).drop_last() =~= all.take(i as int));
        assert(all.take(i + 1).last() == replicas@[i as int]@);
        if i > 0 {
            out.append(", ");
        }
        out.append(render_replica(&replicas[i]).as_str());
        if i == 0 {
            assert(all.take(1)[0] == replicas@[0]@);
            assert(out@ =~= replica_text(replicas@[0]@));
        }
        i = i + 1;
    }
    assert(all.take(i as int) =~= all);
    out
}

fn render_service(service: &ServiceSnapshot) -> (r: String)
    ensures
        r@ == service_row(service@),
{
    let s = &service.summary;
    let (actual, placed): (usize, String) = match &service.detail {
        Some(replicas) => (replicas.len(), render_placement(replicas)),
        None => {
            let none = String::new();
            assert(none@ =~= placement(Seq::empty()));
            (0, none)
        },
    };
    let mut out = "<tr><td>".to_owned();
    push_escaped(&mut out, s.name.as_str());
    out.append("</td><td>");
    push_decimal(&mut out, actual as u64);
    out.append("/");
    push_decimal(&mut out, s.desired_replicas as u64);
    out.append("</td><td>");
    push_escaped(&mut out, s.vip.as_str());
    out.append(":");
    push_decimal(&mut out, s.port as u64);
    out.append("</td><td>");
    out.append(placed.as_str());
    out.append("</td>");
    push_stale_cell(&mut out, service.data_stale);
    out.append("</tr>");
    out
}

fn render_services(services: &Vec<ServiceSnapshot>) -> (r: String)
    ensures
        r@ == services_table(views(services@)),
{
    let ghost all = views(services@);
    let mut out = "<h2>Services</h2><table><tr><th>Name</th><th>Replicas (actual/desired)</th><th>VIP:Port</th><th>Placement</th><th></th></tr>".to_owned();
    let ghost head = out@;
    let mut i: usize = 0;
    assert(out@ =~= head + service_rows(all.take(0)));
    while i < services.len()
        invariant
            all == views(services@),
            i <= services@.len(),
            out@ == head + service_rows(all.take(i as int)),
        decreases services.len() - i,
    {
        assert(all.take(i + 1).drop_last() =~= all.take(i as int));
        out.append(render_service(&services[i]).as_str());
        i = i + 1;
        assert(out@ =~= head + service_rows(all.take(i as int)));
    }
    assert(all.take(i as int) =~= all);
    out.append("</table>");
    out
}

fn render_expiry(expires_at: Option<i64>, now_unix: i64) -> (r: String)
    ensures
        r@ == expiry_cell(expires_at, now_unix),
{
    match expires_at {
        Some(t) => {
            let left: i128 = t as i128 - now_unix as i128;
            if left < RENEWAL_THRESHOLD_SECS as i128 {
                let mut out = "<td class=\"expiry-warning\" style=\"color:#a00;font-weight:bold\">".to_owned();
                push_signed(&mut out, t);
                out.append(" (renewing soon)</td>");
                out
            } else {
                let mut out = "<td>".to_owned();
                push_signed(&mut out, t);
                out.append("</td>");
                out
            }
        },
        None => "<td>none</td>".to_owned(),
    }
}

fn render_ingress_row(ingress: &IngressHealth, now_unix: i64) -> (r: String)
    ensures
        r@ == ingress_row(ingress@, now_unix),
{
    let mut out = "<tr><td>".to_owned();
    push_escaped(&mut out, ingress.host.as_str());
    out.append("</td><td>");
    push_escaped(&mut out, ingress.backend_service.as_str());
    out.append(":");
    push_decimal(&mut out, ingress.backend_port as u64);
    out.append("</td>");
    out.append(render_expiry(ingress.cert_expires_at_unix, now_unix).as_str());
    out.append("</tr>");
    out
}

fn push_node_ingresses(out: &mut String, node: &NodeSnapshot, now_unix: i64)
    ensures
        final(out)@ == old(out)@ + ingress_rows_of(node@.status.ingresses, now_unix),
{
    let ghost base = out@;
    let ghost all = node@.status.ingresses;
    let mut i: usize = 0;
    assert(out@ =~= base + ingress_rows_of(all.take(0), now_unix));
    while i < node.status.ingresses.len()
        invariant
            all == node@.status.ingresses,
            i <= node.status.ingresses@.len(),
            out@ == base + ingress_rows_of(all.take(i as int), now_unix),
        decreases node.status.ingresses.len() - i,
    {
        assert(all.take(i + 1).drop_last() =~= all.take(i as int));
        assert(all.take(i + 1).last() == node.status.ingresses@[i as int]@);
        out.append(render_ingress_row(&node.status.ingresses[i], now_unix).as_str());
        i = i + 1;
        assert(out@ =~= base + ingress_rows_of(all.take(i as int), now_unix));
    }
    assert(all.take(i as int) =~= all);
}

fn render_ingress(nodes: &Vec<NodeSnapshot>, now_unix: i64) -> (r: String)
    ensures
        r@ == ingress_table(views(nodes@), now_unix),
{
    let ghost all = views(nodes@);
    let mut out = "<h2>Ingress</h2><table><tr><th>Host</th><th>Backend</th><th>Cert expiry (unix)</th></tr>".to_owned();
    let ghost head = out@;
    let mut i: usize = 0;
    assert(out@ =~= head + ingress_rows(all.take(0), now_unix));
    while i < nodes.len()
        invariant
            all == views(nodes@),
            i <= nodes@.len(),
            out@ == head + ingress_rows(all.take(i as int), now_unix),
        decreases nodes.len() - i,
    {
        assert(all.take(i + 1).drop_last() =~= all.take(i as int));
        assert(all.take(i + 1).last() == nodes@[i as int]@);
        push_node_ingresses(&mut out, &nodes[i], now_unix);
        i = i + 1;
        assert(out@ =~= head + ingress_rows(all.take(i as int), now_unix));
    }
    assert(all.take(i as int) =~= all);
    out.append("</table>");
    out
}

/// The page for a snapshot.
pub fn render(snapshot: &Snapshot, now_unix: i64) -> (r: String)
    ensures
        r@ == page_of(snapshot@, now_unix),
{
    let mut out = "<!doctype html>\n<html><head><title>keel dashboard</title><style>body{font-family:sans-serif;margin:2em}table{border-collapse:collapse;margin-bottom:2em}td,th{border:1px solid #ccc;padding:4px 8px;text-align:left}.stale{background:#fee;padding:8px;margin-bottom:1em}</style></head><body>\n".to_owned();
    out.append(render_stale_banner(snapshot, now_unix).as_str());
    out.append("<h1>keel dashboard</h1>\n");
    out.append(render_nodes(&snapshot.nodes).as_str());
    out.append("\n");
    out.append(render_jails(&snapshot.nodes).as_str());
    out.append("\n");
    out.append(render_services(&snapshot.services).as_str());
    out.append("\n");
    out.append(render_volumes(&snapshot.nodes).as_str());
    out.append("\n");
    out.append(render_ingress(&snapshot.nodes, now_unix).as_str());
    out.append(
        "\n<script>setInterval(function(){fetch('/api/snapshot').then(function(){location.reload();}).catch(function(){});}, 5000);</script>\n</body></html>\n",
    );
    out
}

} // verus!
