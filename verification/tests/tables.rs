use keel::controlplane::addresses::{block_text, first_free_address, Ipv4Cidr, UsedAddresses};
use keel::controlplane::cordoned::Cordoned;
use keel::controlplane::pending_fences::PendingFences;
use keel::controlplane::placements::Placements;
use keel::controlplane::services::{diff_replicas, replica_index, replica_name, ServiceRecord, Services};
use keel::controlplane::standbys::Standbys;
use keel::dashboard::basic_auth::check_decoded;
use keel::dashboard::control_plane_client::{ControlPlaneClient, FakeControlPlaneClient};
use keel::dashboard::html::escape_html;
use keel::dashboard::snapshot::{poll_once, stale_snapshot, Snapshot};
use keel::jail::{JailTemplate, ResourcesSpec, RestartPolicy, TemplateNetworkSpec};
use keel::resources::{parse_memory_bytes, parse_zfs_quota, SpecError};
use keel::strmap::StrMap;
use keel::text::{before, contains, same, sort, split_once, strip_prefix};
use keel::wire::{ServiceReplica, ServiceSummary};

fn texts(items: &[&str]) -> Vec<String> {
    items.iter().map(|s| s.to_string()).collect()
}

#[test]
fn tables_that_were_written_down_are_read_back() {
    let mut placements = Placements::new();
    placements.set("web-1".to_string(), "a".to_string());
    placements.set("web-0".to_string(), "b".to_string());
    placements.set("web-0".to_string(), "c".to_string());
    placements.remove("web-1");
    let (mut jails, mut generations) = (placements.jails(), placements.generations());
    jails.reverse();
    generations.reverse();
    let back = Placements::load(jails, generations);
    assert_eq!(back.get("web-0"), Some("c"));
    assert_eq!(back.get("web-1"), None);
    assert_eq!((back.generation("web-0"), back.generation("web-1")), (2, 1));

    let mut standbys = Standbys::new();
    standbys.set("db-0".to_string(), "a".to_string());
    assert_eq!(Standbys::load(standbys.pairs()).get("db-0"), Some("a"));
    standbys.remove("db-0");
    assert_eq!(standbys.get("db-0"), None);

    let mut used = UsedAddresses::new();
    used.record("web-0".to_string(), "a".to_string(), 7);
    assert_eq!(UsedAddresses::load(used.leases()).address_of("web-0"), Some(7));
    used.release("web-0");
    assert_eq!(used.address_of("web-0"), None);
}

#[test]
fn a_generation_that_cannot_be_counted_on_is_told() {
    let full = Placements::load(vec![], vec![("web-0".to_string(), u64::MAX)]);
    assert!(!full.can_count());
    let nearly = Placements::load(vec![], vec![("web-0".to_string(), u64::MAX - 1)]);
    assert!(nearly.can_count());
    assert!(Placements::new().can_count());
}

#[test]
fn fences_and_cordons_are_listed_in_order() {
    let mut fences = PendingFences::new();
    for (replica, node) in [("c", "n"), ("a", "n"), ("b", "m")] {
        fences.set(replica.to_string(), node.to_string());
    }
    assert_eq!(fences.for_node("n"), texts(&["a", "c"]));
    assert_eq!(fences.for_node("x"), Vec::<String>::new());
    fences.remove("a");
    assert_eq!(PendingFences::load(fences.pairs()).for_node("n"), texts(&["c"]));

    let mut cordoned = Cordoned::new();
    for id in ["n2", "n10", "n1", "n2"] {
        cordoned.cordon(id.to_string());
    }
    assert_eq!(cordoned.ids(), texts(&["n1", "n10", "n2"]));
    let mut ids = cordoned.ids();
    ids.reverse();
    assert_eq!(Cordoned::load(ids).ids(), cordoned.ids());
}

#[test]
fn addresses_are_given_from_the_third_of_a_block_on() {
    let block = Ipv4Cidr { addr: 0x0a00_0409, prefix_len: 29 };
    let mut used = UsedAddresses::new();
    let mut given = Vec::new();
    while let Some(address) = first_free_address(block, "n", &used) {
        used.record(format!("r-{}", given.len()), "n".to_string(), address);
        given.push(address & 0xff);
    }
    assert_eq!(given, vec![10, 11, 12, 13, 14]);
    assert_eq!(first_free_address(block, "other", &used), Some(0x0a00_040a), "another node has its own");
    assert_eq!(first_free_address(Ipv4Cidr { addr: 1, prefix_len: 31 }, "n", &used), None);
    assert_eq!(block_text(Ipv4Cidr { addr: 0x0a00_0400, prefix_len: 24 }), "10.0.4.0/24");
}

#[test]
fn replicas_are_named_by_their_numbers() {
    assert_eq!(replica_name("web", 0), "web-0");
    assert_eq!(replica_name("web", u32::MAX), "web-4294967295");
    assert_eq!(replica_index("web", "web-17"), Some(17));
    for other in ["web", "web-", "web-01", "web-+1", "web-x", "web-4294967296", "we-0", "web-1-2", "Web-1"] {
        assert_eq!(replica_index("web", other), None, "{other}");
    }
    assert_eq!(replica_index("web-1", "web-1-2"), Some(2));
    assert_eq!(diff_replicas(3, &vec![1, 3, 5]), (vec![0, 2], vec![5, 3]));
    assert_eq!(diff_replicas(0, &vec![]), (vec![], vec![]));
}

#[test]
fn sizes_do_not_depend_on_the_case_of_their_unit() {
    for (text, bytes) in [("1k", 1024), ("1K", 1024), ("3m", 3 << 20), ("2G", 2 << 30), ("+5", 5), ("7", 7)] {
        assert_eq!(parse_memory_bytes(text), Ok(bytes));
        assert_eq!(parse_zfs_quota(text), Ok(bytes));
    }
    for text in ["", "0", "0G", "G", "1T", "1.5G", "-1", "18014398509481984K", "1KK"] {
        assert_eq!(parse_memory_bytes(text), Err(SpecError::InvalidMemory(text.to_string())), "{text}");
    }
    assert_eq!(parse_memory_bytes("18014398509481983K"), Ok(18_446_744_073_709_550_592));
}

#[test]
fn a_password_may_hold_a_colon() {
    assert!(check_decoded(b"admin:a:b".to_vec(), "admin", "a:b"));
    assert!(!check_decoded(b"admin:a:b".to_vec(), "admin:a", "b"));
    assert!(check_decoded(b":".to_vec(), "", ""));
    assert!(!check_decoded(vec![0xff, b':'], "", ""));
    assert!(!check_decoded(b"admin".to_vec(), "admin", ""));
}

#[test]
fn markup_is_escaped_and_plain_text_is_kept() {
    assert_eq!(escape_html("plain text, 1 + 2 = 3"), "plain text, 1 + 2 = 3");
    assert_eq!(escape_html("<a href='x'>\"&\"</a>"), "&lt;a href='x'&gt;&quot;&amp;&quot;&lt;/a&gt;");
}

#[test]
fn a_snapshot_is_stale_since_the_first_failure() {
    let first = stale_snapshot(&Snapshot::default(), 10);
    let second = stale_snapshot(&first, 20);
    assert_eq!(second.stale_as_of_unix, Some(10));
    assert_eq!(first, second);
    let client = FakeControlPlaneClient::new();
    let fresh = poll_once(&client, &second, 30);
    assert_eq!(fresh, Snapshot::default());
}

#[test]
fn services_that_cannot_be_listed_stay_as_they_were() {
    let summary = |name: &str| ServiceSummary {
        name: name.to_string(),
        desired_replicas: 1,
        vip: "10.0.250.7".to_string(),
        port: 80,
    };
    let replica = |name: &str| ServiceReplica {
        name: name.to_string(),
        node: "n".to_string(),
        address: "10.0.0.2".to_string(),
    };
    let mut client = FakeControlPlaneClient::new();
    client.set_services(vec![summary("a"), summary("b")]);
    client.set_service("a", vec![replica("a-0")]);
    client.set_service("b", vec![replica("b-0")]);
    let first = poll_once(&client, &Snapshot::default(), 1);
    client.fail_services();
    client.fail_service("b");
    client.set_service("a", vec![]);
    let second = poll_once(&client, &first, 2);
    assert!(!second.stale);
    assert_eq!(second.services.len(), 2);
    assert_eq!((second.services[0].detail.clone(), second.services[0].data_stale), (Some(vec![]), false));
    assert_eq!((second.services[1].detail.clone(), second.services[1].data_stale), (Some(vec![replica("b-0")]), true));
}

#[test]
fn a_fake_client_fails_where_it_was_told_to() {
    let mut client = FakeControlPlaneClient::new();
    assert_eq!(client.fetch_jails("n"), Ok(vec![]));
    assert_eq!(client.fetch_service("web"), Err("no such service 'web'".to_string()));
    client.fail_nodes();
    client.fail_jails("n");
    client.fail_volumes("n");
    client.fail_services();
    client.fail_service("web");
    assert_eq!(client.fetch_nodes(), Err("simulated control-plane unreachable".to_string()));
    assert_eq!(client.fetch_jails("n"), Err("simulated failure fetching jails for 'n'".to_string()));
    assert_eq!(client.fetch_volumes("n"), Err("simulated failure fetching volumes for 'n'".to_string()));
    assert_eq!(client.fetch_volumes("m"), Ok(vec![]));
    assert_eq!(client.fetch_services(), Err("simulated failure fetching services".to_string()));
    assert_eq!(client.fetch_service("web"), Err("simulated failure fetching service 'web'".to_string()));
}

#[test]
fn texts_are_ordered_and_taken_apart_like_those_of_the_standard_library() {
    let words = ["", "a", "ab", "b", "B", "\u{e9}", "\u{10000}", "\u{ffff}", "a-0", "a/b", "a"];
    for x in words {
        for y in words {
            assert_eq!(before(x, y), x < y);
            assert_eq!(same(x, y), x == y);
            assert_eq!(contains(x, y), x.contains(y));
            assert_eq!(strip_prefix(x, y), x.strip_prefix(y).map(|s| s.to_string()));
            let split = x.split_once(y).map(|(a, b)| (a.to_string(), b.to_string()));
            assert_eq!(split_once(x, y), split);
        }
    }
    let mut sorted = texts(&words);
    sorted.sort();
    assert_eq!(sort(texts(&words)), sorted);
}

#[test]
fn a_map_keeps_one_value_for_a_key() {
    let mut map: StrMap<u64> = StrMap::new();
    for (i, key) in ["m", "z", "a", "m", "q"].iter().enumerate() {
        map.insert(key.to_string(), i as u64);
    }
    assert_eq!(map.len(), 4);
    assert_eq!(map.get("m"), Some(&3));
    assert_eq!(map.remove("m"), Some(3));
    assert_eq!(map.remove("m"), None);
    let keys: Vec<&str> = (0..map.len()).map(|i| map.key_at(i).as_str()).collect();
    assert_eq!(keys, vec!["a", "q", "z"]);
}

#[test]
fn services_that_were_written_down_are_read_back_in_any_order() {
    let template = |image: &str| JailTemplate {
        image: image.to_string(),
        command: vec!["run".to_string()],
        network: TemplateNetworkSpec { vnet: true, bridge: "keel0".to_string() },
        resources: ResourcesSpec { cpu: "1".to_string(), memory: "1G".to_string() },
        restart_policy: RestartPolicy::Always,
        volumes: vec![],
    };
    let mut services = Services::new();
    services.apply("web".to_string(), 2, template("a"), 80, 7).unwrap();
    services.apply("db".to_string(), 1, template("b"), 5432, 8).unwrap();
    let mut written = Vec::new();
    for i in (0..services.len()).rev() {
        let (name, r) = services.at(i);
        let record = ServiceRecord {
            desired_replicas: r.desired_replicas,
            template: r.template.clone(),
            vip: r.vip,
            port: r.port,
        };
        written.push((name.to_string(), record));
    }
    let back = Services::load(written);
    assert_eq!(back.len(), 2);
    for i in 0..2 {
        let ((name, record), (other_name, other)) = (services.at(i), back.at(i));
        assert_eq!(name, other_name);
        assert_eq!(record.template, other.template);
        assert_eq!(
            (record.desired_replicas, record.vip, record.port),
            (other.desired_replicas, other.vip, other.port)
        );
    }
}
