use keel::agent::replica_target::ReplicaTargetRegistry;
use keel::agent::replication::{
    admit_sender, answer_header, contact, finish_receive, read_header, read_len_prefixed, write_header, Header, ReadError, ACK_NEED_FULL,
    ACK_PROCEED, ACK_STALE_GENERATION, MAX_FRAME_BYTES,
};
use keel::zfs::fake::FakeZfsManager;

#[test]
fn read_len_prefixed_rejects_a_length_prefix_beyond_the_max_frame_size() {
    let len_buf = (MAX_FRAME_BYTES as u32 + 1).to_be_bytes();
    let result = read_len_prefixed(&len_buf);
    assert!(
        result.is_err(),
        "an oversized length prefix must be rejected before allocating"
    );
}

#[test]
fn read_len_prefixed_accepts_a_length_prefix_at_the_max_frame_size() {
    let mut buf = Vec::new();
    buf.extend_from_slice(&(3u32).to_be_bytes());
    buf.extend_from_slice(b"abc");
    assert_eq!(read_len_prefixed(&buf).unwrap().0, "abc");
}

#[test]
fn header_with_no_base_round_trips() {
    let mut buf = Vec::new();
    write_header(&mut buf, "db-0", "keel-repl-1", None, 0);
    let header = read_header(&buf).unwrap().0;
    assert_eq!(
        header,
        Header {
            replica_name: "db-0".to_string(),
            snapshot_id: "keel-repl-1".to_string(),
            base_snapshot_id: None,
            generation: 0
        }
    );
}

#[test]
fn header_with_a_base_round_trips() {
    let mut buf = Vec::new();
    write_header(&mut buf, "db-0", "keel-repl-2", Some("keel-repl-1"), 0);
    let header = read_header(&buf).unwrap().0;
    assert_eq!(
        header,
        Header {
            replica_name: "db-0".to_string(),
            snapshot_id: "keel-repl-2".to_string(),
            base_snapshot_id: Some("keel-repl-1".to_string()),
            generation: 0
        }
    );
}

#[test]
fn header_carries_a_real_generation_through_the_round_trip() {
    let mut buf = Vec::new();
    write_header(&mut buf, "db-0", "keel-repl-1", None, 7);
    let header = read_header(&buf).unwrap().0;
    assert_eq!(header.generation, 7);
}

const DATASET: &str = "zroot/keel/volumes/db-0-data";

fn header(snapshot: &str, base: Option<&str>, generation: u64) -> Header {
    let mut buf = Vec::new();
    write_header(&mut buf, "db-0", snapshot, base, generation);
    read_header(&buf).unwrap().0
}

#[test]
fn remove_clears_a_target_from_both_memory_and_disk() {
    let mut targets = ReplicaTargetRegistry::load(vec![]);
    targets.ensure_for_test("db-0", DATASET, "10.0.0.4:7621");
    assert!(targets.get("db-0").is_some());

    targets.remove("db-0");

    assert!(targets.get("db-0").is_none(), "expected the target gone from the in-memory registry");
    let reloaded = ReplicaTargetRegistry::load(targets.targets());
    assert!(reloaded.get("db-0").is_none(), "expected the target gone from disk too");
}

#[test]
fn targets_that_were_written_down_are_read_back_in_any_order() {
    let mut targets = ReplicaTargetRegistry::load(vec![]);
    for name in ["db-2", "db-0", "db-1"] {
        targets.ensure_for_test(name, DATASET, "10.0.0.4:7621");
    }
    targets.record_snapshot_for_test("db-1", "keel-repl-3");
    targets.accept_generation_for_test("db-2", 7);
    targets.ensure_for_test("db-2", "ignored", "10.0.0.5:7621");
    targets.remove("db-0");
    let mut written = targets.targets();
    let names: Vec<&str> = written.iter().map(|t| t.replica_name.as_str()).collect();
    assert_eq!(names, vec!["db-1", "db-2"]);
    written.reverse();
    let reloaded = ReplicaTargetRegistry::load(written);
    for name in ["db-0", "db-1", "db-2"] {
        assert_eq!(reloaded.get(name), targets.get(name), "{name}");
    }
    assert_eq!(reloaded.get("db-2").unwrap().highest_generation_seen, 7);
}

#[test]
fn remove_on_an_unknown_replica_is_a_harmless_no_op() {
    let mut targets = ReplicaTargetRegistry::load(vec![]);
    targets.remove("never-existed");
    assert!(targets.get("never-existed").is_none());
}

#[test]
fn first_contact_creates_a_replica_target_and_accepts_a_full_send() {
    let mut targets = ReplicaTargetRegistry::load(vec![]);
    let mut sender_zfs = FakeZfsManager::new();
    sender_zfs.seed_dataset(DATASET);
    sender_zfs.snapshot(DATASET, "keel-repl-1").unwrap();
    let mut receiver_zfs = FakeZfsManager::new();

    let h = header("keel-repl-1", None, 0);
    let handshake = answer_header(&mut targets, "zroot", &h, "10.0.0.4:7621");
    assert_eq!(handshake.ack, ACK_PROCEED);
    assert_eq!(handshake.dataset, DATASET);

    let mut stream = Vec::new();
    sender_zfs.send_snapshot(DATASET, "keel-repl-1", None, &mut stream).unwrap();
    receiver_zfs.receive_snapshot(&handshake.dataset, &stream).unwrap();
    finish_receive(&mut targets, &h);

    assert!(receiver_zfs.dataset_exists(DATASET).unwrap());
    let target = targets.get("db-0").expect("expected a ReplicaTarget to have been created on first contact");
    assert_eq!(target.last_snapshot, Some("keel-repl-1".to_string()));
    assert_eq!(target.source_node_addr, "10.0.0.4:7621");
}

#[test]
fn a_base_mismatch_is_rejected_without_reading_a_payload() {
    let mut targets = ReplicaTargetRegistry::load(vec![]);
    let h = header("keel-repl-10", Some("keel-repl-9"), 0);
    assert_eq!(answer_header(&mut targets, "zroot", &h, "peer").ack, ACK_NEED_FULL);
    assert_eq!(targets.get("db-0").unwrap().last_snapshot, None);
}

#[test]
fn a_stale_generation_is_rejected_without_reading_a_payload_or_touching_last_snapshot() {
    let mut targets = ReplicaTargetRegistry::load(vec![]);
    let h = header("keel-repl-1", None, 2);
    assert_eq!(answer_header(&mut targets, "zroot", &h, "peer").ack, ACK_PROCEED);
    finish_receive(&mut targets, &h);

    let stale = header("keel-repl-2", None, 1);
    assert_eq!(answer_header(&mut targets, "zroot", &stale, "other peer").ack, ACK_STALE_GENERATION);

    let target = targets.get("db-0").unwrap();
    assert_eq!(
        target.last_snapshot,
        Some("keel-repl-1".to_string()),
        "the stale sender's rejected attempt must not touch last_snapshot"
    );
    assert_eq!(
        target.highest_generation_seen, 2,
        "the stale sender's generation must not overwrite the real one"
    );
}

#[test]
fn an_increment_follows_the_last_snapshot_and_a_fenced_sender_stays_fenced() {
    let mut targets = ReplicaTargetRegistry::load(vec![]);
    targets.ensure_for_test("db-0", DATASET, "peer");
    targets.record_snapshot_for_test("db-0", "keel-repl-1");
    targets.accept_generation_for_test("db-0", 3);
    let next = header("keel-repl-2", Some("keel-repl-1"), 3);
    assert_eq!(answer_header(&mut targets, "zroot", &next, "peer").ack, ACK_PROCEED);
    finish_receive(&mut targets, &next);
    assert_eq!(answer_header(&mut targets, "zroot", &next, "peer").ack, ACK_NEED_FULL);
    for _ in 0..3 {
        let old = header("keel-repl-9", Some("keel-repl-2"), 2);
        assert_eq!(answer_header(&mut targets, "zroot", &old, "peer").ack, ACK_STALE_GENERATION);
    }
}

#[test]
fn contact_and_admission_are_two_steps_of_one_answer() {
    let mut targets = ReplicaTargetRegistry::load(vec![]);
    let h = header("keel-repl-1", None, 4);
    let (dataset, known) = contact(&mut targets, "zroot", &h, "10.0.0.4:7621");
    assert_eq!(dataset, DATASET);
    assert_eq!((known.source_node_addr.as_str(), known.highest_generation_seen), ("10.0.0.4:7621", 0));
    assert_eq!(targets.get("db-0").unwrap(), known);
    assert_eq!(admit_sender(&mut targets, &h, &known), ACK_PROCEED);
    assert_eq!(targets.get("db-0").unwrap().highest_generation_seen, 4);
    let based = header("keel-repl-2", Some("keel-repl-1"), 4);
    assert_eq!(admit_sender(&mut targets, &based, &known), ACK_NEED_FULL, "nothing was received when it was contacted");
    let stale = header("keel-repl-2", None, 3);
    assert_eq!(admit_sender(&mut targets, &stale, &known), ACK_STALE_GENERATION);
    assert_eq!(targets.get("db-0").unwrap().highest_generation_seen, 4);
}

#[test]
fn the_beginning_of_a_header_asks_for_no_byte_behind_it() {
    for base in [None, Some("keel-repl-1")] {
        let mut buf = Vec::new();
        write_header(&mut buf, "db-0", "keel-repl-2", base, 7);
        for n in 0..buf.len() {
            match read_header(&buf[..n]) {
                Err(ReadError::Incomplete(needed)) => assert!(n < needed && needed <= buf.len(), "at {n}"),
                other => panic!("at {n}: {other:?}"),
            }
        }
        assert_eq!(read_header(&buf).unwrap().1, buf.len());
    }
    let mut long = Vec::new();
    write_header(&mut long, &"x".repeat(5000), "s", None, 0);
    for n in 4..long.len() {
        assert_eq!(read_header(&long[..n]), Err(ReadError::FrameTooLong(5000)));
    }
}

#[test]
fn a_broken_header_says_what_is_wrong_with_it() {
    assert_eq!(read_header(&[]), Err(ReadError::Incomplete(4)));
    let mut buf = Vec::new();
    write_header(&mut buf, "db-0", "s", Some("b"), 258);
    assert_eq!(buf[..8], [0, 0, 0, 4, b'd', b'b', b'-', b'0']);
    assert_eq!(buf[buf.len() - 2..], [1, 2]);
    for n in 0..buf.len() {
        assert!(matches!(read_header(&buf[..n]), Err(ReadError::Incomplete(_))), "at {n}");
    }
    let (h, used) = read_header(&[buf.clone(), vec![7, 7]].concat()).unwrap();
    assert_eq!((h.base_snapshot_id, h.generation, used), (Some("b".to_string()), 258, buf.len()));
    for body in [vec![0xff], vec![b'a', 0xc3], vec![b'a', 0xe2, 0x28, 0xa1]] {
        let reason = String::from_utf8(body.clone()).unwrap_err().to_string();
        let frame = [vec![0, 0, 0, body.len() as u8], body].concat();
        let error = read_len_prefixed(&frame).unwrap_err();
        assert_eq!(error, ReadError::InvalidUtf8(reason.clone()));
        assert_eq!(error.message(), reason);
    }
    assert!(matches!(read_len_prefixed(&[0, 0, 16, 1]), Err(ReadError::FrameTooLong(4097))));
    assert_eq!(ReadError::FrameTooLong(4097).message(), "frame length 4097 exceeds max of 4096");
    assert_eq!(ReadError::Incomplete(4).message(), "the header is not complete");
}
