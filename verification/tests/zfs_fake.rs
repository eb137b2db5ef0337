use keel::zfs::error::ZfsError;
use keel::zfs::fake::FakeZfsManager;
use std::sync::{Arc, Mutex};

#[test]
fn dataset_exists_is_false_until_seeded() {
    let mut zfs = FakeZfsManager::new();
    assert!(!zfs.dataset_exists("zroot/keel/base/test").unwrap());
    zfs.seed_dataset("zroot/keel/base/test");
    assert!(zfs.dataset_exists("zroot/keel/base/test").unwrap());
}

#[test]
fn clone_from_base_requires_existing_base() {
    let mut zfs = FakeZfsManager::new();
    assert!(matches!(
        zfs.clone_from_base("zroot/keel/base/test", "zroot/keel/jails/web-1"),
        Err(ZfsError::NotFound(_))
    ));
}

#[test]
fn clone_from_base_creates_target_dataset() {
    let mut zfs = FakeZfsManager::new();
    zfs.seed_dataset("zroot/keel/base/test");
    zfs.clone_from_base("zroot/keel/base/test", "zroot/keel/jails/web-1")
        .unwrap();
    assert!(zfs.dataset_exists("zroot/keel/jails/web-1").unwrap());
}

#[test]
fn destroy_dataset_removes_it() {
    let mut zfs = FakeZfsManager::new();
    zfs.seed_dataset("zroot/keel/jails/web-1");
    zfs.destroy_dataset("zroot/keel/jails/web-1").unwrap();
    assert!(!zfs.dataset_exists("zroot/keel/jails/web-1").unwrap());
}

#[test]
fn destroy_dataset_on_unknown_dataset_returns_not_found() {
    let mut zfs = FakeZfsManager::new();
    assert!(matches!(
        zfs.destroy_dataset("zroot/keel/jails/missing"),
        Err(ZfsError::NotFound(_))
    ));
}

#[test]
fn create_volume_creates_the_dataset() {
    let mut zfs = FakeZfsManager::new();
    zfs.create_volume("zroot/keel/volumes/web-data", "1G")
        .unwrap();
    assert!(zfs.dataset_exists("zroot/keel/volumes/web-data").unwrap());
}

#[test]
fn create_volume_is_idempotent_on_an_already_existing_dataset() {
    let mut zfs = FakeZfsManager::new();
    zfs.create_volume("zroot/keel/volumes/web-data", "1G")
        .unwrap();
    zfs.create_volume("zroot/keel/volumes/web-data", "1G")
        .unwrap();
    assert!(zfs.dataset_exists("zroot/keel/volumes/web-data").unwrap());
}

#[test]
fn create_volume_records_its_quota_and_does_not_re_apply_it_on_a_second_call() {
    let mut zfs = FakeZfsManager::new();
    zfs.create_volume("zroot/keel/volumes/web-data", "1G")
        .unwrap();
    assert_eq!(
        zfs.quota_of("zroot/keel/volumes/web-data"),
        Some("1G".to_string())
    );
    zfs.create_volume("zroot/keel/volumes/web-data", "5G")
        .unwrap();
    assert_eq!(
        zfs.quota_of("zroot/keel/volumes/web-data"),
        Some("1G".to_string()),
        "create_volume is idempotent and must not re-apply a quota to an existing dataset"
    );
}

#[test]
fn set_quota_applies_a_quota_to_an_existing_dataset() {
    let mut zfs = FakeZfsManager::new();
    zfs.seed_dataset("zroot/keel/volumes/web-data");
    assert_eq!(zfs.quota_of("zroot/keel/volumes/web-data"), None);
    zfs.set_quota("zroot/keel/volumes/web-data", "2G").unwrap();
    assert_eq!(
        zfs.quota_of("zroot/keel/volumes/web-data"),
        Some("2G".to_string())
    );
}

#[test]
fn set_quota_on_an_unknown_dataset_returns_not_found() {
    let mut zfs = FakeZfsManager::new();
    assert!(matches!(
        zfs.set_quota("zroot/keel/volumes/missing", "1G"),
        Err(ZfsError::NotFound(_))
    ));
}

#[test]
fn receive_snapshot_leaves_the_received_dataset_with_no_quota() {
    // Mirrors real `zfs send`/`receive` without `-p`: properties, quota
    // included, do not travel with the stream. This is exactly why
    // restore has to re-apply the declared size itself.
    let mut zfs = FakeZfsManager::new();
    zfs.create_volume("zroot/keel/volumes/web-data", "1G")
        .unwrap();
    zfs.snapshot("zroot/keel/volumes/web-data", "backup-1")
        .unwrap();
    let mut stream = Vec::new();
    zfs.send_snapshot("zroot/keel/volumes/web-data", "backup-1", None, &mut stream)
        .unwrap();

    let mut target = FakeZfsManager::new();
    target
        .receive_snapshot("zroot/keel/volumes/web-data", stream.as_slice())
        .unwrap();
    assert_eq!(target.quota_of("zroot/keel/volumes/web-data"), None);
}

#[test]
fn destroy_dataset_on_a_busy_dataset_returns_busy_and_leaves_it_present() {
    let mut zfs = FakeZfsManager::new();
    zfs.seed_dataset("zroot/keel/volumes/web-data");
    zfs.mark_busy("zroot/keel/volumes/web-data");
    assert!(matches!(
        zfs.destroy_dataset("zroot/keel/volumes/web-data"),
        Err(ZfsError::Busy(_))
    ));
    assert!(zfs.dataset_exists("zroot/keel/volumes/web-data").unwrap());
}

#[test]
fn unmark_busy_lets_a_previously_busy_dataset_be_destroyed() {
    let mut zfs = FakeZfsManager::new();
    zfs.seed_dataset("zroot/keel/volumes/web-data");
    zfs.mark_busy("zroot/keel/volumes/web-data");
    assert!(matches!(
        zfs.destroy_dataset("zroot/keel/volumes/web-data"),
        Err(ZfsError::Busy(_))
    ));

    zfs.unmark_busy("zroot/keel/volumes/web-data");
    zfs.destroy_dataset("zroot/keel/volumes/web-data").unwrap();
    assert!(!zfs.dataset_exists("zroot/keel/volumes/web-data").unwrap());
}

#[test]
fn snapshot_requires_an_existing_dataset() {
    let mut zfs = FakeZfsManager::new();
    assert!(matches!(
        zfs.snapshot("zroot/keel/volumes/web-data", "keel-repl-1"),
        Err(ZfsError::NotFound(_))
    ));
}

#[test]
fn send_snapshot_requires_the_snapshot_to_exist() {
    let mut zfs = FakeZfsManager::new();
    zfs.seed_dataset("zroot/keel/volumes/web-data");
    let mut out = Vec::new();
    assert!(matches!(
        zfs.send_snapshot("zroot/keel/volumes/web-data", "keel-repl-1", None, &mut out),
        Err(ZfsError::NotFound(_))
    ));
}

#[test]
fn send_snapshot_full_then_receive_snapshot_creates_the_target_dataset() {
    let mut zfs = FakeZfsManager::new();
    zfs.seed_dataset("zroot/keel/volumes/web-data");
    zfs.snapshot("zroot/keel/volumes/web-data", "keel-repl-1")
        .unwrap();

    let mut stream = Vec::new();
    zfs.send_snapshot(
        "zroot/keel/volumes/web-data",
        "keel-repl-1",
        None,
        &mut stream,
    )
    .unwrap();

    let mut target = FakeZfsManager::new();
    target
        .receive_snapshot("zroot/keel/volumes/web-0-data", stream.as_slice())
        .unwrap();
    assert!(target
        .dataset_exists("zroot/keel/volumes/web-0-data")
        .unwrap());
}

#[test]
fn send_snapshot_incremental_requires_the_base_snapshot_to_exist() {
    let mut zfs = FakeZfsManager::new();
    zfs.seed_dataset("zroot/keel/volumes/web-data");
    zfs.snapshot("zroot/keel/volumes/web-data", "keel-repl-2")
        .unwrap();

    let mut out = Vec::new();
    assert!(matches!(
        zfs.send_snapshot(
            "zroot/keel/volumes/web-data",
            "keel-repl-2",
            Some("keel-repl-1"),
            &mut out
        ),
        Err(ZfsError::NotFound(_))
    ));
}

#[test]
fn send_snapshot_incremental_succeeds_once_the_base_exists() {
    let mut zfs = FakeZfsManager::new();
    zfs.seed_dataset("zroot/keel/volumes/web-data");
    zfs.snapshot("zroot/keel/volumes/web-data", "keel-repl-1")
        .unwrap();
    zfs.snapshot("zroot/keel/volumes/web-data", "keel-repl-2")
        .unwrap();

    let mut out = Vec::new();
    zfs.send_snapshot(
        "zroot/keel/volumes/web-data",
        "keel-repl-2",
        Some("keel-repl-1"),
        &mut out,
    )
    .unwrap();
    assert!(
        !out.is_empty(),
        "expected the fake to still write a synthetic byte marker for an incremental send"
    );
}

#[test]
fn receive_snapshot_on_a_malformed_stream_fails_without_creating_the_dataset() {
    let mut zfs = FakeZfsManager::new();
    let garbage: &[u8] = b"not a real send stream";
    assert!(matches!(
        zfs.receive_snapshot("zroot/keel/volumes/web-0-data", garbage),
        Err(ZfsError::CommandFailed(_, _, _))
    ));
    assert!(!zfs.dataset_exists("zroot/keel/volumes/web-0-data").unwrap());
}

#[test]
fn receive_snapshot_incremental_rejects_when_base_was_never_received_on_target() {
    let mut source = FakeZfsManager::new();
    source.seed_dataset("zroot/keel/volumes/web-data");
    source
        .snapshot("zroot/keel/volumes/web-data", "keel-repl-1")
        .unwrap();
    source
        .snapshot("zroot/keel/volumes/web-data", "keel-repl-2")
        .unwrap();

    let mut stream = Vec::new();
    source
        .send_snapshot(
            "zroot/keel/volumes/web-data",
            "keel-repl-2",
            Some("keel-repl-1"),
            &mut stream,
        )
        .unwrap();

    // Target never received keel-repl-1, so an incremental receive based on it must fail,
    // mirroring real `zfs receive -i` refusing a stream whose base doesn't match.
    let mut target = FakeZfsManager::new();
    assert!(matches!(
        target.receive_snapshot("zroot/keel/volumes/web-0-data", stream.as_slice()),
        Err(ZfsError::CommandFailed(_, _, _))
    ));
    assert!(!target
        .dataset_exists("zroot/keel/volumes/web-0-data")
        .unwrap());
}

#[test]
fn receive_snapshot_incremental_succeeds_once_the_base_was_received_first() {
    let mut source = FakeZfsManager::new();
    source.seed_dataset("zroot/keel/volumes/web-data");
    source
        .snapshot("zroot/keel/volumes/web-data", "keel-repl-1")
        .unwrap();
    source
        .snapshot("zroot/keel/volumes/web-data", "keel-repl-2")
        .unwrap();

    let mut full_stream = Vec::new();
    source
        .send_snapshot(
            "zroot/keel/volumes/web-data",
            "keel-repl-1",
            None,
            &mut full_stream,
        )
        .unwrap();
    let mut incremental_stream = Vec::new();
    source
        .send_snapshot(
            "zroot/keel/volumes/web-data",
            "keel-repl-2",
            Some("keel-repl-1"),
            &mut incremental_stream,
        )
        .unwrap();

    let mut target = FakeZfsManager::new();
    target
        .receive_snapshot("zroot/keel/volumes/web-0-data", full_stream.as_slice())
        .unwrap();
    target
        .receive_snapshot(
            "zroot/keel/volumes/web-0-data",
            incremental_stream.as_slice(),
        )
        .unwrap();
    assert!(target
        .dataset_exists("zroot/keel/volumes/web-0-data")
        .unwrap());
}

#[test]
fn destroy_snapshot_removes_an_existing_snapshot() {
    let mut zfs = FakeZfsManager::new();
    zfs.seed_dataset("zroot/keel/volumes/web-data");
    zfs.snapshot("zroot/keel/volumes/web-data", "keel-repl-1")
        .unwrap();
    zfs.destroy_snapshot("zroot/keel/volumes/web-data", "keel-repl-1")
        .unwrap();

    let mut out = Vec::new();
    assert!(matches!(
        zfs.send_snapshot("zroot/keel/volumes/web-data", "keel-repl-1", None, &mut out),
        Err(ZfsError::NotFound(_))
    ));
}

#[test]
fn destroy_snapshot_then_send_using_it_as_a_base_fails() {
    let mut zfs = FakeZfsManager::new();
    zfs.seed_dataset("zroot/keel/volumes/web-data");
    zfs.snapshot("zroot/keel/volumes/web-data", "keel-repl-1")
        .unwrap();
    zfs.snapshot("zroot/keel/volumes/web-data", "keel-repl-2")
        .unwrap();
    zfs.destroy_snapshot("zroot/keel/volumes/web-data", "keel-repl-1")
        .unwrap();

    let mut out = Vec::new();
    assert!(matches!(
        zfs.send_snapshot(
            "zroot/keel/volumes/web-data",
            "keel-repl-2",
            Some("keel-repl-1"),
            &mut out
        ),
        Err(ZfsError::NotFound(_))
    ));
}

#[test]
fn destroy_snapshot_on_an_unknown_snapshot_returns_not_found() {
    let mut zfs = FakeZfsManager::new();
    zfs.seed_dataset("zroot/keel/volumes/web-data");
    assert!(matches!(
        zfs.destroy_snapshot("zroot/keel/volumes/web-data", "keel-repl-1"),
        Err(ZfsError::NotFound(_))
    ));
}

#[test]
fn clone_shares_the_same_underlying_state() {
    let zfs = Arc::new(Mutex::new(FakeZfsManager::new()));
    let clone = zfs.clone();
    clone.lock().unwrap().seed_dataset("zroot/keel/volumes/shared");
    assert!(
        zfs.lock().unwrap().dataset_exists("zroot/keel/volumes/shared").unwrap(),
        "expected a clone's mutation to be visible through the original handle"
    );
}

#[test]
fn list_child_datasets_returns_only_immediate_children_sorted() {
    let mut zfs = FakeZfsManager::new();
    zfs.seed_dataset("zroot/keel/volumes/web-data");
    zfs.seed_dataset("zroot/keel/volumes/db-data");
    zfs.seed_dataset("zroot/keel/jails/web-1");
    assert_eq!(
        zfs.list_child_datasets("zroot/keel/volumes").unwrap(),
        vec![
            "zroot/keel/volumes/db-data".to_string(),
            "zroot/keel/volumes/web-data".to_string()
        ]
    );
}

#[test]
fn list_child_datasets_excludes_grandchildren() {
    let mut zfs = FakeZfsManager::new();
    zfs.seed_dataset("zroot/keel/volumes/web-data");
    zfs.seed_dataset("zroot/keel/volumes/web-data/nested");
    assert_eq!(
        zfs.list_child_datasets("zroot/keel/volumes").unwrap(),
        vec!["zroot/keel/volumes/web-data".to_string()]
    );
}

#[test]
fn list_child_datasets_on_an_unseeded_parent_is_empty() {
    let mut zfs = FakeZfsManager::new();
    assert_eq!(
        zfs.list_child_datasets("zroot/keel/volumes").unwrap(),
        Vec::<String>::new()
    );
}
