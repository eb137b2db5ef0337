use keel::agent::backup::{
    agent_dir, staging_file, stream_file, zfs_dir, BackupError, BackupEvent, BackupRun, BackupStage, RestoreEvent,
    RestoreRun, RestoreStage,
};
use keel::agent::volumes::volume_dataset_path;
use keel::fs_copy::is_left_out;
use keel::jail::VolumeMount;
use keel::zfs::error::ZfsError;
use keel::zfs::fake::FakeZfsManager;
use std::collections::{BTreeMap, BTreeSet};

const POOL: &str = "zroot";

/// An agent with its files in memory: a record for each jail, which holds the size of the jail's volume.
struct Agent {
    files: BTreeMap<String, Vec<u8>>,
    jails: BTreeSet<String>,
    zfs: FakeZfsManager,
    occupied: BTreeSet<String>,
    warned: Vec<String>,
}

fn skip_names() -> Vec<String> {
    vec!["backups".to_string()]
}

fn top(path: &str) -> &str {
    path.split('/').next().unwrap()
}

impl Agent {
    fn new() -> Self {
        let mut zfs = FakeZfsManager::new();
        zfs.seed_dataset("zroot/keel/base/14.2-web");
        Agent { files: BTreeMap::new(), jails: BTreeSet::new(), zfs, occupied: BTreeSet::new(), warned: Vec::new() }
    }

    fn apply(&mut self, name: &str) {
        self.jails.insert(name.to_string());
        self.files.insert(format!("{name}.yaml"), b"1G".to_vec());
        self.zfs.create_volume(&volume_dataset_path(POOL, &format!("{name}-data")), "1G").unwrap();
    }

    fn has(&self, path: &str) -> bool {
        self.files.contains_key(path)
    }

    fn send(&mut self, id: &str, volume: &str) -> Result<(), BackupError> {
        let staging = format!("{}/{}", zfs_dir(id), staging_file(volume));
        if self.occupied.contains(&staging) {
            return Err(BackupError::Io("is a directory".to_string()));
        }
        let mut stream = Vec::new();
        self.zfs
            .send_snapshot(&volume_dataset_path(POOL, volume), id, None, &mut stream)
            .map_err(BackupError::Zfs)?;
        self.files.insert(format!("{}/{}", zfs_dir(id), stream_file(volume)), stream);
        Ok(())
    }

    fn backup(&mut self, id: &str) -> Result<(Vec<String>, Vec<String>), BackupError> {
        let mut run = BackupRun::new();
        loop {
            let volume = run.volume().map(|v| v.to_string());
            let event = match run.stage() {
                BackupStage::CopyState => {
                    for (path, content) in self.files.clone() {
                        if !is_left_out(0, top(&path), &skip_names()) {
                            self.files.insert(format!("{}/{path}", agent_dir(id)), content);
                        }
                    }
                    BackupEvent::Done
                }
                BackupStage::ListVolumes => {
                    let parent = "zroot/keel/volumes";
                    let datasets = self.zfs.list_child_datasets(parent).unwrap();
                    BackupEvent::Volumes(datasets.iter().map(|d| d[parent.len() + 1..].to_string()).collect())
                }
                BackupStage::MakeDir => BackupEvent::Done,
                BackupStage::Snapshot => {
                    match self.zfs.snapshot(&volume_dataset_path(POOL, &volume.unwrap()), id) {
                        Ok(()) => BackupEvent::Done,
                        Err(e) => BackupEvent::Failed(BackupError::Zfs(e)),
                    }
                }
                BackupStage::Send => match self.send(id, &volume.unwrap()) {
                    Ok(()) => BackupEvent::Done,
                    Err(e) => BackupEvent::Failed(e),
                },
                BackupStage::RemoveStaging => BackupEvent::Done,
                BackupStage::DestroySnapshot => {
                    let _ = self.zfs.destroy_snapshot(&volume_dataset_path(POOL, &volume.unwrap()), id);
                    BackupEvent::Done
                }
                BackupStage::Finished => return run.result(),
            };
            run.report(event);
        }
    }

    fn declared(&self) -> Vec<VolumeMount> {
        self.files
            .iter()
            .filter(|(path, _)| !path.contains('/'))
            .map(|(path, size)| VolumeMount {
                name: format!("{}-data", path.strip_suffix(".yaml").unwrap()),
                mount_path: "/data".to_string(),
                size: String::from_utf8(size.clone()).unwrap(),
            })
            .collect()
    }

    fn restore(&mut self, id: &str) -> Result<(), BackupError> {
        let mut run = RestoreRun::new(id);
        loop {
            let dataset = run.dataset(POOL);
            let event = match run.stage() {
                RestoreStage::CheckBackup => {
                    let dir = format!("{}/", agent_dir(id));
                    RestoreEvent::Yes(self.files.keys().any(|path| path.starts_with(&dir)))
                }
                RestoreStage::ListJails => RestoreEvent::Names(self.jails.iter().cloned().collect()),
                RestoreStage::DeleteJail => {
                    self.jails.remove(run.jail().unwrap());
                    RestoreEvent::Done
                }
                RestoreStage::WipeState => {
                    self.files.retain(|path, _| is_left_out(0, top(path), &skip_names()));
                    RestoreEvent::Done
                }
                RestoreStage::CopyBack => {
                    let dir = format!("{}/", agent_dir(id));
                    for (path, content) in self.files.clone() {
                        if let Some(rest) = path.strip_prefix(&dir) {
                            self.files.insert(rest.to_string(), content);
                        }
                    }
                    RestoreEvent::Done
                }
                RestoreStage::LoadRecords => RestoreEvent::Declared(self.declared()),
                RestoreStage::ListStreams => {
                    let dir = format!("{}/", zfs_dir(id));
                    let names: Vec<String> =
                        self.files.keys().filter_map(|path| path.strip_prefix(&dir)).map(|s| s.to_string()).collect();
                    if names.is_empty() {
                        RestoreEvent::NoStreams
                    } else {
                        RestoreEvent::Names(names)
                    }
                }
                RestoreStage::CheckDataset => {
                    RestoreEvent::Yes(self.zfs.dataset_exists(&dataset.unwrap()).unwrap())
                }
                RestoreStage::DestroyDataset => {
                    match self.zfs.destroy_dataset(&dataset.unwrap()) {
                        Ok(()) => RestoreEvent::Done,
                        Err(e) => RestoreEvent::Failed(BackupError::Zfs(e)),
                    }
                }
                RestoreStage::Receive => {
                    let file = format!("{}/{}", zfs_dir(id), stream_file(run.volume().unwrap()));
                    match self.zfs.receive_snapshot(&dataset.unwrap(), &self.files[&file].clone()) {
                        Ok(()) => RestoreEvent::Done,
                        Err(e) => RestoreEvent::Failed(BackupError::Zfs(e)),
                    }
                }
                RestoreStage::SetQuota => {
                    self.zfs.set_quota(&dataset.unwrap(), &run.quota().unwrap()).unwrap();
                    RestoreEvent::Done
                }
                RestoreStage::WarnNoQuota => {
                    self.warned.push(run.volume().unwrap().to_string());
                    RestoreEvent::Done
                }
                RestoreStage::Finished => return run.result(),
            };
            run.report(event);
        }
    }
}

#[test]
fn backup_agent_state_copies_records_and_sends_every_volume_dataset_to_a_file() {
    let mut agent = Agent::new();
    agent.apply("web-1");

    let (volumes, failed_volumes) = agent.backup("backup-1").unwrap();
    assert_eq!(volumes, vec!["web-1-data".to_string()]);
    assert_eq!(failed_volumes, Vec::<String>::new());

    assert!(agent.has("backups/backup-1/agent/web-1.yaml"));
    assert!(agent.has("backups/backup-1/zfs/web-1-data.zfs"));
}

#[test]
fn backup_agent_state_continues_past_one_failed_volume_and_still_backs_up_the_rest() {
    let mut agent = Agent::new();
    agent.apply("web-1");
    agent.apply("web-2");
    agent.occupied.insert("backups/backup-1/zfs/web-2-data.zfs.tmp".to_string());

    let (volumes, failed_volumes) = agent.backup("backup-1").unwrap();
    assert_eq!(volumes, vec!["web-1-data".to_string()]);
    assert_eq!(failed_volumes, vec!["web-2-data".to_string()]);
    assert!(agent.has("backups/backup-1/zfs/web-1-data.zfs"));
}

#[test]
fn a_failed_volume_backup_leaves_no_zfs_file_for_restore_to_find_and_no_orphan_snapshot() {
    let mut agent = Agent::new();
    agent.apply("web-1");
    agent.occupied.insert("backups/backup-1/zfs/web-1-data.zfs.tmp".to_string());

    let (_, failed_volumes) = agent.backup("backup-1").unwrap();
    assert_eq!(failed_volumes, vec!["web-1-data".to_string()]);
    assert!(
        !agent.has("backups/backup-1/zfs/web-1-data.zfs"),
        "a failed send must not leave anything at the final .zfs path"
    );
    assert!(
        matches!(
            agent.zfs.destroy_snapshot("zroot/keel/volumes/web-1-data", "backup-1"),
            Err(ZfsError::NotFound(_))
        ),
        "expected the failed volume's snapshot to have been destroyed already"
    );
}

#[test]
fn restore_agent_state_reapplies_each_restored_volumes_declared_quota() {
    let mut agent = Agent::new();
    agent.apply("web-1");
    assert_eq!(
        agent.zfs.quota_of("zroot/keel/volumes/web-1-data"),
        Some("1G".to_string()),
        "sanity: provisioning applies the declared size at create time"
    );
    agent.backup("backup-1").unwrap();

    agent.restore("backup-1").unwrap();

    assert_eq!(
        agent.zfs.quota_of("zroot/keel/volumes/web-1-data"),
        Some("1G".to_string()),
        "a restored volume must get its declared size re-applied as a quota"
    );
}

#[test]
fn restore_agent_state_tears_down_a_jail_created_after_the_backup_and_restores_volume_data() {
    let mut agent = Agent::new();
    agent.apply("web-1");
    agent.backup("backup-1").unwrap();

    agent.apply("web-2");
    assert!(agent.jails.contains("web-2"));

    agent.restore("backup-1").unwrap();

    assert!(
        !agent.has("web-2.yaml"),
        "a jail record created after the backup must not survive restore"
    );
    assert!(!agent.jails.contains("web-2"));
    assert!(agent.has("web-1.yaml"));
    assert!(agent.zfs.dataset_exists("zroot/keel/volumes/web-1-data").unwrap());
}

#[test]
fn restore_agent_state_succeeds_against_a_volume_backed_up_more_than_once() {
    let mut agent = Agent::new();
    agent.apply("web-1");
    agent.backup("backup-1").unwrap();
    agent.backup("backup-2").unwrap();

    agent.restore("backup-2").unwrap();

    assert!(agent.zfs.dataset_exists("zroot/keel/volumes/web-1-data").unwrap());
}

#[test]
fn restore_agent_state_on_an_unknown_backup_id_fails_without_tearing_anything_down() {
    let mut agent = Agent::new();
    agent.apply("web-1");

    let result = agent.restore("missing-backup");
    assert_eq!(result, Err(BackupError::UnknownBackup("missing-backup".to_string())));
    assert!(agent.jails.contains("web-1"));
    assert!(agent.has("web-1.yaml"));
}

#[test]
fn a_restored_volume_that_no_record_declares_is_left_without_a_quota() {
    let mut agent = Agent::new();
    agent.apply("web-1");
    agent.backup("backup-1").unwrap();
    agent.files.remove("backups/backup-1/agent/web-1.yaml");
    agent.files.insert("backups/backup-1/agent/web-9.yaml".to_string(), b"2G".to_vec());

    agent.restore("backup-1").unwrap();
    assert_eq!(agent.warned, vec!["web-1-data".to_string()]);
    assert_eq!(agent.zfs.quota_of("zroot/keel/volumes/web-1-data"), None);
}

#[test]
fn only_files_that_end_in_zfs_are_restored_and_in_the_order_of_their_names() {
    let mut run = RestoreRun::new("b");
    run.report(RestoreEvent::Yes(true));
    run.report(RestoreEvent::Names(vec![]));
    assert_eq!(run.stage(), RestoreStage::WipeState);
    run.report(RestoreEvent::Done);
    run.report(RestoreEvent::Done);
    run.report(RestoreEvent::Declared(vec![]));
    let files = ["b.zfs", "c.zfs.tmp", "a.zfs", "notes.txt", ".zfs"];
    run.report(RestoreEvent::Names(files.iter().map(|s| s.to_string()).collect()));
    assert_eq!(run.volume(), Some(""));
    assert_eq!(run.dataset("tank"), Some("tank/keel/volumes/".to_string()));
    for expected in ["", "a", "b"] {
        assert_eq!(run.stage(), RestoreStage::CheckDataset);
        assert_eq!(run.volume(), Some(expected));
        run.report(RestoreEvent::Yes(false));
        assert_eq!(run.stage(), RestoreStage::Receive);
        run.report(RestoreEvent::Done);
        assert_eq!(run.stage(), RestoreStage::WarnNoQuota);
        run.report(RestoreEvent::Done);
    }
    assert_eq!(run.stage(), RestoreStage::Finished);
    assert_eq!(run.result(), Ok(()));
}

#[test]
fn a_restore_ends_at_the_first_failure() {
    let mut run = RestoreRun::new("b");
    run.report(RestoreEvent::Yes(true));
    run.report(RestoreEvent::Names(vec!["web".to_string()]));
    assert_eq!(run.jail(), Some("web"));
    run.report(RestoreEvent::Failed(BackupError::Reconcile("busy".to_string())));
    assert_eq!(run.stage(), RestoreStage::Finished);
    assert_eq!(run.result(), Err(BackupError::Reconcile("busy".to_string())));
}

#[test]
fn a_backup_that_cannot_copy_its_records_fails() {
    let mut run = BackupRun::new();
    run.report(BackupEvent::Failed(BackupError::Io("disk full".to_string())));
    assert_eq!(run.stage(), BackupStage::Finished);
    assert_eq!(run.result(), Err(BackupError::Io("disk full".to_string())));
}

#[test]
fn a_backup_without_volumes_is_complete_at_once() {
    let mut run = BackupRun::new();
    run.report(BackupEvent::Done);
    run.report(BackupEvent::Volumes(vec![]));
    assert_eq!(run.stage(), BackupStage::MakeDir);
    run.report(BackupEvent::Done);
    assert_eq!(run.stage(), BackupStage::Finished);
    assert_eq!(run.result(), Ok((vec![], vec![])));
}

#[test]
fn backup_errors_are_put_in_words() {
    assert_eq!(BackupError::Io("x".to_string()).message(), "I/O error: x");
    assert_eq!(BackupError::Reconcile("x".to_string()).message(), "x");
    assert_eq!(BackupError::UnknownBackup("x".to_string()).message(), "no backup 'x' found");
    assert_eq!(BackupError::Zfs(ZfsError::Busy("a".to_string())).message(), "busy: a");
    assert_eq!(ZfsError::NotFound("a".to_string()).message(), "not found: a");
    let failed = ZfsError::CommandFailed("zfs x".to_string(), -256, "why".to_string());
    assert_eq!(failed.message(), "zfs x failed with status -256: why");
    assert_eq!(ZfsError::Spawn("zfs".to_string(), "gone".to_string()).message(), "failed to run zfs: gone");
}
