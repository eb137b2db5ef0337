//! Backing up the state of a node and the data of its volumes, and bringing both back.
//!
//! Both are sequences of steps that work on files, jails and datasets. A run says which step is next, is
//! told what came of it, and goes on from there.

use crate::agent::volumes::{dataset_of, volume_dataset_path};
use crate::fs_copy::{
    copied_from, copied_to, is_below, is_entry_name, law_copies_come_back, lemma_in_backups, same_at, skipped, top_name,
    wiped,
};
use crate::jail::{VolumeMount, VolumeMountView};
use crate::strmap::StrMap;
use crate::text::{between, chars_of, in_order, sort, string_of};
use crate::views::{opt_view, views};
use crate::zfs::error::{ZfsError, ZfsErrorView};
use vstd::prelude::*;
use vstd::string::*;

verus! {

/// Why a backup or a restore ended early.
#[derive(Debug, Clone, PartialEq, Eq)]
pub enum BackupError {
    Io(String),
    Reconcile(String),
    Zfs(ZfsError),
    /// There is no backup of this id.
    UnknownBackup(String),
}

/// What a [`BackupError`] holds.
#[verifier::ext_equal]
pub enum BackupErrorView {
    Io(Seq<char>),
    Reconcile(Seq<char>),
    Zfs(ZfsErrorView),
    UnknownBackup(Seq<char>),
}

impl View for BackupError {
    type V = BackupErrorView;

    open spec fn view(&self) -> BackupErrorView {
        match self {
            BackupError::Io(reason) => BackupErrorView::Io(reason@),
            BackupError::Reconcile(reason) => BackupErrorView::Reconcile(reason@),
            BackupError::Zfs(e) => BackupErrorView::Zfs(e@),
            BackupError::UnknownBackup(id) => BackupErrorView::UnknownBackup(id@),
        }
    }
}

impl BackupErrorView {
    pub open spec fn text(self) -> Seq<char> {
        match self {
            BackupErrorView::Io(reason) => "I/O error: "@ + reason,
            BackupErrorView::Reconcile(reason) => reason,
            BackupErrorView::Zfs(e) => e.text(),
            BackupErrorView::UnknownBackup(id) => "no backup '"@ + id + "' found"@,
        }
    }
}

impl BackupError {
    /// The error in words.
    pub fn message(&self) -> (r: String)
        ensures
            r@ == self@.text(),
    {
        match self {
            BackupError::Io(reason) => {
                let mut out = "I/O error: ".to_owned();
                out.append(reason.as_str());
                out
            },
            BackupError::Reconcile(reason) => reason.clone(),
            BackupError::Zfs(e) => e.message(),
            BackupError::UnknownBackup(id) => between("no backup '", id.as_str(), "' found"),
        }
    }
}

/// A directory below that of the state: `backups`, the id of a backup and a part of it.
pub open spec fn backup_path(id: Seq<char>, part: Seq<char>) -> Seq<char> {
    "backups/"@ + id + "/"@ + part
}

fn path_of(id: &str, part: &str) -> (r: String)
    ensures
        r@ == backup_path(id@, part@),
{
    let mut out = "backups/".to_owned();
    out.append(id);
    out.append("/");
    out.append(part);
    out
}

/// Where the records of a backup are.
pub fn agent_dir(id: &str) -> (r: String)
    ensures
        r@ == backup_path(id@, "agent"@),
{
    path_of(id, "agent")
}

/// Where the streams of a backup are.
pub fn zfs_dir(id: &str) -> (r: String)
    ensures
        r@ == backup_path(id@, "zfs"@),
{
    path_of(id, "zfs")
}

/// The file of a volume's stream.
pub fn stream_file(volume: &str) -> (r: String)
    ensures
        r@ == volume@ + ".zfs"@,
{
    let mut out = volume.to_owned();
    out.append(".zfs");
    out
}

/// The file that a volume's stream is written to before it is complete. A restore does not look at it.
pub fn staging_file(volume: &str) -> (r: String)
    ensures
        r@ == volume@ + ".zfs.tmp"@,
{
    let mut out = volume.to_owned();
    out.append(".zfs.tmp");
    out
}

/// What a backup does next.
#[derive(Debug, Clone, Copy, PartialEq, Eq, Structural)]
pub enum BackupStage {
    /// Copy the records, all but the entry `backups` at the top.
    CopyState,
    /// List the volumes.
    ListVolumes,
    /// Make the directory for the streams.
    MakeDir,
    /// Take a snapshot of the first volume that is left.
    Snapshot,
    /// Send that snapshot to the staging file, and give the file its name once it is complete.
    Send,
    /// Remove the staging file, whether or not that works.
    RemoveStaging,
    /// Destroy the snapshot, whether or not that works.
    DestroySnapshot,
    Finished,
}

/// What came of a step of a backup.
pub enum BackupEvent {
    Done,
    Volumes(Vec<String>),
    Failed(BackupError),
}

/// A backup on its way.
pub struct BackupRun {
    stage: BackupStage,
    volumes: Vec<String>,
    next: usize,
    succeeded: Vec<String>,
    failed: Vec<String>,
    error: Option<BackupError>,
}

/// What a [`BackupRun`] holds.
#[verifier::ext_equal]
pub struct BackupView {
    pub stage: BackupStage,
    /// The volumes that are left.
    pub volumes: Seq<Seq<char>>,
    pub succeeded: Seq<Seq<char>>,
    pub failed: Seq<Seq<char>>,
    pub error: Option<BackupErrorView>,
}

impl View for BackupRun {
    type V = BackupView;

    closed spec fn view(&self) -> BackupView {
        BackupView {
            stage: self.stage,
            volumes: views(self.volumes@).skip(self.next as int),
            succeeded: views(self.succeeded@),
            failed: views(self.failed@),
            error: opt_view(self.error),
        }
    }
}

impl BackupView {
    pub open spec fn start() -> BackupView {
        BackupView {
            stage: BackupStage::CopyState,
            volumes: Seq::empty(),
            succeeded: Seq::empty(),
            failed: Seq::empty(),
            error: None,
        }
    }

    /// The run at its next volume, or at its end.
    pub open spec fn at_next_volume(self) -> BackupView {
        BackupView {
            stage: if self.volumes.len() == 0 {
                BackupStage::Finished
            } else {
                BackupStage::Snapshot
            },
            ..self
        }
    }

    /// The run after the first volume that was left is done with.
    pub open spec fn volume_done(self, ok: bool) -> BackupView {
        let rest = BackupView { volumes: self.volumes.skip(1), ..self };
        if ok {
            (BackupView { succeeded: self.succeeded.push(self.volumes[0]), ..rest }).at_next_volume()
        } else {
            (BackupView { failed: self.failed.push(self.volumes[0]), ..rest }).at_next_volume()
        }
    }

    /// The run after an event. One volume that fails does not keep the others from being backed up;
    /// anything else that fails ends the run. An event that a step does not wait for changes nothing.
    pub open spec fn after(self, event: BackupEvent) -> BackupView {
        match (self.stage, event) {
            (BackupStage::CopyState, BackupEvent::Done) => BackupView { stage: BackupStage::ListVolumes, ..self },
            (BackupStage::ListVolumes, BackupEvent::Volumes(v)) => BackupView {
                stage: BackupStage::MakeDir,
                volumes: views(v@),
                ..self
            },
            (BackupStage::MakeDir, BackupEvent::Done) => self.at_next_volume(),
            (BackupStage::CopyState, BackupEvent::Failed(e)) => BackupView {
                stage: BackupStage::Finished,
                error: Some(e@),
                ..self
            },
            (BackupStage::ListVolumes, BackupEvent::Failed(e)) => BackupView {
                stage: BackupStage::Finished,
                error: Some(e@),
                ..self
            },
            (BackupStage::MakeDir, BackupEvent::Failed(e)) => BackupView {
                stage: BackupStage::Finished,
                error: Some(e@),
                ..self
            },
            (BackupStage::Snapshot, BackupEvent::Done) => BackupView { stage: BackupStage::Send, ..self },
            (BackupStage::Snapshot, BackupEvent::Failed(_)) => self.volume_done(false),
            (BackupStage::Send, BackupEvent::Done) => self.volume_done(true),
            (BackupStage::Send, BackupEvent::Failed(_)) => BackupView { stage: BackupStage::RemoveStaging, ..self },
            (BackupStage::RemoveStaging, BackupEvent::Done) => BackupView {
                stage: BackupStage::DestroySnapshot,
                ..self
            },
            (BackupStage::RemoveStaging, BackupEvent::Failed(_)) => BackupView {
                stage: BackupStage::DestroySnapshot,
                ..self
            },
            (BackupStage::DestroySnapshot, BackupEvent::Done) => self.volume_done(false),
            (BackupStage::DestroySnapshot, BackupEvent::Failed(_)) => self.volume_done(false),
            _ => self,
        }
    }

    /// A stage that works on a volume has one.
    pub open spec fn has_volume(self) -> bool {
        match self.stage {
            BackupStage::Snapshot => self.volumes.len() > 0,
            BackupStage::Send => self.volumes.len() > 0,
            BackupStage::RemoveStaging => self.volumes.len() > 0,
            BackupStage::DestroySnapshot => self.volumes.len() > 0,
            _ => true,
        }
    }

    /// The run after some events.
    pub open spec fn after_all(self, events: Seq<BackupEvent>) -> BackupView
        decreases events.len(),
    {
        if events.len() == 0 {
            self
        } else {
            self.after_all(events.drop_last()).after(events.last())
        }
    }
}

impl BackupRun {
    pub closed spec fn wf(&self) -> bool {
        self.next <= self.volumes@.len() && self@.has_volume()
    }

    pub fn new() -> (r: Self)
        ensures
            r.wf(),
            r@ == BackupView::start(),
    {
        let r = BackupRun {
            stage: BackupStage::CopyState,
            volumes: Vec::new(),
            next: 0,
            succeeded: Vec::new(),
            failed: Vec::new(),
            error: None,
        };
        assert(r@ =~= BackupView::start());
        r
    }

    /// What to do next.
    pub fn stage(&self) -> (r: BackupStage)
        ensures
            r == self@.stage,
    {
        self.stage
    }

    /// The volume that the next step works on.
    pub fn volume(&self) -> (r: Option<&str>)
        requires
            self.wf(),
        ensures
            match r {
                Some(v) => self@.volumes.len() > 0 && v@ == self@.volumes[0],
                None => self@.volumes.len() == 0,
            },
    {
        if self.next < self.volumes.len() {
            assert(self@.volumes[0] == self.volumes@[self.next as int]@);
            Some(self.volumes[self.next].as_str())
        } else {
            None
        }
    }

    fn go_to_next_volume(&mut self)
        requires
            old(self).next <= old(self).volumes@.len(),
        ensures
            final(self).wf(),
            final(self)@ == old(self)@.at_next_volume(),
    {
        if self.next < self.volumes.len() {
            self.stage = BackupStage::Snapshot;
        } else {
            self.stage = BackupStage::Finished;
        }
        assert(self@ =~= old(self)@.at_next_volume());
    }

    fn finish_volume(&mut self, ok: bool)
        requires
            old(self).next < old(self).volumes@.len(),
        ensures
            final(self).wf(),
            final(self)@ == old(self)@.volume_done(ok),
    {
        let name = self.volumes[self.next].clone();
        assert(old(self)@.volumes[0] == name@);
        let ghost succeeded = self.succeeded@;
        let ghost failed = self.failed@;
        let ghost added = name@;
        if ok {
            self.succeeded.push(name);
            assert(views(self.succeeded@) =~= views(succeeded).push(added));
        } else {
            self.failed.push(name);
            assert(views(self.failed@) =~= views(failed).push(added));
        }
        let total: usize = self.volumes.len();
        assert(self.next < total);
        self.next = self.next + 1;
        assert(views(self.volumes@).skip(self.next as int) =~= old(self)@.volumes.skip(1));
        self.go_to_next_volume();
        assert(self@ =~= old(self)@.volume_done(ok));
    }

    /// Goes on from what came of the step.
    pub fn report(&mut self, event: BackupEvent)
        requires
            old(self).wf(),
        ensures
            final(self).wf(),
            final(self)@ == old(self)@.after(event),
    {
        let ghost given = event;
        match self.stage {
            BackupStage::CopyState => match event {
                BackupEvent::Done => {
                    self.stage = BackupStage::ListVolumes;
                },
                BackupEvent::Failed(e) => {
                    self.stage = BackupStage::Finished;
                    self.error = Some(e);
                },
                BackupEvent::Volumes(_) => {},
            },
            BackupStage::ListVolumes => match event {
                BackupEvent::Volumes(v) => {
                    self.stage = BackupStage::MakeDir;
                    self.volumes = v;
                    self.next = 0;
                    assert(views(self.volumes@).skip(0) =~= views(self.volumes@));
                },
                BackupEvent::Failed(e) => {
                    self.stage = BackupStage::Finished;
                    self.error = Some(e);
                },
                BackupEvent::Done => {},
            },
            BackupStage::MakeDir => match event {
                BackupEvent::Done => {
                    self.go_to_next_volume();
                },
                BackupEvent::Failed(e) => {
                    self.stage = BackupStage::Finished;
                    self.error = Some(e);
                },
                BackupEvent::Volumes(_) => {},
            },
            BackupStage::Snapshot => match event {
                BackupEvent::Done => {
                    self.stage = BackupStage::Send;
                },
                BackupEvent::Failed(_) => {
                    self.finish_volume(false);
                },
                BackupEvent::Volumes(_) => {},
            },
            BackupStage::Send => match event {
                BackupEvent::Done => {
                    self.finish_volume(true);
                },
                BackupEvent::Failed(_) => {
                    self.stage = BackupStage::RemoveStaging;
                },
                BackupEvent::Volumes(_) => {},
            },
            BackupStage::RemoveStaging => match event {
                BackupEvent::Volumes(_) => {},
                _ => {
                    self.stage = BackupStage::DestroySnapshot;
                },
            },
            BackupStage::DestroySnapshot => match event {
                BackupEvent::Volumes(_) => {},
                _ => {
                    self.finish_volume(false);
                },
            },
            BackupStage::Finished => {},
        }
        assert(self@ =~= old(self)@.after(given));
    }

    /// The volumes that a finished run has backed up and those that it has not, or why it ended early.
    pub fn result(self) -> (r: Result<(Vec<String>, Vec<String>), BackupError>)
        requires
            self@.stage == BackupStage::Finished,
        ensures
            match r {
                Ok((succeeded, failed)) => self@.error is None && views(succeeded@) == self@.succeeded && views(
                    failed@,
                ) == self@.failed,
                Err(e) => self@.error == Some(e@),
            },
    {
        match self.error {
            Some(e) => Err(e),
            None => Ok((self.succeeded, self.failed)),
        }
    }
}

/// What a restore does next.
#[derive(Debug, Clone, Copy, PartialEq, Eq, Structural)]
pub enum RestoreStage {
    /// Ask whether the backup has a directory of records.
    CheckBackup,
    /// List the jails.
    ListJails,
    /// Delete the first jail that is left.
    DeleteJail,
    /// Remove the records, all but the entry `backups` at the top.
    WipeState,
    /// Copy the records of the backup back.
    CopyBack,
    /// Read the records that are there now.
    LoadRecords,
    /// List the files with streams.
    ListStreams,
    /// Ask whether the dataset of the first volume that is left exists.
    CheckDataset,
    /// Destroy that dataset with its snapshots.
    DestroyDataset,
    /// Receive the volume's stream.
    Receive,
    /// Give the dataset the quota that a record declares.
    SetQuota,
    /// Say that no record declares the volume, so it gets no quota.
    WarnNoQuota,
    Finished,
}

/// What came of a step of a restore.
pub enum RestoreEvent {
    Done,
    /// An answer to a question.
    Yes(bool),
    /// The names of the jails, or of the files with streams.
    Names(Vec<String>),
    /// There is no directory of streams.
    NoStreams,
    /// The volumes that the records declare, in the order of the records.
    Declared(Vec<VolumeMount>),
    Failed(BackupError),
}

/// A restore on its way.
pub struct RestoreRun {
    backup_id: String,
    stage: RestoreStage,
    jails: Vec<String>,
    next_jail: usize,
    volumes: Vec<String>,
    next_volume: usize,
    sizes: StrMap<String>,
    error: Option<BackupError>,
}

/// What a [`RestoreRun`] holds.
#[verifier::ext_equal]
pub struct RestoreView {
    pub backup_id: Seq<char>,
    pub stage: RestoreStage,
    /// The jails that are left to delete.
    pub jails: Seq<Seq<char>>,
    /// The volumes that are left to restore.
    pub volumes: Seq<Seq<char>>,
    /// The declared size of each volume.
    pub sizes: Map<Seq<char>, Seq<char>>,
    pub error: Option<BackupErrorView>,
}

impl View for RestoreRun {
    type V = RestoreView;

    closed spec fn view(&self) -> RestoreView {
        RestoreView {
            backup_id: self.backup_id@,
            stage: self.stage,
            jails: views(self.jails@).skip(self.next_jail as int),
            volumes: views(self.volumes@).skip(self.next_volume as int),
            sizes: self.sizes.map().map_values(|s: String| s@),
            error: opt_view(self.error),
        }
    }
}

/// The sizes that some volumes declare; of two volumes of one name the later counts.
pub open spec fn sizes_of(declared: Seq<VolumeMountView>) -> Map<Seq<char>, Seq<char>>
    decreases declared.len(),
{
    if declared.len() == 0 {
        Map::empty()
    } else {
        sizes_of(declared.drop_last()).insert(declared.last().name, declared.last().size)
    }
}

/// A file that holds the stream of a volume.
pub open spec fn is_stream(file: Seq<char>) -> bool {
    let suffix = ".zfs"@;
    suffix.len() <= file.len() && file.skip(file.len() - suffix.len()) == suffix
}

/// The volume whose stream a file holds.
pub open spec fn volume_of(file: Seq<char>) -> Seq<char> {
    file.take(file.len() - ".zfs"@.len())
}

/// The volumes whose streams some files hold, in the order of the files.
pub open spec fn volumes_of(files: Seq<Seq<char>>) -> Seq<Seq<char>>
    decreases files.len(),
{
    if files.len() == 0 {
        Seq::empty()
    } else if is_stream(files.last()) {
        volumes_of(files.drop_last()).push(volume_of(files.last()))
    } else {
        volumes_of(files.drop_last())
    }
}

/// Some files in ascending order of their names.
pub open spec fn is_sorting(files: Seq<Seq<char>>, sorted: Seq<Seq<char>>) -> bool {
    in_order(sorted) && sorted.to_multiset() == files.to_multiset()
}

impl RestoreView {
    pub open spec fn start(id: Seq<char>) -> RestoreView {
        RestoreView {
            backup_id: id,
            stage: RestoreStage::CheckBackup,
            jails: Seq::empty(),
            volumes: Seq::empty(),
            sizes: Map::empty(),
            error: None,
        }
    }

    pub open spec fn at(self, stage: RestoreStage) -> RestoreView {
        RestoreView { stage, ..self }
    }

    pub open spec fn failed(self, e: BackupErrorView) -> RestoreView {
        RestoreView { stage: RestoreStage::Finished, error: Some(e), ..self }
    }

    /// The run at its next jail to delete, or at the wiping of the records.
    pub open spec fn at_next_jail(self) -> RestoreView {
        self.at(
            if self.jails.len() == 0 {
                RestoreStage::WipeState
            } else {
                RestoreStage::DeleteJail
            },
        )
    }

    /// The run at its next volume, or at its end.
    pub open spec fn at_next_volume(self) -> RestoreView {
        self.at(
            if self.volumes.len() == 0 {
                RestoreStage::Finished
            } else {
                RestoreStage::CheckDataset
            },
        )
    }

    /// The run after the first volume that was left is done with.
    pub open spec fn volume_done(self) -> RestoreView {
        (RestoreView { volumes: self.volumes.skip(1), ..self }).at_next_volume()
    }

    /// What the run may be after an event. Only the order of the files with streams is not told by the
    /// event: it is that of their names. An event that a step does not wait for changes nothing.
    pub open spec fn leads_to(self, event: RestoreEvent, after: RestoreView) -> bool {
        if event is Failed {
            after == if self.stage == RestoreStage::Finished {
                self
            } else {
                self.failed(event->Failed_0@)
            }
        } else {
            match self.stage {
                RestoreStage::CheckBackup => after == match event {
                    RestoreEvent::Yes(true) => self.at(RestoreStage::ListJails),
                    RestoreEvent::Yes(false) => self.failed(BackupErrorView::UnknownBackup(self.backup_id)),
                    _ => self,
                },
                RestoreStage::ListJails => after == match event {
                    RestoreEvent::Names(names) => (RestoreView { jails: views(names@), ..self }).at_next_jail(),
                    _ => self,
                },
                RestoreStage::DeleteJail => after == match event {
                    RestoreEvent::Done => (RestoreView { jails: self.jails.skip(1), ..self }).at_next_jail(),
                    _ => self,
                },
                RestoreStage::WipeState => after == match event {
                    RestoreEvent::Done => self.at(RestoreStage::CopyBack),
                    _ => self,
                },
                RestoreStage::CopyBack => after == match event {
                    RestoreEvent::Done => self.at(RestoreStage::LoadRecords),
                    _ => self,
                },
                RestoreStage::LoadRecords => after == match event {
                    RestoreEvent::Declared(declared) => (RestoreView {
                        sizes: sizes_of(views(declared@)),
                        ..self
                    }).at(RestoreStage::ListStreams),
                    _ => self,
                },
                RestoreStage::ListStreams => match event {
                    RestoreEvent::NoStreams => after == self.at(RestoreStage::Finished),
                    RestoreEvent::Names(files) => exists|sorted: Seq<Seq<char>>| #[trigger]
                        is_sorting(views(files@), sorted) && after == (RestoreView {
                            volumes: volumes_of(sorted),
                            ..self
                        }).at_next_volume(),
                    _ => after == self,
                },
                RestoreStage::CheckDataset => after == match event {
                    RestoreEvent::Yes(true) => self.at(RestoreStage::DestroyDataset),
                    RestoreEvent::Yes(false) => self.at(RestoreStage::Receive),
                    _ => self,
                },
                RestoreStage::DestroyDataset => after == match event {
                    RestoreEvent::Done => self.at(RestoreStage::Receive),
                    _ => self,
                },
                RestoreStage::Receive => after == match event {
                    RestoreEvent::Done => self.at(
                        if self.sizes.dom().contains(self.volumes[0]) {
                            RestoreStage::SetQuota
                        } else {
                            RestoreStage::WarnNoQuota
                        },
                    ),
                    _ => self,
                },
                RestoreStage::SetQuota => after == match event {
                    RestoreEvent::Done => self.volume_done(),
                    _ => self,
                },
                RestoreStage::WarnNoQuota => after == match event {
                    RestoreEvent::Done => self.volume_done(),
                    _ => self,
                },
                RestoreStage::Finished => after == self,
            }
        }
    }

    /// A stage that works on a jail or a volume has one.
    pub open spec fn has_subject(self) -> bool {
        match self.stage {
            RestoreStage::DeleteJail => self.jails.len() > 0,
            RestoreStage::CheckDataset => self.volumes.len() > 0,
            RestoreStage::DestroyDataset => self.volumes.len() > 0,
            RestoreStage::Receive => self.volumes.len() > 0,
            RestoreStage::SetQuota => self.volumes.len() > 0 && self.sizes.dom().contains(self.volumes[0]),
            RestoreStage::WarnNoQuota => self.volumes.len() > 0 && !self.sizes.dom().contains(self.volumes[0]),
            _ => true,
        }
    }
}

fn table_of_sizes(declared: &Vec<VolumeMount>) -> (r: StrMap<String>)
    ensures
        r.wf(),
        r.map().map_values(|s: String| s@) == sizes_of(views(declared@)),
{
    let ghost all = views(declared@);
    let mut out: StrMap<String> = StrMap::new();
    let mut i: usize = 0;
    assert(all.take(0) =~= Seq::empty());
    assert(out.map().map_values(|s: String| s@) =~= sizes_of(all.take(0)));
    while i < declared.len()
        invariant
            all == views(declared@),
            i <= declared@.len(),
            out.wf(),
            out.map().map_values(|s: String| s@) == sizes_of(all.take(i as int)),
        decreases declared.len() - i,
    {
        let ghost before_insert = out.map().map_values(|s: String| s@);
        assert(all.take(i + 1).drop_last() =~= all.take(i as int));
        assert(all.take(i + 1).last() == declared@[i as int]@);
        out.insert(declared[i].name.clone(), declared[i].size.clone());
        assert(out.map().map_values(|s: String| s@) =~= before_insert.insert(
            declared@[i as int].name@,
            declared@[i as int].size@,
        ));
        i = i + 1;
    }
    assert(all.take(i as int) =~= all);
    out
}

fn volume_in(file: &str) -> (r: Option<String>)
    ensures
        r is Some <==> is_stream(file@),
        r matches Some(v) ==> v@ == volume_of(file@),
{
    proof {
        reveal_strlit(".zfs");
    }
    let v = chars_of(file);
    let n: usize = v.len();
    if n < 4 {
        return None;
    }
    let end = string_of(&v, n - 4, n);
    assert(end@ =~= file@.skip(n - 4));
    if crate::text::same(end.as_str(), ".zfs") {
        let name = string_of(&v, 0, n - 4);
        assert(name@ =~= volume_of(file@));
        Some(name)
    } else {
        None
    }
}

fn volumes_in(files: &Vec<String>) -> (r: Vec<String>)
    ensures
        views(r@) == volumes_of(views(files@)),
{
    let ghost all = views(files@);
    let mut out: Vec<String> = Vec::new();
    let mut i: usize = 0;
    assert(all.take(0) =~= Seq::empty());
    while i < files.len()
        invariant
            all == views(files@),
            i <= files@.len(),
            views(out@) == volumes_of(all.take(i as int)),
        decreases files.len() - i,
    {
        let ghost before_push = out@;
        assert(all.take(i + 1).drop_last() =~= all.take(i as int));
        assert(all.take(i + 1).last() == files@[i as int]@);
        if let Some(name) = volume_in(files[i].as_str()) {
            let ghost added = name@;
            out.push(name);
            assert(views(out@) =~= views(before_push).push(added));
        }
        i = i + 1;
    }
    assert(all.take(i as int) =~= all);
    out
}

impl RestoreRun {
    pub closed spec fn wf(&self) -> bool {
        &&& self.next_jail <= self.jails@.len()
        &&& self.next_volume <= self.volumes@.len()
        &&& self.sizes.wf()
        &&& self@.has_subject()
    }

    pub fn new(backup_id: &str) -> (r: Self)
        ensures
            r.wf(),
            r@ == RestoreView::start(backup_id@),
    {
        let r = RestoreRun {
            backup_id: backup_id.to_owned(),
            stage: RestoreStage::CheckBackup,
            jails: Vec::new(),
            next_jail: 0,
            volumes: Vec::new(),
            next_volume: 0,
            sizes: StrMap::new(),
            error: None,
        };
        assert(r@ =~= RestoreView::start(backup_id@));
        r
    }

    /// What to do next.
    pub fn stage(&self) -> (r: RestoreStage)
        ensures
            r == self@.stage,
    {
        self.stage
    }

    /// The jail that is deleted next.
    pub fn jail(&self) -> (r: Option<&str>)
        requires
            self.wf(),
        ensures
            match r {
                Some(j) => self@.jails.len() > 0 && j@ == self@.jails[0],
                None => self@.jails.len() == 0,
            },
    {
        if self.next_jail < self.jails.len() {
            assert(self@.jails[0] == self.jails@[self.next_jail as int]@);
            Some(self.jails[self.next_jail].as_str())
        } else {
            None
        }
    }

    /// The volume that is worked on next.
    pub fn volume(&self) -> (r: Option<&str>)
        requires
            self.wf(),
        ensures
            match r {
                Some(v) => self@.volumes.len() > 0 && v@ == self@.volumes[0],
                None => self@.volumes.len() == 0,
            },
    {
        if self.next_volume < self.volumes.len() {
            assert(self@.volumes[0] == self.volumes@[self.next_volume as int]@);
            Some(self.volumes[self.next_volume].as_str())
        } else {
            None
        }
    }

    /// The dataset of the volume that is worked on next.
    pub fn dataset(&self, pool: &str) -> (r: Option<String>)
        requires
            self.wf(),
        ensures
            opt_view(r) == if self@.volumes.len() > 0 {
                Some(dataset_of(pool@, self@.volumes[0]))
            } else {
                None
            },
    {
        match self.volume() {
            Some(v) => Some(volume_dataset_path(pool, v)),
            None => None,
        }
    }

    /// The quota that the records declare for the volume that is worked on next.
    pub fn quota(&self) -> (r: Option<String>)
        requires
            self.wf(),
        ensures
            opt_view(r) == if self@.volumes.len() > 0 && self@.sizes.dom().contains(self@.volumes[0]) {
                Some(self@.sizes[self@.volumes[0]])
            } else {
                None
            },
    {
        match self.volume() {
            Some(v) => match self.sizes.get(v) {
                Some(size) => Some(size.clone()),
                None => None,
            },
            None => None,
        }
    }

    fn go_to_next_jail(&mut self)
        requires
            old(self).next_jail <= old(self).jails@.len(),
            old(self).next_volume <= old(self).volumes@.len(),
            old(self).sizes.wf(),
        ensures
            final(self).wf(),
            final(self)@ == old(self)@.at_next_jail(),
    {
        if self.next_jail < self.jails.len() {
            self.stage = RestoreStage::DeleteJail;
        } else {
            self.stage = RestoreStage::WipeState;
        }
        assert(self@ =~= old(self)@.at_next_jail());
    }

    fn go_to_next_volume(&mut self)
        requires
            old(self).next_jail <= old(self).jails@.len(),
            old(self).next_volume <= old(self).volumes@.len(),
            old(self).sizes.wf(),
        ensures
            final(self).wf(),
            final(self)@ == old(self)@.at_next_volume(),
    {
        if self.next_volume < self.volumes.len() {
            self.stage = RestoreStage::CheckDataset;
        } else {
            self.stage = RestoreStage::Finished;
        }
        assert(self@ =~= old(self)@.at_next_volume());
    }

    fn finish_volume(&mut self)
        requires
            old(self).wf(),
            old(self)@.volumes.len() > 0,
        ensures
            final(self).wf(),
            final(self)@ == old(self)@.volume_done(),
    {
        let total: usize = self.volumes.len();
        assert(self.next_volume < total);
        self.next_volume = self.next_volume + 1;
        assert(views(self.volumes@).skip(self.next_volume as int) =~= old(self)@.volumes.skip(1));
        assert(self@ =~= (RestoreView { volumes: old(self)@.volumes.skip(1), ..old(self)@ }));
        self.go_to_next_volume();
    }

    fn fail(&mut self, e: BackupError)
        requires
            old(self).wf(),
        ensures
            final(self).wf(),
            final(self)@ == if old(self)@.stage == RestoreStage::Finished {
                old(self)@
            } else {
                old(self)@.failed(e@)
            },
    {
        if self.stage == RestoreStage::Finished {
            return;
        }
        let ghost given = e@;
        self.stage = RestoreStage::Finished;
        self.error = Some(e);
        assert(self@ =~= old(self)@.failed(given));
    }

    /// Goes on from what came of the step.
    pub fn report(&mut self, event: RestoreEvent)
        requires
            old(self).wf(),
        ensures
            final(self).wf(),
            old(self)@.leads_to(event, final(self)@),
    {
        let ghost before_call = self@;
        match event {
            RestoreEvent::Failed(e) => {
                self.fail(e);
            },
            RestoreEvent::Yes(answer) => match self.stage {
                RestoreStage::CheckBackup => {
                    if answer {
                        self.stage = RestoreStage::ListJails;
                        assert(self@ =~= before_call.at(RestoreStage::ListJails));
                    } else {
                        let id = self.backup_id.clone();
                        self.fail(BackupError::UnknownBackup(id));
                    }
                },
                RestoreStage::CheckDataset => {
                    self.stage = if answer {
                        RestoreStage::DestroyDataset
                    } else {
                        RestoreStage::Receive
                    };
                    assert(self@ =~= before_call.at(self.stage));
                },
                _ => {},
            },
            RestoreEvent::Names(names) => match self.stage {
                RestoreStage::ListJails => {
                    self.jails = names;
                    self.next_jail = 0;
                    assert(views(self.jails@).skip(0) =~= views(self.jails@));
                    assert(self@ =~= (RestoreView { jails: views(names@), ..before_call }));
                    self.go_to_next_jail();
                },
                RestoreStage::ListStreams => {
                    let ghost files = views(names@);
                    let sorted = sort(names);
                    let ghost order = views(sorted@);
                    assert(is_sorting(files, order));
                    self.volumes = volumes_in(&sorted);
                    self.next_volume = 0;
                    assert(views(self.volumes@).skip(0) =~= views(self.volumes@));
                    assert(self@ =~= (RestoreView { volumes: volumes_of(order), ..before_call }));
                    self.go_to_next_volume();
                },
                _ => {},
            },
            RestoreEvent::NoStreams => match self.stage {
                RestoreStage::ListStreams => {
                    self.stage = RestoreStage::Finished;
                    assert(self@ =~= before_call.at(RestoreStage::Finished));
                },
                _ => {},
            },
            RestoreEvent::Declared(declared) => match self.stage {
                RestoreStage::LoadRecords => {
                    self.sizes = table_of_sizes(&declared);
                    self.stage = RestoreStage::ListStreams;
                    assert(self@ =~= (RestoreView { sizes: sizes_of(views(declared@)), ..before_call }).at(
                        RestoreStage::ListStreams,
                    ));
                },
                _ => {},
            },
            RestoreEvent::Done => match self.stage {
                RestoreStage::DeleteJail => {
                    let total: usize = self.jails.len();
                    assert(self.next_jail < total);
                    self.next_jail = self.next_jail + 1;
                    assert(views(self.jails@).skip(self.next_jail as int) =~= before_call.jails.skip(1));
                    assert(self@ =~= (RestoreView { jails: before_call.jails.skip(1), ..before_call }));
                    self.go_to_next_jail();
                },
                RestoreStage::WipeState => {
                    self.stage = RestoreStage::CopyBack;
                    assert(self@ =~= before_call.at(RestoreStage::CopyBack));
                },
                RestoreStage::CopyBack => {
                    self.stage = RestoreStage::LoadRecords;
                    assert(self@ =~= before_call.at(RestoreStage::LoadRecords));
                },
                RestoreStage::DestroyDataset => {
                    self.stage = RestoreStage::Receive;
                    assert(self@ =~= before_call.at(RestoreStage::Receive));
                },
                RestoreStage::Receive => {
                    self.stage = if self.quota().is_some() {
                        RestoreStage::SetQuota
                    } else {
                        RestoreStage::WarnNoQuota
                    };
                    assert(self@ =~= before_call.at(self.stage));
                },
                RestoreStage::SetQuota => {
                    self.finish_volume();
                },
                RestoreStage::WarnNoQuota => {
                    self.finish_volume();
                },
                _ => {},
            },
        }
    }

    /// Whether a finished run went well.
    pub fn result(self) -> (r: Result<(), BackupError>)
        requires
            self@.stage == RestoreStage::Finished,
        ensures
            match r {
                Ok(_) => self@.error is None,
                Err(e) => self@.error == Some(e@),
            },
    {
        match self.error {
            Some(e) => Err(e),
            None => Ok(()),
        }
    }
}

/// These places in a sequence hold a part of it, in its order.
pub open spec fn picks_out(part: Seq<Seq<char>>, whole: Seq<Seq<char>>, places: Seq<int>) -> bool {
    &&& places.len() == part.len()
    &&& forall|i: int|
        0 <= i < places.len() ==> 0 <= #[trigger] places[i] < whole.len() && whole[places[i]] == part[i]
    &&& forall|i: int, j: int| 0 <= i < j < places.len() ==> #[trigger] places[i] < #[trigger] places[j]
}

/// A sequence is what is left of another when some elements are taken out.
pub open spec fn is_part(part: Seq<Seq<char>>, whole: Seq<Seq<char>>) -> bool {
    exists|places: Seq<int>| #[trigger] picks_out(part, whole, places)
}

proof fn lemma_part_grows(part: Seq<Seq<char>>, whole: Seq<Seq<char>>, more: Seq<Seq<char>>)
    requires
        is_part(part, whole),
    ensures
        is_part(part, whole + more),
        more.len() > 0 ==> is_part(part.push(more[0]), whole + more),
{
    let places = choose|places: Seq<int>| #[trigger] picks_out(part, whole, places);
    assert(picks_out(part, whole + more, places));
    if more.len() > 0 {
        let longer = places.push(whole.len() as int);
        assert(picks_out(part.push(more[0]), whole + more, longer));
    }
}

proof fn lemma_backup_keeps_the_order(listed: Vec<String>, events: Seq<BackupEvent>)
    ensures
        ({
            let run = BackupView::start().after(BackupEvent::Done).after(BackupEvent::Volumes(listed)).after_all(events);
            let done = run.succeeded.len() + run.failed.len();
            &&& done <= listed@.len()
            &&& run.volumes == views(listed@).skip(done as int)
            &&& is_part(run.succeeded, views(listed@).take(done as int))
            &&& is_part(run.failed, views(listed@).take(done as int))
        }),
    decreases events.len(),
{
    let base = BackupView::start().after(BackupEvent::Done).after(BackupEvent::Volumes(listed));
    let all = views(listed@);
    if events.len() == 0 {
        assert(all.skip(0) =~= all);
        assert(picks_out(base.succeeded, all.take(0), Seq::empty()));
        assert(picks_out(base.failed, all.take(0), Seq::empty()));
    } else {
        lemma_backup_keeps_the_order(listed, events.drop_last());
        lemma_backup_has_volume(listed, events.drop_last());
        let p = base.after_all(events.drop_last());
        let q = p.after(events.last());
        let done = (p.succeeded.len() + p.failed.len()) as int;
        if q.volumes != p.volumes {
            assert(all.skip(done).skip(1) =~= all.skip(done + 1));
            assert(all.take(done + 1) =~= all.take(done) + seq![all[done]]);
            lemma_part_grows(p.succeeded, all.take(done), seq![all[done]]);
            lemma_part_grows(p.failed, all.take(done), seq![all[done]]);
        }
    }
}

/// A backup accounts for every volume: each is listed as backed up or as failed, or is still left. Both lists are
/// in the order in which the volumes were listed.
pub proof fn law_backup_accounts_for_every_volume(listed: Vec<String>, events: Seq<BackupEvent>)
    ensures
        ({
            let run = BackupView::start().after(BackupEvent::Done).after(BackupEvent::Volumes(listed)).after_all(events);
            &&& run.succeeded.len() + run.failed.len() + run.volumes.len() == listed@.len()
            &&& (run.succeeded + run.failed + run.volumes).to_multiset() == views(listed@).to_multiset()
            &&& is_part(run.succeeded, views(listed@))
            &&& is_part(run.failed, views(listed@))
            &&& run.volumes == views(listed@).skip((run.succeeded.len() + run.failed.len()) as int)
        }),
    decreases events.len(),
{
    let whole = BackupView::start().after(BackupEvent::Done).after(BackupEvent::Volumes(listed)).after_all(events);
    let done = (whole.succeeded.len() + whole.failed.len()) as int;
    lemma_backup_keeps_the_order(listed, events);
    lemma_part_grows(whole.succeeded, views(listed@).take(done), views(listed@).skip(done));
    lemma_part_grows(whole.failed, views(listed@).take(done), views(listed@).skip(done));
    assert(views(listed@).take(done) + views(listed@).skip(done) =~= views(listed@));
    let base = BackupView::start().after(BackupEvent::Done).after(BackupEvent::Volumes(listed));
    if events.len() == 0 {
        assert(base.succeeded + base.failed + base.volumes =~= views(listed@));
    } else {
        law_backup_accounts_for_every_volume(listed, events.drop_last());
        lemma_backup_has_volume(listed, events.drop_last());
        let p = base.after_all(events.drop_last());
        let q = p.after(events.last());
        if q.volumes != p.volumes {
            let v = p.volumes[0];
            let rest = p.volumes.skip(1);
            assert(p.volumes =~= seq![v] + rest);
            if q.succeeded != p.succeeded {
                lemma_moved(p.succeeded, p.failed, v, rest);
            } else {
                assert(p.succeeded + p.failed + p.volumes =~= (p.succeeded + p.failed).push(v) + rest);
                assert(p.succeeded + p.failed.push(v) + rest =~= (p.succeeded + p.failed).push(v) + rest);
            }
        }
    }
}

proof fn lemma_backup_has_volume(listed: Vec<String>, events: Seq<BackupEvent>)
    ensures
        ({
            let run = BackupView::start().after(BackupEvent::Done).after(BackupEvent::Volumes(listed)).after_all(events);
            run.has_volume() && !(run.stage is CopyState) && !(run.stage is ListVolumes)
        }),
    decreases events.len(),
{
    if events.len() > 0 {
        lemma_backup_has_volume(listed, events.drop_last());
    }
}

proof fn lemma_moved(a: Seq<Seq<char>>, b: Seq<Seq<char>>, v: Seq<char>, rest: Seq<Seq<char>>)
    ensures
        (a.push(v) + b + rest).to_multiset() == (a + b + (seq![v] + rest)).to_multiset(),
{
    assert(a.push(v) + b + rest =~= (a + b + rest).insert(a.len() as int, v));
    assert(a + b + (seq![v] + rest) =~= (a + b + rest).insert((a + b).len() as int, v));
    vstd::seq_lib::to_multiset_insert(a + b + rest, a.len() as int, v);
    vstd::seq_lib::to_multiset_insert(a + b + rest, (a + b).len() as int, v);
}

/// After a failed send the staging file is removed and the snapshot destroyed, before anything else is
/// done, and the volume counts as failed.
pub proof fn law_failed_sends_are_cleaned_up(run: BackupView, why: BackupError, removed: BackupEvent, destroyed: BackupEvent)
    requires
        run.stage == BackupStage::Send,
        run.volumes.len() > 0,
        removed is Volumes == false,
        destroyed is Volumes == false,
    ensures
        run.after(BackupEvent::Failed(why)).stage == BackupStage::RemoveStaging,
        run.after(BackupEvent::Failed(why)).after(removed).stage == BackupStage::DestroySnapshot,
        run.after(BackupEvent::Failed(why)).after(removed).after(destroyed).failed == run.failed.push(run.volumes[0]),
        run.after(BackupEvent::Failed(why)).after(removed).after(destroyed).succeeded == run.succeeded,
{
}

/// A step that destroys something.
pub open spec fn is_destructive(stage: RestoreStage) -> bool {
    match stage {
        RestoreStage::DeleteJail => true,
        RestoreStage::WipeState => true,
        RestoreStage::DestroyDataset => true,
        _ => false,
    }
}

/// The restore of a backup that there is not ends at once, with nothing destroyed.
pub proof fn law_unknown_backups_destroy_nothing(id: Seq<char>, after: RestoreView)
    requires
        RestoreView::start(id).leads_to(RestoreEvent::Yes(false), after),
    ensures
        !is_destructive(RestoreView::start(id).stage),
        after.stage == RestoreStage::Finished,
        after.error == Some(BackupErrorView::UnknownBackup(id)),
{
}

impl BackupStage {
    /// The files of the agent, by their paths, after a step of a backup. The streams of the volumes are
    /// left out.
    pub open spec fn on(self, id: Seq<char>, files: Map<Seq<char>, Seq<u8>>) -> Map<Seq<char>, Seq<u8>> {
        match self {
            BackupStage::CopyState => copied_to(files, backup_path(id, "agent"@), skipped()),
            _ => files,
        }
    }
}

impl RestoreStage {
    /// The files of the agent, by their paths, after a step of a restore.
    pub open spec fn on(self, id: Seq<char>, files: Map<Seq<char>, Seq<u8>>) -> Map<Seq<char>, Seq<u8>> {
        match self {
            RestoreStage::WipeState => wiped(files, skipped()),
            RestoreStage::CopyBack => copied_from(files, backup_path(id, "agent"@)),
            _ => files,
        }
    }
}

/// The records of the agent are wiped only to be copied back right after, and come back as they were when
/// the backup was made: what came later is gone. The backup must have begun empty, and must not have been
/// touched.
pub proof fn law_records_come_back(
    id: Seq<char>,
    before: Map<Seq<char>, Seq<u8>>,
    later: Map<Seq<char>, Seq<u8>>,
    run: RestoreView,
    after: RestoreView,
)
    requires
        is_entry_name(id),
        forall|path: Seq<char>|
            #[trigger] before.dom().contains(path) ==> !is_below(backup_path(id, "agent"@), path),
        forall|path: Seq<char>|
            is_below(backup_path(id, "agent"@), path) ==> #[trigger] same_at(
                later,
                BackupStage::CopyState.on(id, before),
                path,
            ),
        run.stage == RestoreStage::WipeState,
        run.leads_to(RestoreEvent::Done, after),
    ensures
        after.stage == RestoreStage::CopyBack,
        forall|path: Seq<char>|
            top_name(path) != "backups"@ ==> #[trigger] same_at(
                after.stage.on(id, run.stage.on(id, later)),
                before,
                path,
            ),
        forall|path: Seq<char>|
            top_name(path) == "backups"@ ==> #[trigger] same_at(
                after.stage.on(id, run.stage.on(id, later)),
                later,
                path,
            ),
{
    let dir = backup_path(id, "agent"@);
    assert(dir =~= "backups/"@ + (id + "/"@ + "agent"@));
    lemma_in_backups(id + "/"@ + "agent"@);
    assert(BackupStage::CopyState.on(id, before) == copied_to(before, dir, skipped()));
    law_copies_come_back(before, later, dir, skipped());
}

/// A dataset is destroyed only to receive the volume's stream right after, and only files whose names end
/// in `.zfs` count as streams, so a staging file is never one.
pub proof fn law_datasets_are_destroyed_to_be_received(run: RestoreView, event: RestoreEvent, after: RestoreView)
    requires
        run.stage == RestoreStage::DestroyDataset,
        run.leads_to(event, after),
        after.stage != run.stage,
    ensures
        after.stage == RestoreStage::Receive && after.volumes == run.volumes || after.stage == RestoreStage::Finished
            && event is Failed,
{
}

/// A staging file does not count as a stream.
pub proof fn law_staging_files_are_not_streams(volume: Seq<char>)
    ensures
        !is_stream(volume + ".zfs.tmp"@),
        is_stream(volume + ".zfs"@),
        volume_of(volume + ".zfs"@) == volume,
{
    reveal_strlit(".zfs");
    reveal_strlit(".zfs.tmp");
    let tmp = volume + ".zfs.tmp"@;
    assert(tmp.skip(tmp.len() - 4)[0] == '.');
    assert(tmp.skip(tmp.len() - 4)[1] == 't');
    assert(".zfs"@[1] == 'z');
    let done = volume + ".zfs"@;
    assert(done.skip(done.len() - 4) =~= ".zfs"@);
    assert(done.take(done.len() - 4) =~= volume);
}

/// A received volume gets the size that the records declare for it, where they declare one.
pub proof fn law_restored_volumes_get_their_quota(run: RestoreView, after: RestoreView)
    requires
        run.stage == RestoreStage::Receive,
        run.volumes.len() > 0,
        run.leads_to(RestoreEvent::Done, after),
    ensures
        run.sizes.dom().contains(run.volumes[0]) <==> after.stage == RestoreStage::SetQuota,
        after.volumes == run.volumes,
        after.sizes == run.sizes,
{
}

/// A restore went through these states, on these events.
pub open spec fn is_trace(states: Seq<RestoreView>, events: Seq<RestoreEvent>) -> bool {
    &&& states.len() == events.len() + 1
    &&& forall|k: int| 0 <= k < events.len() ==> states[k].leads_to(#[trigger] events[k], states[k + 1])
}

/// Before the `n`-th state, the stream of a volume was received.
pub open spec fn received(states: Seq<RestoreView>, events: Seq<RestoreEvent>, n: int, volume: Seq<char>) -> bool {
    exists|k: int|
        0 <= k < n && (#[trigger] events[k]) is Done && states[k].stage == RestoreStage::Receive
            && states[k].volumes.len() > 0 && states[k].volumes[0] == volume
}

/// Before the `n`-th state, a volume was given the quota that the records declare for it.
pub open spec fn limited(states: Seq<RestoreView>, events: Seq<RestoreEvent>, n: int, volume: Seq<char>) -> bool {
    exists|k: int|
        0 <= k < n && (#[trigger] events[k]) is Done && states[k].stage == RestoreStage::SetQuota
            && states[k].volumes.len() > 0 && states[k].volumes[0] == volume
}

/// What has been done to the volumes before the `n`-th state, which has no error.
spec fn volumes_so_far(states: Seq<RestoreView>, events: Seq<RestoreEvent>, all: Seq<Seq<char>>, n: int) -> bool {
    let s = states[n];
    let past = all.len() - s.volumes.len();
    &&& past >= 0
    &&& s.volumes == all.skip(past)
    &&& s.sizes == states[0].sizes
    &&& forall|i: int|
        0 <= i < past ==> received(states, events, n, #[trigger] all[i]) && (s.sizes.dom().contains(all[i])
            ==> limited(states, events, n, all[i]))
    &&& match s.stage {
        RestoreStage::CheckDataset => past < all.len(),
        RestoreStage::DestroyDataset => past < all.len(),
        RestoreStage::Receive => past < all.len(),
        RestoreStage::SetQuota => past < all.len() && received(states, events, n, all[past]),
        RestoreStage::WarnNoQuota => past < all.len() && received(states, events, n, all[past])
            && !s.sizes.dom().contains(all[past]),
        RestoreStage::Finished => past == all.len(),
        _ => false,
    }
}

proof fn lemma_received_stays(states: Seq<RestoreView>, events: Seq<RestoreEvent>, n: int, volume: Seq<char>)
    ensures
        received(states, events, n, volume) ==> received(states, events, n + 1, volume),
        limited(states, events, n, volume) ==> limited(states, events, n + 1, volume),
{
    if received(states, events, n, volume) {
        let k = choose|k: int|
            0 <= k < n && (#[trigger] events[k]) is Done && states[k].stage == RestoreStage::Receive
                && states[k].volumes.len() > 0 && states[k].volumes[0] == volume;
        assert(0 <= k < n + 1 && events[k] is Done);
    }
    if limited(states, events, n, volume) {
        let k = choose|k: int|
            0 <= k < n && (#[trigger] events[k]) is Done && states[k].stage == RestoreStage::SetQuota
                && states[k].volumes.len() > 0 && states[k].volumes[0] == volume;
        assert(0 <= k < n + 1 && events[k] is Done);
    }
}

proof fn lemma_volumes_so_far(states: Seq<RestoreView>, events: Seq<RestoreEvent>, all: Seq<Seq<char>>, n: int)
    requires
        is_trace(states, events),
        1 <= n <= events.len(),
        states[0].stage == RestoreStage::ListStreams,
        states[1] == (RestoreView { volumes: all, ..states[0] }).at_next_volume(),
    ensures
        states[n].error is Some ==> states[n].stage == RestoreStage::Finished || states[0].error is Some,
        states[n].error is None ==> volumes_so_far(states, events, all, n),
    decreases n,
{
    if n == 1 {
        assert(all.skip(0) =~= all);
        assert(all.len() == 0 ==> all.skip(0).len() == 0);
    } else {
        lemma_volumes_so_far(states, events, all, n - 1);
        let s = states[n - 1];
        let t = states[n];
        assert(s.leads_to(events[n - 1], t));
        if t.error is None {
            let past = all.len() - s.volumes.len();
            assert forall|i: int| 0 <= i < all.len() implies {
                &&& received(states, events, n - 1, #[trigger] all[i]) ==> received(states, events, n, all[i])
                &&& limited(states, events, n - 1, all[i]) ==> limited(states, events, n, all[i])
            } by {
                lemma_received_stays(states, events, n - 1, all[i]);
            }
            if events[n - 1] is Done && past < all.len() {
                assert(s.volumes[0] == all[past]);
                assert(s.volumes.skip(1) =~= all.skip(past + 1));
                if s.stage == RestoreStage::Receive {
                    assert(received(states, events, n, all[past]));
                }
                if s.stage == RestoreStage::SetQuota {
                    assert(limited(states, events, n, all[past]));
                }
            }
        }
    }
}

/// A restore that ends well has received the stream of every volume that the backup holds, and has given each
/// the size that the restored records declare for it.
pub proof fn law_every_volume_is_restored(
    files: Vec<String>,
    states: Seq<RestoreView>,
    events: Seq<RestoreEvent>,
    file: Seq<char>,
)
    requires
        is_trace(states, events),
        events.len() > 0,
        states[0].stage == RestoreStage::ListStreams,
        events[0] == RestoreEvent::Names(files),
        states.last().stage == RestoreStage::Finished,
        states.last().error is None,
        views(files@).contains(file),
        is_stream(file),
    ensures
        received(states, events, events.len() as int, volume_of(file)),
        states[0].sizes.dom().contains(volume_of(file)) ==> limited(
            states,
            events,
            events.len() as int,
            volume_of(file),
        ),
{
    assert(states[0].leads_to(events[0], states[1]));
    let sorted = choose|sorted: Seq<Seq<char>>| #[trigger]
        is_sorting(views(files@), sorted) && states[1] == (RestoreView {
            volumes: volumes_of(sorted),
            ..states[0]
        }).at_next_volume();
    let all = volumes_of(sorted);
    lemma_volumes_so_far(states, events, all, events.len() as int);
    assert(sorted.contains(file)) by {
        views(files@).to_multiset_ensures();
        sorted.to_multiset_ensures();
        assert(views(files@).to_multiset().count(file) > 0);
    }
    lemma_stream_is_listed(sorted, file);
    let i = choose|i: int| 0 <= i < all.len() && all[i] == volume_of(file);
    assert(received(states, events, events.len() as int, all[i]));
}

proof fn lemma_stream_is_listed(files: Seq<Seq<char>>, file: Seq<char>)
    requires
        files.contains(file),
        is_stream(file),
    ensures
        volumes_of(files).contains(volume_of(file)),
    decreases files.len(),
{
    let rest = files.drop_last();
    let all = volumes_of(files);
    if files.last() == file {
        assert(all[all.len() - 1] == volume_of(file));
    } else {
        let k = choose|k: int| 0 <= k < files.len() && files[k] == file;
        assert(rest[k] == file);
        lemma_stream_is_listed(rest, file);
        let i = choose|i: int| 0 <= i < volumes_of(rest).len() && volumes_of(rest)[i] == volume_of(file);
        assert(all[i] == volume_of(file));
    }
}

/// Before the `n`-th state, a jail was deleted.
pub open spec fn deleted(states: Seq<RestoreView>, events: Seq<RestoreEvent>, n: int, jail: Seq<char>) -> bool {
    exists|k: int|
        0 <= k < n && (#[trigger] events[k]) is Done && states[k].stage == RestoreStage::DeleteJail
            && states[k].jails.len() > 0 && states[k].jails[0] == jail
}

/// What has been done to the jails before the `n`-th state, as long as no record was removed.
spec fn jails_so_far(states: Seq<RestoreView>, events: Seq<RestoreEvent>, all: Seq<Seq<char>>, n: int) -> bool {
    let s = states[n];
    let past = all.len() - s.jails.len();
    &&& past >= 0
    &&& s.jails == all.skip(past)
    &&& forall|i: int| 0 <= i < past ==> deleted(states, events, n, #[trigger] all[i])
    &&& s.stage == RestoreStage::DeleteJail && past < all.len() || s.stage == RestoreStage::WipeState && past
        == all.len()
}

proof fn lemma_jails_so_far(states: Seq<RestoreView>, events: Seq<RestoreEvent>, all: Seq<Seq<char>>, n: int)
    requires
        is_trace(states, events),
        1 <= n <= events.len(),
        states[0].stage == RestoreStage::ListJails,
        states[1] == (RestoreView { jails: all, ..states[0] }).at_next_jail(),
        forall|k: int| 1 <= k < n ==> (#[trigger] states[k]).stage == RestoreStage::DeleteJail,
        states[n].stage != RestoreStage::Finished,
    ensures
        jails_so_far(states, events, all, n),
    decreases n,
{
    if n == 1 {
        assert(all.skip(0) =~= all);
    } else {
        lemma_jails_so_far(states, events, all, n - 1);
        let s = states[n - 1];
        let t = states[n];
        assert(s.leads_to(events[n - 1], t));
        let past = all.len() - s.jails.len();
        assert(s.jails[0] == all[past]);
        assert(s.jails.skip(1) =~= all.skip(past + 1));
        assert forall|i: int| 0 <= i < all.len() && deleted(states, events, n - 1, #[trigger] all[i]) implies deleted(
            states,
            events,
            n,
            all[i],
        ) by {
            let k = choose|k: int|
                0 <= k < n - 1 && (#[trigger] events[k]) is Done && states[k].stage == RestoreStage::DeleteJail
                    && states[k].jails.len() > 0 && states[k].jails[0] == all[i];
            assert(0 <= k < n && events[k] is Done);
        }
        if events[n - 1] is Done {
            assert(deleted(states, events, n, all[past]));
        }
    }
}

/// A restore removes no record before every jail was deleted.
pub proof fn law_jails_are_deleted_before_the_records(
    names: Vec<String>,
    states: Seq<RestoreView>,
    events: Seq<RestoreEvent>,
    jail: Seq<char>,
)
    requires
        is_trace(states, events),
        events.len() > 0,
        states[0].stage == RestoreStage::ListJails,
        events[0] == RestoreEvent::Names(names),
        states.last().stage == RestoreStage::WipeState,
        forall|k: int| 0 <= k < events.len() ==> (#[trigger] states[k]).stage != RestoreStage::WipeState,
        views(names@).contains(jail),
    ensures
        deleted(states, events, events.len() as int, jail),
{
    assert(states[0].leads_to(events[0], states[1]));
    let all = views(names@);
    lemma_before_the_wipe(states, events, all, events.len() as int);
    lemma_jails_so_far(states, events, all, events.len() as int);
    let i = choose|i: int| 0 <= i < all.len() && all[i] == jail;
    assert(deleted(states, events, events.len() as int, all[i]));
}

/// A run that comes to remove the records for the first time has only deleted jails since it listed them.
proof fn lemma_before_the_wipe(states: Seq<RestoreView>, events: Seq<RestoreEvent>, all: Seq<Seq<char>>, n: int)
    requires
        is_trace(states, events),
        1 <= n <= events.len(),
        states[0].stage == RestoreStage::ListJails,
        states[1] == (RestoreView { jails: all, ..states[0] }).at_next_jail(),
        states[n].stage == RestoreStage::WipeState || states[n].stage == RestoreStage::DeleteJail,
        forall|k: int| 0 <= k < n ==> (#[trigger] states[k]).stage != RestoreStage::WipeState,
    ensures
        forall|k: int| 1 <= k < n ==> (#[trigger] states[k]).stage == RestoreStage::DeleteJail,
    decreases n,
{
    if n > 1 {
        assert(states[n - 1].leads_to(events[n - 1], states[n]));
        lemma_stages_from_the_list(states, events, all, n - 1);
        lemma_before_the_wipe(states, events, all, n - 1);
    }
}

/// From the list of the jails on, a run does not come back to a stage before it.
proof fn lemma_stages_from_the_list(states: Seq<RestoreView>, events: Seq<RestoreEvent>, all: Seq<Seq<char>>, n: int)
    requires
        is_trace(states, events),
        1 <= n <= events.len(),
        states[0].stage == RestoreStage::ListJails,
        states[1] == (RestoreView { jails: all, ..states[0] }).at_next_jail(),
    ensures
        states[n].stage != RestoreStage::CheckBackup,
        states[n].stage != RestoreStage::ListJails,
    decreases n,
{
    if n > 1 {
        lemma_stages_from_the_list(states, events, all, n - 1);
        assert(states[n - 1].leads_to(events[n - 1], states[n]));
    }
}

} // verus!
