//! What the steps of backups, restores and replications do, told by what came of them.

use crate::agent::backup::{
    backup_path, is_sorting, is_stream, sizes_of, volumes_of, BackupErrorView, BackupEvent, BackupStage, BackupView, RestoreEvent,
    RestoreStage, RestoreView,
};
use crate::agent::replica_target::{after_snapshot, table_of, ReplicaTargetView};
use crate::agent::replication::{
    ack_for, replica_dataset, targets_answered, HeaderView, ACK_NEED_FULL, ACK_PROCEED,
    ACK_STALE_GENERATION,
};
use crate::jail::VolumeMountView;
use crate::text::str_before;
use crate::views::views;
use vstd::prelude::*;

verus! {

/// What a step of a backup changes. A volume is backed up exactly when its stream was sent, and has failed when no
/// snapshot of it could be taken, or when what was left of a failed send is cleaned up; either way it is the first that
/// was left, and the next one follows. A failure before the volumes ends the backup, and is told.
pub proof fn law_backup_steps(run: BackupView, event: BackupEvent)
    requires
        run.has_volume(),
    ensures
        ({
            let after = run.after(event);
            let sent = run.stage == BackupStage::Send && event is Done;
            let lost = (run.stage == BackupStage::Snapshot && event is Failed) || (run.stage
                == BackupStage::DestroySnapshot && !(event is Volumes));
            let early = run.stage == BackupStage::CopyState || run.stage == BackupStage::ListVolumes || run.stage
                == BackupStage::MakeDir;
            &&& sent ==> after.succeeded == run.succeeded.push(run.volumes[0]) && after.failed == run.failed
            &&& lost ==> after.failed == run.failed.push(run.volumes[0]) && after.succeeded == run.succeeded
            &&& !sent && !lost ==> after.succeeded == run.succeeded && after.failed == run.failed
            &&& sent || lost ==> after.volumes == run.volumes.skip(1) && (after.stage == BackupStage::Snapshot <==> run.volumes.len()
                > 1) && (after.stage == BackupStage::Finished <==> run.volumes.len() == 1)
            &&& run.stage == BackupStage::ListVolumes && event is Volumes ==> after.volumes == views(
                event->Volumes_0@,
            ) && after.stage == BackupStage::MakeDir
            &&& !sent && !lost && !(run.stage == BackupStage::ListVolumes && event is Volumes) ==> after.volumes
                == run.volumes
            &&& early && event is Failed ==> after.error == Some(event->Failed_0@) && after.stage
                == BackupStage::Finished
            &&& !(early && event is Failed) ==> after.error == run.error
            &&& run.stage == BackupStage::CopyState && event is Done ==> after.stage == BackupStage::ListVolumes
            &&& run.stage == BackupStage::MakeDir && event is Done ==> (after.stage == BackupStage::Snapshot
                <==> run.volumes.len() > 0) && (after.stage == BackupStage::Finished <==> run.volumes.len() == 0)
            &&& run.stage == BackupStage::Snapshot && event is Done ==> after.stage == BackupStage::Send
            &&& run.stage == BackupStage::Send && event is Failed ==> after.stage == BackupStage::RemoveStaging
            &&& run.stage == BackupStage::RemoveStaging && !(event is Volumes) ==> after.stage
                == BackupStage::DestroySnapshot
            &&& run.stage == BackupStage::Finished ==> after == run
        }),
{
}

/// What a step of a restore changes. A failure ends it, and is told. Otherwise the steps follow one another: the backup is
/// looked for, every jail is deleted, the records are wiped and copied back, their volumes' sizes are read, and each
/// stream in the order of the files' names is received into a dataset that was destroyed if it was there, and then gets
/// the size that was declared for it.
pub proof fn law_restore_steps(run: RestoreView, event: RestoreEvent, after: RestoreView)
    requires
        run.has_subject(),
        run.leads_to(event, after),
    ensures
        after.backup_id == run.backup_id,
        event is Failed && run.stage != RestoreStage::Finished ==> after.stage == RestoreStage::Finished && after.error
            == Some(event->Failed_0@),
        !(event is Failed) && run.stage != RestoreStage::CheckBackup ==> after.error == run.error,
        run.stage == RestoreStage::Finished ==> after == run,
        run.stage == RestoreStage::CheckBackup && event == RestoreEvent::Yes(true) ==> after.stage
            == RestoreStage::ListJails && after.error == run.error,
        run.stage == RestoreStage::CheckBackup && event == RestoreEvent::Yes(false) ==> after.stage
            == RestoreStage::Finished && after.error == Some(BackupErrorView::UnknownBackup(run.backup_id)),
        run.stage == RestoreStage::ListJails && event is Names ==> after.jails == views(event->Names_0@) && (if after.jails.len()
            > 0 {
            after.stage == RestoreStage::DeleteJail
        } else {
            after.stage == RestoreStage::WipeState
        }),
        run.stage == RestoreStage::DeleteJail && event is Done ==> after.jails == run.jails.skip(1) && (if run.jails.len()
            > 1 {
            after.stage == RestoreStage::DeleteJail
        } else {
            after.stage == RestoreStage::WipeState
        }),
        run.stage != RestoreStage::ListJails && run.stage != RestoreStage::DeleteJail ==> after.jails == run.jails,
        run.stage == RestoreStage::WipeState && event is Done ==> after.stage == RestoreStage::CopyBack,
        run.stage == RestoreStage::CopyBack && event is Done ==> after.stage == RestoreStage::LoadRecords,
        run.stage == RestoreStage::LoadRecords && event is Declared ==> after.stage == RestoreStage::ListStreams
            && after.sizes == sizes_of(views(event->Declared_0@)),
        run.stage != RestoreStage::LoadRecords ==> after.sizes == run.sizes,
        run.stage == RestoreStage::ListStreams && event is NoStreams ==> after.stage == RestoreStage::Finished,
        run.stage == RestoreStage::CheckDataset && event == RestoreEvent::Yes(true) ==> after.stage
            == RestoreStage::DestroyDataset && after.volumes == run.volumes,
        run.stage == RestoreStage::CheckDataset && event == RestoreEvent::Yes(false) ==> after.stage
            == RestoreStage::Receive && after.volumes == run.volumes,
        run.stage == RestoreStage::DestroyDataset && event is Done ==> after.stage == RestoreStage::Receive
            && after.volumes == run.volumes,
        run.stage == RestoreStage::Receive && event is Done ==> after.volumes == run.volumes && (if run.sizes.dom().contains(
            run.volumes[0],
        ) {
            after.stage == RestoreStage::SetQuota
        } else {
            after.stage == RestoreStage::WarnNoQuota
        }),
        (run.stage == RestoreStage::SetQuota || run.stage == RestoreStage::WarnNoQuota) && event is Done ==> after.volumes
            == run.volumes.skip(1) && (if run.volumes.len() > 1 {
            after.stage == RestoreStage::CheckDataset
        } else {
            after.stage == RestoreStage::Finished
        }),
{
}

/// The last time that a volume is declared under a name.
pub open spec fn is_last_declared(declared: Seq<VolumeMountView>, name: Seq<char>, i: int) -> bool {
    &&& 0 <= i < declared.len()
    &&& declared[i].name == name
    &&& forall|j: int| i < j < declared.len() ==> (#[trigger] declared[j]).name != name
}

/// The size of a volume is the one that is declared last under its name; a volume that is not declared has none.
pub proof fn law_declared_sizes(declared: Seq<VolumeMountView>, name: Seq<char>)
    ensures
        if sizes_of(declared).dom().contains(name) {
            exists|i: int| #[trigger]
                is_last_declared(declared, name, i) && sizes_of(declared)[name] == declared[i].size
        } else {
            forall|j: int| 0 <= j < declared.len() ==> (#[trigger] declared[j]).name != name
        },
    decreases declared.len(),
{
    if declared.len() > 0 {
        let rest = declared.drop_last();
        let n = declared.len() - 1;
        law_declared_sizes(rest, name);
        if declared[n].name == name {
            assert(is_last_declared(declared, name, n));
        } else if sizes_of(rest).dom().contains(name) {
            let i = choose|i: int| #[trigger]
                is_last_declared(rest, name, i) && sizes_of(rest)[name] == rest[i].size;
            assert forall|j: int| i < j < declared.len() implies (#[trigger] declared[j]).name != name by {
                if j < n {
                    assert(rest[j] == declared[j]);
                }
            }
            assert(is_last_declared(declared, name, i));
        } else {
            assert forall|j: int| 0 <= j < declared.len() implies (#[trigger] declared[j]).name != name by {
                if j < n {
                    assert(rest[j] == declared[j]);
                }
            }
        }
    }
}

/// The volumes of some files are those of the files whose names end in `.zfs`, without that end: all of them, in the order
/// of the files.
pub proof fn law_stream_files(files: Seq<Seq<char>>)
    ensures
        volumes_of(files) == files.filter(|file: Seq<char>| is_stream(file)).map_values(
            |file: Seq<char>| file.take(file.len() - 4),
        ),
    decreases files.len(),
{
    reveal(Seq::filter);
    reveal_strlit(".zfs");
    assert(".zfs"@.len() == 4);
    let cut = |file: Seq<char>| file.take(file.len() - 4);
    let keep = |file: Seq<char>| is_stream(file);
    if files.len() > 0 {
        let rest = files.drop_last();
        law_stream_files(rest);
        if is_stream(files.last()) {
            assert(files.filter(keep).map_values(cut) =~= rest.filter(keep).map_values(cut).push(cut(files.last())));
        }
    } else {
        assert(files.filter(keep).map_values(cut) =~= Seq::empty());
    }
}

/// What a header does to the targets of a node and what it is answered, told by the fields of its replica's target. A new
/// replica has a new target; a known one keeps what is known of it but for the address of the sender and, if the sender
/// is let in, the generation. No other target is touched.
pub proof fn law_answers(
    targets: Map<Seq<char>, ReplicaTargetView>,
    pool: Seq<char>,
    h: HeaderView,
    peer: Seq<char>,
    other: Seq<char>,
)
    ensures
        ({
            let name = h.replica_name;
            let known = targets.dom().contains(name);
            let after = targets_answered(targets, pool, h, peer);
            let target = after[name];
            let highest = if known {
                targets[name].highest_generation_seen
            } else {
                0
            };
            let last = if known {
                targets[name].last_snapshot
            } else {
                None
            };
            let ack = ack_for(targets, pool, h, peer);
            &&& ack == ACK_STALE_GENERATION <==> h.generation < highest
            &&& ack == ACK_PROCEED <==> h.generation >= highest && h.base_snapshot_id == last
            &&& ack == ACK_NEED_FULL <==> h.generation >= highest && h.base_snapshot_id != last
            &&& after.dom().contains(name)
            &&& target.source_node_addr == peer
            &&& target.last_snapshot == last
            &&& h.generation >= highest ==> target.highest_generation_seen == h.generation
            &&& h.generation < highest ==> target.highest_generation_seen == highest
            &&& known ==> target.replica_name == targets[name].replica_name && target.volume_dataset
                == targets[name].volume_dataset
            &&& !known ==> target.replica_name == name && target.volume_dataset == pool + "/keel/volumes/"@ + name
                + "-data"@
            &&& other != name ==> after.dom().contains(other) == targets.dom().contains(other) && (targets.dom().contains(
                other,
            ) ==> after[other] == targets[other])
        }),
{
    let name = h.replica_name;
    assert(replica_dataset(pool, name) =~= pool + "/keel/volumes/"@ + name + "-data"@);
}

/// A received snapshot is the last one of its replica's target, and nothing else is changed.
pub proof fn law_received_snapshots(
    targets: Map<Seq<char>, ReplicaTargetView>,
    name: Seq<char>,
    snapshot: Seq<char>,
    other: Seq<char>,
)
    ensures
        ({
            let after = after_snapshot(targets, name, snapshot);
            &&& after.dom() == targets.dom()
            &&& targets.dom().contains(name) ==> after[name].last_snapshot == Some(snapshot)
                && after[name].highest_generation_seen == targets[name].highest_generation_seen
                && after[name].source_node_addr == targets[name].source_node_addr && after[name].volume_dataset
                == targets[name].volume_dataset && after[name].replica_name == targets[name].replica_name
            &&& other != name && targets.dom().contains(other) ==> after[other] == targets[other]
        }),
{
    assert(after_snapshot(targets, name, snapshot).dom() =~= targets.dom());
}

/// The last target of a name in a list.
pub open spec fn is_last_target(listed: Seq<ReplicaTargetView>, name: Seq<char>, i: int) -> bool {
    &&& 0 <= i < listed.len()
    &&& listed[i].replica_name == name
    &&& forall|j: int| i < j < listed.len() ==> (#[trigger] listed[j]).replica_name != name
}

/// The table that some targets make holds under every name the last target of that name, and no other names.
pub proof fn law_tables_of_targets(listed: Seq<ReplicaTargetView>, name: Seq<char>)
    ensures
        if table_of(listed).dom().contains(name) {
            exists|i: int| #[trigger] is_last_target(listed, name, i) && table_of(listed)[name] == listed[i]
        } else {
            forall|j: int| 0 <= j < listed.len() ==> (#[trigger] listed[j]).replica_name != name
        },
    decreases listed.len(),
{
    if listed.len() > 0 {
        let rest = listed.drop_last();
        let n = listed.len() - 1;
        law_tables_of_targets(rest, name);
        if listed[n].replica_name == name {
            assert(is_last_target(listed, name, n));
        } else if table_of(rest).dom().contains(name) {
            let i = choose|i: int| #[trigger] is_last_target(rest, name, i) && table_of(rest)[name] == rest[i];
            assert forall|j: int| i < j < listed.len() implies (#[trigger] listed[j]).replica_name != name by {
                if j < n {
                    assert(rest[j] == listed[j]);
                }
            }
            assert(is_last_target(listed, name, i));
        } else {
            assert forall|j: int| 0 <= j < listed.len() implies (#[trigger] listed[j]).replica_name != name by {
                if j < n {
                    assert(rest[j] == listed[j]);
                }
            }
        }
    }
}

/// The streams of a restore are taken in the order of the names of their files: every file whose name ends in `.zfs`, and
/// no other.
pub proof fn law_restores_take_every_stream(run: RestoreView, files: Vec<String>, after: RestoreView)
    requires
        run.stage == RestoreStage::ListStreams,
        run.leads_to(RestoreEvent::Names(files), after),
    ensures
        after.volumes.len() > 0 ==> after.stage == RestoreStage::CheckDataset,
        after.volumes.len() == 0 ==> after.stage == RestoreStage::Finished,
        exists|sorted: Seq<Seq<char>>| #[trigger]
            is_ordered(sorted) && sorted.to_multiset() == views(files@).to_multiset() && after.volumes == sorted.filter(
                |file: Seq<char>| is_stream(file),
            ).map_values(|file: Seq<char>| file.take(file.len() - 4)),
{
    let sorted = choose|sorted: Seq<Seq<char>>| #[trigger]
        is_sorting(views(files@), sorted) && after == (RestoreView { volumes: volumes_of(sorted), ..run }).at_next_volume();
    law_stream_files(sorted);
    assert(is_ordered(sorted));
}

/// No text of a list comes before an earlier one in the order of texts.
pub open spec fn is_ordered(s: Seq<Seq<char>>) -> bool {
    forall|i: int, j: int| 0 <= i < j < s.len() ==> !str_before(#[trigger] s[j], #[trigger] s[i])
}

/// The parts of a backup are below the directory of the backup, which is below that of all backups.
pub proof fn law_paths_of_backups(id: Seq<char>, part: Seq<char>)
    ensures
        backup_path(id, part) == "backups"@ + "/"@ + id + "/"@ + part,
{
    reveal_strlit("backups/");
    reveal_strlit("backups");
    reveal_strlit("/");
    assert("backups/"@ =~= "backups"@ + "/"@);
}

} // verus!
