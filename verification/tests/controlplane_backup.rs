use keel::calendar::civil_from_days;
use keel::controlplane::backup::{
    backup_control_plane_state, backup_id_at, format_backup_id, generate_backup_id, restore_control_plane_state,
    sort_manifests, BackupError, FileStep,
};
use keel::fs_copy::is_left_out;
use std::collections::BTreeMap;

#[test]
fn format_backup_id_at_unix_epoch() {
    assert_eq!(format_backup_id(0), "1970-01-01T00-00-00Z");
}

#[test]
fn format_backup_id_matches_the_designs_example() {
    assert_eq!(format_backup_id(1786019696), "2026-08-06T12-34-56Z");
}

#[test]
fn format_backup_id_handles_a_leap_day() {
    assert_eq!(format_backup_id(951782400), "2000-02-29T00-00-00Z");
}

#[test]
fn format_backup_id_handles_end_of_century() {
    assert_eq!(format_backup_id(4102444799), "2099-12-31T23-59-59Z");
}

fn on_files(files: &mut BTreeMap<String, String>, steps: Vec<FileStep>) {
    let skip = vec!["backups".to_string()];
    for step in steps {
        match step {
            FileStep::WipeState => files.retain(|path, _| is_left_out(0, path.split('/').next().unwrap(), &skip)),
            FileStep::CopyTo(dir) => {
                for (path, content) in files.clone() {
                    if !is_left_out(0, path.split('/').next().unwrap(), &skip) {
                        files.insert(format!("{dir}/{path}"), content);
                    }
                }
            }
            FileStep::CopyFrom(dir) => {
                for (path, content) in files.clone() {
                    if let Some(rest) = path.strip_prefix(&format!("{dir}/")) {
                        files.insert(rest.to_string(), content);
                    }
                }
            }
        }
    }
}

#[test]
fn backup_then_restore_control_plane_state_round_trips_and_drops_stale_files() {
    let mut files = BTreeMap::new();
    files.insert("placements.yaml".to_string(), "web-0: node-1\n".to_string());
    files.insert("sub/backups/kept.yaml".to_string(), "deep\n".to_string());

    on_files(&mut files, backup_control_plane_state("2026-08-06T12-34-56Z"));
    assert_eq!(files["backups/2026-08-06T12-34-56Z/controlplane/placements.yaml"], "web-0: node-1\n");

    files.insert("placements.yaml".to_string(), "web-0: node-2\n".to_string());
    files.insert("standbys.yaml".to_string(), "web-0: node-3\n".to_string());
    files.remove("sub/backups/kept.yaml");

    on_files(&mut files, restore_control_plane_state("2026-08-06T12-34-56Z", true).unwrap());
    assert_eq!(files["placements.yaml"], "web-0: node-1\n");
    assert_eq!(files["sub/backups/kept.yaml"], "deep\n");
    assert!(
        !files.contains_key("standbys.yaml"),
        "a file created after the backup was taken must not survive restore"
    );
    assert!(files.contains_key("backups/2026-08-06T12-34-56Z/controlplane/placements.yaml"));
}

#[test]
fn restore_control_plane_state_on_a_missing_backup_leaves_live_state_untouched() {
    let result = restore_control_plane_state("never-taken", false);
    assert_eq!(result, Err(BackupError::UnknownBackup("never-taken".to_string())));
}

#[test]
fn list_manifests_returns_every_saved_manifest_sorted_by_id() {
    let manifests =
        vec![("2026-08-06T10-00-00Z".to_string(), 'a'), ("2026-08-06T09-00-00Z".to_string(), 'b')];
    let ids: Vec<(String, char)> = sort_manifests(manifests);
    assert_eq!(
        ids,
        vec![("2026-08-06T09-00-00Z".to_string(), 'b'), ("2026-08-06T10-00-00Z".to_string(), 'a')],
        "expected manifests sorted by id"
    );
}

#[test]
fn manifests_of_one_id_keep_their_order() {
    let manifests = vec![("b".to_string(), 1), ("a".to_string(), 2), ("b".to_string(), 3), ("a".to_string(), 4)];
    let sorted: Vec<i32> = sort_manifests(manifests).into_iter().map(|m| m.1).collect();
    assert_eq!(sorted, vec![2, 4, 1, 3]);
}

#[test]
fn later_backups_have_later_ids() {
    let times = [0, 59, 60, 3599, 3600, 86399, 86400, 951782400, 1786019696, 4102444799, 4102444800];
    for pair in times.windows(2) {
        assert!(format_backup_id(pair[0]) < format_backup_id(pair[1]), "{pair:?}");
    }
    assert_eq!(format_backup_id(u64::MAX), "584554051223-11-09T07-00-15Z");
}

#[test]
fn an_id_is_made_from_the_clock() {
    assert_eq!(backup_id_at(Some(951782400)), Some("2000-02-29T00-00-00Z".to_string()));
    assert_eq!(backup_id_at(None), None);
    let id = generate_backup_id().unwrap();
    assert_eq!(id.len(), 20);
    assert!(id > format_backup_id(1_700_000_000), "got: {id}");
    assert!(id < format_backup_id(7_000_000_000), "got: {id}");
}

#[test]
fn days_become_dates_on_both_sides_of_the_epoch() {
    assert_eq!(civil_from_days(0), (1970, 1, 1));
    assert_eq!(civil_from_days(-1), (1969, 12, 31));
    assert_eq!(civil_from_days(11016), (2000, 2, 29));
    assert_eq!(civil_from_days(-719468), (0, 3, 1));
    assert_eq!(civil_from_days(-719469), (0, 2, 29));
}

#[test]
fn names_are_left_out_only_at_the_top() {
    let skip = vec!["backups".to_string(), "tmp".to_string()];
    assert!(is_left_out(0, "backups", &skip));
    assert!(is_left_out(0, "tmp", &skip));
    assert!(!is_left_out(1, "backups", &skip));
    assert!(!is_left_out(0, "backup", &skip));
    assert!(!is_left_out(0, "backups", &vec![]));
}

#[test]
fn errors_of_a_backup_are_put_in_words() {
    assert_eq!(BackupError::Io("x".to_string()).message(), "I/O error: x");
    assert_eq!(BackupError::UnknownBackup("x".to_string()).message(), "no backup 'x' found");
}
