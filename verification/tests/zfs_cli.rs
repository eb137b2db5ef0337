use keel::zfs::cli::{
    after_destroy, base_snapshot, children_of, clone_advance, clone_args, command_line, create_args,
    create_volume_args, destroy_args, destroy_snapshot_args, exists_from, list_args, list_recursive_args,
    receive_args, run_checked, send_args, set_quota_args, snapshot_args, transfer_result, CliZfsManager, CloneEvent,
    CloneStep, DestroyStep, Output, DESTROY_ATTEMPTS,
};
use keel::zfs::error::ZfsError;

fn ended(code: Option<i32>, stdout: &str, stderr: &[u8]) -> Result<Output, String> {
    let status = code.map_or(9, |c| c << 8);
    Ok(Output { status, code, stdout: stdout.as_bytes().to_vec(), stderr: stderr.to_vec() })
}

fn failed(command: &str, code: i32, stderr: &str) -> ZfsError {
    ZfsError::CommandFailed(command.to_string(), code << 8, stderr.to_string())
}

#[test]
fn commands_are_written_out() {
    assert_eq!(CliZfsManager::new(), CliZfsManager::default());
    assert_eq!(command_line(&list_args("a/b")), "zfs list -H -o name a/b");
    assert_eq!(command_line(&list_recursive_args("a/b")), "zfs list -H -o name -r a/b");
    assert_eq!(command_line(&create_args("a", "1G")), "zfs create -o quota=1G a");
    assert_eq!(command_line(&set_quota_args("a", "1G")), "zfs set quota=1G a");
    assert_eq!(command_line(&destroy_args("a", false)), "zfs destroy a");
    assert_eq!(command_line(&destroy_args("a", true)), "zfs destroy -r a");
    assert_eq!(command_line(&snapshot_args("a", "s")), "zfs snapshot a@s");
    assert_eq!(command_line(&destroy_snapshot_args("a", "s")), "zfs destroy a@s");
    assert_eq!(command_line(&send_args("a", "s", None)), "zfs send a@s");
    assert_eq!(command_line(&send_args("a", "s", Some("r"))), "zfs send -i a@r a@s");
    assert_eq!(command_line(&receive_args("a")), "zfs receive a");
    assert_eq!(command_line(&clone_args(&base_snapshot("base"), "a")), "zfs clone base@keel a");
}

#[test]
fn a_failed_command_is_told_with_what_it_said() {
    let args = set_quota_args("a", "1G");
    assert_eq!(run_checked(&args, ended(Some(0), "", b"")), Ok(()));
    assert_eq!(
        run_checked(&args, ended(Some(2), "", b"no\xff")),
        Err(failed("zfs set quota=1G a", 2, "no\u{fffd}"))
    );
    assert_eq!(
        run_checked(&args, ended(None, "", b"")),
        Err(ZfsError::CommandFailed("zfs set quota=1G a".to_string(), 9, String::new()))
    );
    assert_eq!(
        run_checked(&args, Err("not found".to_string())),
        Err(ZfsError::Spawn("zfs".to_string(), "not found".to_string()))
    );
}

#[test]
fn a_listing_says_whether_a_dataset_exists() {
    assert_eq!(exists_from("a", ended(Some(0), "a\n", b"")), Ok(true));
    assert_eq!(exists_from("a", ended(Some(1), "", b"does not exist")), Ok(false));
    assert_eq!(exists_from("a", ended(Some(2), "", b"usage")), Err(failed("zfs list -H -o name a", 2, "usage")));
    assert!(exists_from("a", ended(None, "", b"")).is_err());
    assert_eq!(
        exists_from("a", Err("gone".to_string())),
        Err(ZfsError::Spawn("zfs".to_string(), "gone".to_string()))
    );
}

#[test]
fn children_are_those_one_level_below() {
    let listing = "p\np/b\r\np/b/deep\n  p/a  \nq/c\np/\npp/x\np/c";
    assert_eq!(
        children_of("p", ended(Some(0), listing, b"")),
        Ok(vec!["p/".to_string(), "p/a".to_string(), "p/b".to_string(), "p/c".to_string()])
    );
    assert_eq!(children_of("p", ended(Some(0), "", b"")), Ok(vec![]));
    assert_eq!(children_of("p", ended(Some(1), listing, b"")), Ok(vec![]));
    assert_eq!(children_of("p", ended(Some(3), "", b"x")), Err(failed("zfs list -H -o name -r p", 3, "x")));
}

#[test]
fn a_volume_is_created_only_if_it_is_not_there() {
    assert_eq!(create_volume_args(Ok(true), "a", "1G"), Ok(None));
    assert_eq!(create_volume_args(Ok(false), "a", "1G"), Ok(Some(create_args("a", "1G"))));
    let e = ZfsError::Busy("a".to_string());
    assert_eq!(create_volume_args(Err(e.clone()), "a", "1G"), Err(e));
}

#[test]
fn the_exit_status_of_a_transfer_counts_before_its_copying() {
    let args = receive_args("a");
    let output = |code: i32| ended(Some(code), "", b"why").unwrap();
    let broken = || Err("broken pipe".to_string());
    assert_eq!(transfer_result(&args, "receive", Ok((Ok(()), output(0)))), Ok(()));
    assert_eq!(
        transfer_result(&args, "receive", Ok((broken(), output(1)))),
        Err(failed("zfs receive a", 1, "why"))
    );
    assert_eq!(
        transfer_result(&args, "receive", Ok((broken(), output(0)))),
        Err(ZfsError::Spawn("zfs receive".to_string(), "broken pipe".to_string()))
    );
    assert_eq!(
        transfer_result(&args, "receive", Err("no wait".to_string())),
        Err(ZfsError::Spawn("zfs".to_string(), "no wait".to_string()))
    );
}

fn done(step: DestroyStep) -> Result<(), ZfsError> {
    match step {
        DestroyStep::Done(r) => r,
        DestroyStep::Retry => panic!("expected an end"),
    }
}

#[test]
fn a_busy_dataset_is_tried_again_for_a_while() {
    let busy = || Err(failed("zfs destroy a", 1, "cannot destroy 'a': dataset is busy"));
    for attempt in 1..DESTROY_ATTEMPTS {
        assert!(matches!(after_destroy("a", attempt, busy()), DestroyStep::Retry));
    }
    assert_eq!(done(after_destroy("a", DESTROY_ATTEMPTS, busy())), Err(ZfsError::Busy("a".to_string())));
    assert_eq!(done(after_destroy("a", 3, Ok(()))), Ok(()));
    let missing = Err(failed("zfs destroy a", 1, "cannot open 'a': dataset does not exist"));
    assert_eq!(done(after_destroy("a", 1, missing)), Err(ZfsError::NotFound("a".to_string())));
    let children = failed("zfs destroy a", 1, "filesystem has children");
    assert_eq!(done(after_destroy("a", 1, Err(children.clone()))), Err(children));
}

#[test]
fn a_base_is_cloned_from_its_snapshot() {
    let ran = |ok: bool| CloneEvent::Ran(if ok { Ok(()) } else { Err(ZfsError::Busy("b".to_string())) });
    let known = |yes: bool| CloneEvent::Exists(Ok(yes));
    assert!(matches!(clone_advance(CloneStep::Check, known(true)), CloneStep::Clone));
    let take = clone_advance(CloneStep::Check, known(false));
    assert!(matches!(take, CloneStep::Take));
    assert!(matches!(clone_advance(take, ran(true)), CloneStep::Clone));
    let recheck = clone_advance(CloneStep::Take, ran(false));
    assert!(matches!(clone_advance(recheck, known(true)), CloneStep::Clone), "another clone took the snapshot");
    let recheck = clone_advance(CloneStep::Take, ran(false));
    match clone_advance(recheck, known(false)) {
        CloneStep::Done(r) => assert_eq!(r, Err(ZfsError::Busy("b".to_string()))),
        _ => panic!("expected an end"),
    }
    match clone_advance(CloneStep::Clone, ran(true)) {
        CloneStep::Done(r) => assert_eq!(r, Ok(())),
        _ => panic!("expected an end"),
    }
}
