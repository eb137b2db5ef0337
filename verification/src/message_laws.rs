//! What the errors say in words: each of them what happened, and to whom.

use crate::agent::backup::BackupErrorView;
use crate::agent::replication::ReadErrorView;
use crate::controlplane::registry::ResolveErrorView;
use crate::controlplane::worker::{ForceRepinErrorView, PlacementError, ScheduleOrResolveError};
use crate::dashboard::args::ArgsErrorView;
use crate::decimal::{decimal, signed_decimal, NumberError};
use crate::ingress::acme::AcmeError;
use crate::zfs::error::ZfsErrorView;
use vstd::prelude::*;

verus! {

/// A message says something about a subject, whatever the subject is.
pub open spec fn says_of(message: Seq<char>, before: Seq<char>, subject: Seq<char>, behind: Seq<char>) -> bool {
    message == before + subject + behind
}

/// The errors of the control plane name the node or the jail that they are about, and hand on what is behind them.
pub proof fn law_messages_of_the_control_plane(name: String, cause: ResolveErrorView)
    ensures
        says_of(ResolveErrorView::Unknown(name@).text(), "no node '"@, name@, "' has registered"@),
        says_of(ResolveErrorView::Dead(name@).text(), "node '"@, name@, "' is dead"@),
        says_of(PlacementError::NotPlaced(name).text(), "no known placement for jail '"@, name@, "'"@),
        says_of(ForceRepinErrorView::NotPlaced(name@).text(), "no known placement for replica '"@, name@, "'"@),
        says_of(
            ForceRepinErrorView::NotStateful(name@).text(),
            "'"@,
            name@,
            "' is not a stateful replica with a standby"@,
        ),
        says_of(
            ForceRepinErrorView::PrimaryStillAlive(name@).text(),
            "current primary node '"@,
            name@,
            "' still resolves as alive"@,
        ),
        ForceRepinErrorView::StandbyUnresolvable(cause).text() == "standby node is unreachable: "@ + cause.text(),
        ForceRepinErrorView::NoFreshStandby.text() == "no alive node available to serve as a fresh standby"@,
        ForceRepinErrorView::NoFreeAddress.text() == "no free address available for the promoted primary"@,
{
}

/// An error that was handed on says what the error behind it says.
pub proof fn law_messages_are_handed_on(
    scheduled: ScheduleOrResolveError,
    placed: PlacementError,
    backup: BackupErrorView,
)
    ensures
        scheduled matches ScheduleOrResolveError::Schedule(e) ==> scheduled.text() == e.text(),
        scheduled matches ScheduleOrResolveError::Resolve(e) ==> scheduled.text() == e@.text(),
        placed matches PlacementError::Resolve(e) ==> placed.text() == e@.text(),
        backup matches BackupErrorView::Zfs(e) ==> backup.text() == e.text(),
        backup matches BackupErrorView::Reconcile(reason) ==> backup.text() == reason,
        backup matches BackupErrorView::Io(reason) ==> backup.text() == "I/O error: "@ + reason,
        backup matches BackupErrorView::UnknownBackup(id) ==> says_of(backup.text(), "no backup '"@, id, "' found"@),
{
}

/// The errors of ZFS name the dataset or the command, with its status and what it said.
pub proof fn law_messages_of_zfs(name: Seq<char>, status: i32, said: Seq<char>)
    ensures
        ZfsErrorView::NotFound(name).text() == "not found: "@ + name,
        ZfsErrorView::Busy(name).text() == "busy: "@ + name,
        ZfsErrorView::CommandFailed(name, status, said).text() == name + " failed with status "@ + signed_decimal(
            status as int,
        ) + ": "@ + said,
        ZfsErrorView::Spawn(name, said).text() == "failed to run "@ + name + ": "@ + said,
{
}

/// The errors of an order say what failed, and why.
pub proof fn law_messages_of_certificates(e: AcmeError)
    ensures
        e matches AcmeError::Dns(why) ==> e.text() == "DNS-01 challenge failed: "@ + why.0@,
        e matches AcmeError::Request(reason) ==> e.text() == "ACME request failed: "@ + reason@,
        e matches AcmeError::RateLimited(reason) ==> e.text() == "ACME server rate limit exceeded: "@ + reason@,
{
}

/// The errors of a command line name the flag or the value.
pub proof fn law_messages_of_the_command_line(flag: Seq<char>, why: NumberError)
    ensures
        ArgsErrorView::MissingValue(flag).message() == "missing value for "@ + flag,
        ArgsErrorView::UnknownFlag(flag).message() == "unknown flag: "@ + flag,
        says_of(
            ArgsErrorView::InvalidPollInterval(flag, why).message(),
            "invalid --poll-interval-secs '"@,
            flag,
            "': "@ + why.text(),
        ),
{
    assert("invalid --poll-interval-secs '"@ + flag + "': "@ + why.text() =~= "invalid --poll-interval-secs '"@ + flag + (
    "': "@ + why.text()));
}

/// The errors of a header say how long a frame would have been, or hand on why it holds no text.
pub proof fn law_messages_of_headers(len: usize, reason: Seq<char>)
    ensures
        says_of(
            ReadErrorView::FrameTooLong(len).text(),
            "frame length "@,
            decimal(len as nat),
            " exceeds max of "@ + decimal(4096),
        ),
        ReadErrorView::InvalidUtf8(reason).text() == reason,
{
    assert("frame length "@ + decimal(len as nat) + " exceeds max of "@ + decimal(4096) =~= "frame length "@ + decimal(
        len as nat,
    ) + (" exceeds max of "@ + decimal(4096)));
}

} // verus!
