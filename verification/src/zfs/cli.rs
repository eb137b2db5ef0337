//! The `zfs` command: what to run, and what to make of how it ended.

use crate::text::{chars_of, contains, find_from, from_utf8_lossy, in_order, sort, text_of, trim, trimmed};
use crate::views::views;
use crate::zfs::error::{failure, ZfsError, ZfsErrorView};
use crate::zfs::names::{is_child, is_child_of, snapshot_name, snapshot_of};
use vstd::prelude::*;
use vstd::string::*;

verus! {

/// Manages datasets with the `zfs` command.
#[derive(Debug, Clone, Copy, PartialEq, Eq, Structural)]
pub struct CliZfsManager;

impl CliZfsManager {
    pub fn new() -> (r: Self)
        ensures
            r == CliZfsManager,
    {
        CliZfsManager
    }
}

impl Default for CliZfsManager {
    fn default() -> (r: Self)
        ensures
            r == CliZfsManager,
    {
        CliZfsManager::new()
    }
}

/// How often `zfs destroy` is tried on a busy dataset.
pub const DESTROY_ATTEMPTS: u8 = 10;

/// How long to wait between two tries, in milliseconds. Just after a jail was torn down the kernel may
/// still hold its mount for a moment.
pub const DESTROY_RETRY_MILLIS: u64 = 100;

/// How a command ended.
pub struct Output {
    /// The raw exit status.
    pub status: i32,
    /// The exit code, if the command was not killed.
    pub code: Option<i32>,
    pub stdout: Vec<u8>,
    pub stderr: Vec<u8>,
}

impl Output {
    pub open spec fn succeeded(&self) -> bool {
        self.code == Some(0i32)
    }

    /// Whether the command said that all went well.
    fn success(&self) -> (r: bool)
        ensures
            r == self.succeeded(),
    {
        match self.code {
            Some(code) => code == 0,
            None => false,
        }
    }
}

/// Some texts with a separator between them.
pub open spec fn joined(parts: Seq<Seq<char>>, sep: Seq<char>) -> Seq<char>
    decreases parts.len(),
{
    if parts.len() == 0 {
        Seq::empty()
    } else if parts.len() == 1 {
        parts[0]
    } else {
        joined(parts.drop_last(), sep) + sep + parts.last()
    }
}

/// Puts a separator between some texts.
pub fn join(parts: &Vec<String>, sep: &str) -> (r: String)
    ensures
        r@ == joined(views(parts@), sep@),
{
    let ghost all = views(parts@);
    let mut out = String::new();
    let mut i: usize = 0;
    assert(out@ =~= joined(all.take(0), sep@));
    while i < parts.len()
        invariant
            all == views(parts@),
            i <= parts@.len(),
            out@ == joined(all.take(i as int), sep@),
        decreases parts.len() - i,
    {
        let ghost before_part = out@;
        proof {
            assert(all.take(i + 1).drop_last() =~= all.take(i as int));
            assert(all.take(i + 1).last() == parts@[i as int]@);
        }
        if i > 0 {
            out.append(sep);
        }
        out.append(parts[i].as_str());
        if i == 0 {
            assert(all.take(1)[0] == parts@[0]@);
            assert(out@ =~= parts@[0]@);
        }
        i = i + 1;
    }
    assert(all.take(i as int) =~= all);
    out
}

/// A `zfs` command as it would be typed.
pub open spec fn command_line_of(args: Seq<Seq<char>>) -> Seq<char> {
    "zfs "@ + joined(args, " "@)
}

/// A `zfs` command as it would be typed.
pub fn command_line(args: &Vec<String>) -> (r: String)
    ensures
        r@ == command_line_of(views(args@)),
{
    let mut out = "zfs ".to_owned();
    out.append(join(args, " ").as_str());
    out
}

fn arg(s: &str) -> (r: String)
    ensures
        r@ == s@,
{
    s.to_owned()
}

/// Lists one dataset.
pub fn list_args(dataset: &str) -> (r: Vec<String>)
    ensures
        views(r@) == seq!["list"@, "-H"@, "-o"@, "name"@, dataset@],
{
    let r = vec![arg("list"), arg("-H"), arg("-o"), arg("name"), arg(dataset)];
    assert(views(r@) =~= seq!["list"@, "-H"@, "-o"@, "name"@, dataset@]);
    r
}

/// Lists a dataset and all below it.
pub fn list_recursive_args(parent: &str) -> (r: Vec<String>)
    ensures
        views(r@) == seq!["list"@, "-H"@, "-o"@, "name"@, "-r"@, parent@],
{
    let r = vec![arg("list"), arg("-H"), arg("-o"), arg("name"), arg("-r"), arg(parent)];
    assert(views(r@) =~= seq!["list"@, "-H"@, "-o"@, "name"@, "-r"@, parent@]);
    r
}

fn quota_arg(quota: &str) -> (r: String)
    ensures
        r@ == "quota="@ + quota@,
{
    let mut out = "quota=".to_owned();
    out.append(quota);
    out
}

/// Creates a dataset with a quota.
pub fn create_args(dataset: &str, quota: &str) -> (r: Vec<String>)
    ensures
        views(r@) == seq!["create"@, "-o"@, "quota="@ + quota@, dataset@],
{
    let r = vec![arg("create"), arg("-o"), quota_arg(quota), arg(dataset)];
    assert(views(r@) =~= seq!["create"@, "-o"@, "quota="@ + quota@, dataset@]);
    r
}

/// Sets the quota of a dataset.
pub fn set_quota_args(dataset: &str, quota: &str) -> (r: Vec<String>)
    ensures
        views(r@) == seq!["set"@, "quota="@ + quota@, dataset@],
{
    let r = vec![arg("set"), quota_arg(quota), arg(dataset)];
    assert(views(r@) =~= seq!["set"@, "quota="@ + quota@, dataset@]);
    r
}

/// Destroys a dataset, with all below it if `recursive` is set.
pub fn destroy_args(dataset: &str, recursive: bool) -> (r: Vec<String>)
    ensures
        views(r@) == if recursive {
            seq!["destroy"@, "-r"@, dataset@]
        } else {
            seq!["destroy"@, dataset@]
        },
{
    if recursive {
        let r = vec![arg("destroy"), arg("-r"), arg(dataset)];
        assert(views(r@) =~= seq!["destroy"@, "-r"@, dataset@]);
        r
    } else {
        let r = vec![arg("destroy"), arg(dataset)];
        assert(views(r@) =~= seq!["destroy"@, dataset@]);
        r
    }
}

/// Takes a snapshot.
pub fn snapshot_args(dataset: &str, snapshot: &str) -> (r: Vec<String>)
    ensures
        views(r@) == seq!["snapshot"@, snapshot_of(dataset@, snapshot@)],
{
    let r = vec![arg("snapshot"), snapshot_name(dataset, snapshot)];
    assert(views(r@) =~= seq!["snapshot"@, snapshot_of(dataset@, snapshot@)]);
    r
}

/// Destroys a snapshot.
pub fn destroy_snapshot_args(dataset: &str, snapshot: &str) -> (r: Vec<String>)
    ensures
        views(r@) == seq!["destroy"@, snapshot_of(dataset@, snapshot@)],
{
    let r = vec![arg("destroy"), snapshot_name(dataset, snapshot)];
    assert(views(r@) =~= seq!["destroy"@, snapshot_of(dataset@, snapshot@)]);
    r
}

/// Sends a snapshot, as the difference to a base if there is one.
pub fn send_args(dataset: &str, snapshot: &str, base: Option<&str>) -> (r: Vec<String>)
    ensures
        views(r@) == match base {
            Some(b) => seq!["send"@, "-i"@, snapshot_of(dataset@, b@), snapshot_of(dataset@, snapshot@)],
            None => seq!["send"@, snapshot_of(dataset@, snapshot@)],
        },
{
    match base {
        Some(b) => {
            let r = vec![arg("send"), arg("-i"), snapshot_name(dataset, b), snapshot_name(dataset, snapshot)];
            assert(views(r@) =~= seq!["send"@, "-i"@, snapshot_of(dataset@, b@), snapshot_of(dataset@, snapshot@)]);
            r
        },
        None => {
            let r = vec![arg("send"), snapshot_name(dataset, snapshot)];
            assert(views(r@) =~= seq!["send"@, snapshot_of(dataset@, snapshot@)]);
            r
        },
    }
}

/// Receives a snapshot.
pub fn receive_args(dataset: &str) -> (r: Vec<String>)
    ensures
        views(r@) == seq!["receive"@, dataset@],
{
    let r = vec![arg("receive"), arg(dataset)];
    assert(views(r@) =~= seq!["receive"@, dataset@]);
    r
}

/// Clones a snapshot, whose full name is given.
pub fn clone_args(snapshot: &str, target: &str) -> (r: Vec<String>)
    ensures
        views(r@) == seq!["clone"@, snapshot@, target@],
{
    let r = vec![arg("clone"), arg(snapshot), arg(target)];
    assert(views(r@) =~= seq!["clone"@, snapshot@, target@]);
    r
}

/// Why a command failed, if it did.
pub open spec fn run_failure(args: Seq<Seq<char>>, ran: Result<Output, String>) -> Option<ZfsErrorView> {
    match ran {
        Err(reason) => Some(ZfsErrorView::Spawn("zfs"@, reason@)),
        Ok(output) => if output.succeeded() {
            None
        } else {
            Some(ZfsErrorView::CommandFailed(command_line_of(args), output.status, text_of(output.stderr@)))
        },
    }
}

/// Whether a command went well. `ran` says how it ended, or why it could not be started.
pub fn run_checked(args: &Vec<String>, ran: Result<Output, String>) -> (r: Result<(), ZfsError>)
    ensures
        failure(r) == run_failure(views(args@), ran),
{
    match ran {
        Err(reason) => Err(ZfsError::Spawn(arg("zfs"), reason)),
        Ok(output) => if output.success() {
            Ok(())
        } else {
            Err(
                ZfsError::CommandFailed(command_line(args), output.status, from_utf8_lossy(output.stderr.as_slice())),
            )
        },
    }
}

/// Whether a dataset exists, from how listing it ended: exit code 1 says that it does not.
pub fn exists_from(dataset: &str, ran: Result<Output, String>) -> (r: Result<bool, ZfsError>)
    ensures
        match ran {
            Ok(output) if output.succeeded() => r == Ok::<bool, ZfsError>(true),
            Ok(output) if output.code == Some(1i32) => r == Ok::<bool, ZfsError>(false),
            _ => r is Err && failure(r) == run_failure(seq!["list"@, "-H"@, "-o"@, "name"@, dataset@], ran),
        },
{
    match ran {
        Err(reason) => Err(ZfsError::Spawn(arg("zfs"), reason)),
        Ok(output) => {
            if output.success() {
                return Ok(true);
            }
            if let Some(code) = output.code {
                if code == 1 {
                    return Ok(false);
                }
            }
            Err(
                ZfsError::CommandFailed(
                    command_line(&list_args(dataset)),
                    output.status,
                    from_utf8_lossy(output.stderr.as_slice()),
                ),
            )
        },
    }
}

/// The pieces of a text between line breaks.
pub open spec fn pieces(s: Seq<char>) -> Seq<Seq<char>>
    decreases s.len(),
{
    if s.len() == 0 {
        seq![Seq::empty()]
    } else {
        let prior = pieces(s.drop_last());
        if s.last() == '\n' {
            prior.push(Seq::empty())
        } else {
            prior.drop_last().push(prior.last().push(s.last()))
        }
    }
}

/// The children of a dataset among some lines, in the order of the lines.
pub open spec fn children_in(parent: Seq<char>, lines: Seq<Seq<char>>) -> Seq<Seq<char>>
    decreases lines.len(),
{
    if lines.len() == 0 {
        Seq::empty()
    } else {
        let prior = children_in(parent, lines.drop_last());
        if is_child(parent, trimmed(lines.last())) {
            prior.push(trimmed(lines.last()))
        } else {
            prior
        }
    }
}

/// The children of a dataset in a listing, in the order of the lines.
fn children_from(parent: &str, listing: &str) -> (r: Vec<String>)
    ensures
        views(r@) == children_in(parent@, pieces(listing@)),
{
    let v = chars_of(listing);
    let mut out: Vec<String> = Vec::new();
    let mut start: usize = 0;
    let mut i: usize = 0;
    assert(pieces(v@.take(0)).drop_last() =~= Seq::empty());
    assert(pieces(v@.take(0)).last() =~= v@.subrange(0, 0));
    while i < v.len()
        invariant
            v@ == listing@,
            start <= i <= v@.len(),
            pieces(v@.take(i as int)).len() >= 1,
            pieces(v@.take(i as int)).last() == v@.subrange(start as int, i as int),
            views(out@) == children_in(parent@, pieces(v@.take(i as int)).drop_last()),
        decreases v.len() - i,
    {
        let ghost prior = pieces(v@.take(i as int));
        assert(v@.take(i + 1).drop_last() =~= v@.take(i as int));
        assert(v@.take(i + 1).last() == v@[i as int]);
        if v[i] == '\n' {
            push_child(parent, &v, start, i, &mut out, Ghost(prior));
            i = i + 1;
            start = i;
            assert(pieces(v@.take(i as int)).drop_last() =~= prior);
            assert(pieces(v@.take(i as int)).last() =~= v@.subrange(start as int, i as int));
        } else {
            i = i + 1;
            assert(v@.subrange(start as int, i as int) =~= v@.subrange(start as int, i - 1).push(v@[i - 1]));
            assert(pieces(v@.take(i as int)).drop_last() =~= prior.drop_last());
        }
    }
    assert(v@.take(i as int) =~= listing@);
    push_child(parent, &v, start, i, &mut out, Ghost(pieces(listing@)));
    out
}

/// Appends the line between two places, if it names a child.
fn push_child(
    parent: &str,
    v: &Vec<char>,
    start: usize,
    end: usize,
    out: &mut Vec<String>,
    Ghost(lines): Ghost<Seq<Seq<char>>>,
)
    requires
        start <= end <= v@.len(),
        lines.len() >= 1,
        lines.last() == v@.subrange(start as int, end as int),
        views(old(out)@) == children_in(parent@, lines.drop_last()),
    ensures
        views(final(out)@) == children_in(parent@, lines),
{
    let name = trim(v, start, end);
    let ghost before_push = out@;
    if is_child_of(parent, name.as_str()) {
        let ghost added = name@;
        out.push(name);
        assert(views(out@) =~= views(before_push).push(added));
    }
}

/// The children of a dataset in ascending order, from how listing all below it ended: exit code 1 says
/// that there is no such dataset, so it has none.
pub fn children_of(parent: &str, ran: Result<Output, String>) -> (r: Result<Vec<String>, ZfsError>)
    ensures
        match ran {
            Ok(output) if output.succeeded() => r matches Ok(children) && in_order(views(children@)) && views(
                children@,
            ).to_multiset() == children_in(parent@, pieces(text_of(output.stdout@))).to_multiset(),
            Ok(output) if output.code == Some(1i32) => r matches Ok(children) && children@.len() == 0,
            _ => r is Err && failure(r) == run_failure(
                seq!["list"@, "-H"@, "-o"@, "name"@, "-r"@, parent@],
                ran,
            ),
        },
{
    match ran {
        Err(reason) => Err(ZfsError::Spawn(arg("zfs"), reason)),
        Ok(output) => {
            if !output.success() {
                if let Some(code) = output.code {
                    if code == 1 {
                        return Ok(Vec::new());
                    }
                }
                return Err(
                    ZfsError::CommandFailed(
                        command_line(&list_recursive_args(parent)),
                        output.status,
                        from_utf8_lossy(output.stderr.as_slice()),
                    ),
                );
            }
            let listing = from_utf8_lossy(output.stdout.as_slice());
            Ok(sort(children_from(parent, listing.as_str())))
        },
    }
}

/// Whether sending or receiving went well. The exit status of the command counts before the copying of
/// its data: a command that fails ends the copying too.
pub fn transfer_result(
    args: &Vec<String>,
    what: &str,
    ended: Result<(Result<(), String>, Output), String>,
) -> (r: Result<(), ZfsError>)
    ensures
        failure(r) == match ended {
            Err(reason) => Some(ZfsErrorView::Spawn("zfs"@, reason@)),
            Ok((copied, output)) => if !output.succeeded() {
                run_failure(views(args@), Ok(output))
            } else {
                match copied {
                    Ok(_) => None,
                    Err(reason) => Some(ZfsErrorView::Spawn("zfs "@ + what@, reason@)),
                }
            },
        },
{
    match ended {
        Err(reason) => Err(ZfsError::Spawn(arg("zfs"), reason)),
        Ok((copied, output)) => {
            if !output.success() {
                return Err(
                    ZfsError::CommandFailed(
                        command_line(args),
                        output.status,
                        from_utf8_lossy(output.stderr.as_slice()),
                    ),
                );
            }
            match copied {
                Ok(_) => Ok(()),
                Err(reason) => {
                    let mut command = "zfs ".to_owned();
                    command.append(what);
                    Err(ZfsError::Spawn(command, reason))
                },
            }
        },
    }
}

/// The failure of a command whose standard error holds a text.
pub open spec fn says(e: ZfsErrorView, what: Seq<char>) -> bool {
    e matches ZfsErrorView::CommandFailed(_, _, stderr) && find_from(stderr, what, 0) is Some
}

fn said(e: &ZfsError, what: &str) -> (r: bool)
    ensures
        r == says(e@, what@),
{
    match e {
        ZfsError::CommandFailed(_, _, stderr) => contains(stderr.as_str(), what),
        _ => false,
    }
}

/// What comes after a try to destroy a dataset.
pub enum DestroyStep {
    /// Try again, after [`DESTROY_RETRY_MILLIS`].
    Retry,
    Done(Result<(), ZfsError>),
}

/// What a [`DestroyStep`] holds.
pub enum DestroyStepView {
    Retry,
    Done(Option<ZfsErrorView>),
}

impl View for DestroyStep {
    type V = DestroyStepView;

    open spec fn view(&self) -> DestroyStepView {
        match self {
            DestroyStep::Retry => DestroyStepView::Retry,
            DestroyStep::Done(r) => DestroyStepView::Done(failure(*r)),
        }
    }
}

/// What comes after the `attempt`-th try, the first being number one, that failed like this or went well.
pub open spec fn destroy_step(dataset: Seq<char>, attempt: int, r: Option<ZfsErrorView>) -> DestroyStepView {
    match r {
        None => DestroyStepView::Done(None),
        Some(e) => if says(e, "dataset does not exist"@) {
            DestroyStepView::Done(Some(ZfsErrorView::NotFound(dataset)))
        } else if says(e, "dataset is busy"@) {
            if attempt < DESTROY_ATTEMPTS {
                DestroyStepView::Retry
            } else {
                DestroyStepView::Done(Some(ZfsErrorView::Busy(dataset)))
            }
        } else {
            DestroyStepView::Done(Some(e))
        },
    }
}

/// Decides what comes after a try to destroy a dataset: a busy dataset is tried again, up to
/// [`DESTROY_ATTEMPTS`] times in all.
pub fn after_destroy(dataset: &str, attempt: u8, r: Result<(), ZfsError>) -> (step: DestroyStep)
    ensures
        step@ == destroy_step(dataset@, attempt as int, failure(r)),
{
    match r {
        Ok(_) => DestroyStep::Done(Ok(())),
        Err(e) => {
            if said(&e, "dataset does not exist") {
                return DestroyStep::Done(Err(ZfsError::NotFound(dataset.to_owned())));
            }
            if said(&e, "dataset is busy") {
                if attempt < DESTROY_ATTEMPTS {
                    DestroyStep::Retry
                } else {
                    DestroyStep::Done(Err(ZfsError::Busy(dataset.to_owned())))
                }
            } else {
                DestroyStep::Done(Err(e))
            }
        },
    }
}

/// How trying to destroy a dataset ends, when the tries end like these; none if they do not suffice.
pub open spec fn destroy_outcome(dataset: Seq<char>, first: int, tries: Seq<Option<ZfsErrorView>>) -> Option<
    Option<ZfsErrorView>,
>
    decreases tries.len(),
{
    if tries.len() == 0 {
        None
    } else {
        match destroy_step(dataset, first, tries[0]) {
            DestroyStepView::Done(r) => Some(r),
            DestroyStepView::Retry => destroy_outcome(dataset, first + 1, tries.skip(1)),
        }
    }
}

/// Destroying a dataset takes ten tries at most, and fails with `Busy` exactly if all of them find it
/// busy.
pub proof fn law_destroy_ends(dataset: Seq<char>, tries: Seq<Option<ZfsErrorView>>)
    requires
        tries.len() == DESTROY_ATTEMPTS,
        forall|i: int|
            0 <= i < tries.len() ==> ((#[trigger] tries[i]) matches Some(e) ==> !(e is Busy)),
    ensures
        destroy_outcome(dataset, 1, tries) is Some,
        destroy_outcome(dataset, 1, tries)->0 == Some(ZfsErrorView::Busy(dataset)) <==> forall|i: int|
            0 <= i < tries.len() ==> found_busy(#[trigger] tries[i]),
{
    lemma_destroy_ends(dataset, 1, tries);
}

/// A try that found the dataset busy.
pub open spec fn found_busy(r: Option<ZfsErrorView>) -> bool {
    r matches Some(e) && says(e, "dataset is busy"@) && !says(e, "dataset does not exist"@)
}

proof fn lemma_destroy_ends(dataset: Seq<char>, first: int, tries: Seq<Option<ZfsErrorView>>)
    requires
        tries.len() > 0,
        first + tries.len() == DESTROY_ATTEMPTS + 1,
        forall|i: int|
            0 <= i < tries.len() ==> ((#[trigger] tries[i]) matches Some(e) ==> !(e is Busy)),
    ensures
        destroy_outcome(dataset, first, tries) is Some,
        destroy_outcome(dataset, first, tries)->0 == Some(ZfsErrorView::Busy(dataset)) <==> forall|i: int|
            0 <= i < tries.len() ==> found_busy(#[trigger] tries[i]),
    decreases tries.len(),
{
    let rest = tries.skip(1);
    if destroy_step(dataset, first, tries[0]) is Retry {
        assert forall|i: int| 0 <= i < rest.len() implies #[trigger] rest[i] == tries[i + 1] by {}
        lemma_destroy_ends(dataset, first + 1, rest);
        assert(found_busy(tries[0]));
        if forall|i: int| 0 <= i < tries.len() ==> found_busy(#[trigger] tries[i]) {
            assert forall|i: int| 0 <= i < rest.len() implies found_busy(#[trigger] rest[i]) by {
                assert(found_busy(tries[i + 1]));
            }
        }
        if forall|i: int| 0 <= i < rest.len() ==> found_busy(#[trigger] rest[i]) {
            assert forall|i: int| 0 <= i < tries.len() implies found_busy(#[trigger] tries[i]) by {
                if i > 0 {
                    assert(found_busy(rest[i - 1]));
                }
            }
        }
    } else {
        if first == DESTROY_ATTEMPTS && found_busy(tries[0]) {
            assert(tries.len() == 1);
        } else {
            assert(!found_busy(tries[0]));
        }
    }
}

/// What cloning a base has to do next.
pub enum CloneStep {
    /// Ask whether the snapshot of the base exists.
    Check,
    /// Take the snapshot.
    Take,
    /// Ask again whether the snapshot exists: taking it failed like this, maybe since another clone of the
    /// base has taken it in the meantime.
    Recheck(ZfsError),
    /// Clone the snapshot.
    Clone,
    Done(Result<(), ZfsError>),
}

/// What a [`CloneStep`] holds.
pub enum CloneStepView {
    Check,
    Take,
    Recheck(ZfsErrorView),
    Clone,
    Done(Option<ZfsErrorView>),
}

impl View for CloneStep {
    type V = CloneStepView;

    open spec fn view(&self) -> CloneStepView {
        match self {
            CloneStep::Check => CloneStepView::Check,
            CloneStep::Take => CloneStepView::Take,
            CloneStep::Recheck(e) => CloneStepView::Recheck(e@),
            CloneStep::Clone => CloneStepView::Clone,
            CloneStep::Done(r) => CloneStepView::Done(failure(*r)),
        }
    }
}

/// What came of a step.
pub enum CloneEvent {
    /// Whether the snapshot exists.
    Exists(Result<bool, ZfsError>),
    /// How taking the snapshot or cloning it ended.
    Ran(Result<(), ZfsError>),
}

/// The step that follows. An event that a step does not wait for changes nothing.
pub open spec fn clone_next(step: CloneStepView, event: CloneEvent) -> CloneStepView {
    match (step, event) {
        (CloneStepView::Check, CloneEvent::Exists(r)) => match r {
            Ok(true) => CloneStepView::Clone,
            Ok(false) => CloneStepView::Take,
            Err(e) => CloneStepView::Done(Some(e@)),
        },
        (CloneStepView::Take, CloneEvent::Ran(r)) => match r {
            Ok(_) => CloneStepView::Clone,
            Err(e) => CloneStepView::Recheck(e@),
        },
        (CloneStepView::Recheck(first), CloneEvent::Exists(r)) => match r {
            Ok(true) => CloneStepView::Clone,
            Ok(false) => CloneStepView::Done(Some(first)),
            Err(e) => CloneStepView::Done(Some(e@)),
        },
        (CloneStepView::Clone, CloneEvent::Ran(r)) => CloneStepView::Done(failure(r)),
        _ => step,
    }
}

/// The step that follows on an event.
pub fn clone_advance(step: CloneStep, event: CloneEvent) -> (r: CloneStep)
    ensures
        r@ == clone_next(step@, event),
{
    match step {
        CloneStep::Check => match event {
            CloneEvent::Exists(Ok(true)) => CloneStep::Clone,
            CloneEvent::Exists(Ok(false)) => CloneStep::Take,
            CloneEvent::Exists(Err(e)) => CloneStep::Done(Err(e)),
            CloneEvent::Ran(_) => CloneStep::Check,
        },
        CloneStep::Take => match event {
            CloneEvent::Ran(Ok(_)) => CloneStep::Clone,
            CloneEvent::Ran(Err(e)) => CloneStep::Recheck(e),
            CloneEvent::Exists(_) => CloneStep::Take,
        },
        CloneStep::Recheck(first) => match event {
            CloneEvent::Exists(Ok(true)) => CloneStep::Clone,
            CloneEvent::Exists(Ok(false)) => CloneStep::Done(Err(first)),
            CloneEvent::Exists(Err(e)) => CloneStep::Done(Err(e)),
            CloneEvent::Ran(_) => CloneStep::Recheck(first),
        },
        CloneStep::Clone => match event {
            CloneEvent::Ran(r) => CloneStep::Done(r),
            CloneEvent::Exists(_) => CloneStep::Clone,
        },
        CloneStep::Done(r) => CloneStep::Done(r),
    }
}

/// A base is cloned exactly when its snapshot is known to exist: it was found, or taken, or found after
/// another clone of the base was quicker to take it. Where taking it failed and it still does not exist, that
/// failure is the outcome.
pub proof fn law_clones_have_a_snapshot(step: CloneStepView, event: CloneEvent)
    requires
        step is Check || step is Take || step is Recheck,
    ensures
        clone_next(step, event) is Clone <==> match event {
            CloneEvent::Exists(r) => !(step is Take) && r == Ok::<bool, ZfsError>(true),
            CloneEvent::Ran(r) => step is Take && r is Ok,
        },
        step is Recheck && event == CloneEvent::Exists(Ok(false)) ==> clone_next(step, event) == CloneStepView::Done(
            Some(step->Recheck_0),
        ),
        step is Check && event == CloneEvent::Exists(Ok(false)) ==> clone_next(step, event) is Take,
{
}

/// The snapshot that a base is cloned from.
pub fn base_snapshot(base_dataset: &str) -> (r: String)
    ensures
        r@ == snapshot_of(base_dataset@, "keel"@),
{
    snapshot_name(base_dataset, "keel")
}

/// What to do to create a volume, from whether it exists: nothing if it does, so its quota stays.
pub fn create_volume_args(known: Result<bool, ZfsError>, dataset: &str, quota: &str) -> (r: Result<
    Option<Vec<String>>,
    ZfsError,
>)
    ensures
        match known {
            Err(e) => r == Err::<Option<Vec<String>>, ZfsError>(e),
            Ok(true) => r matches Ok(None),
            Ok(false) => r matches Ok(Some(args)) && views(args@) == seq![
                "create"@,
                "-o"@,
                "quota="@ + quota@,
                dataset@,
            ],
        },
{
    match known {
        Err(e) => Err(e),
        Ok(true) => Ok(None),
        Ok(false) => Ok(Some(create_args(dataset, quota))),
    }
}

} // verus!
