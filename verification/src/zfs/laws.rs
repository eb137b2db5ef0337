//! What the names, listings and failures of ZFS say, told by their parts.

use crate::text::{find_from, has_prefix, occurs_at, split_at_first, text_of, trimmed};
use crate::text_laws::law_splitting;
use crate::zfs::cli::{
    children_in, clone_next, command_line_of, destroy_step, joined, pieces, run_failure, CloneEvent,
    CloneStepView, DestroyStepView, Output,
};
use crate::zfs::error::{failure, ZfsErrorView};
use crate::zfs::fake::{parsed_stream, stream_text, without_newline, FakeZfsView};
use crate::zfs::names::{is_child, snapshot_of};
use vstd::prelude::*;
use vstd::utf8::{decode_utf8, valid_utf8};

verus! {

/// The children of a dataset are the names that go one step below it, and no further.
pub proof fn law_children(parent: Seq<char>, name: Seq<char>)
    ensures
        is_child(parent, name) <==> exists|rest: Seq<char>|
            #![trigger parent + seq!['/'] + rest]
            name == parent + seq!['/'] + rest && !rest.contains('/'),
{
    reveal_strlit("/");
    let prefix = parent + "/"@;
    assert("/"@ =~= seq!['/']);
    if is_child(parent, name) {
        let rest = name.skip(prefix.len() as int);
        assert(name =~= name.take(prefix.len() as int) + rest);
        assert(name == parent + seq!['/'] + rest);
    }
    if exists|rest: Seq<char>|
        #![trigger parent + seq!['/'] + rest]
        name == parent + seq!['/'] + rest && !rest.contains('/') {
        let rest = choose|rest: Seq<char>|
            #![trigger parent + seq!['/'] + rest]
            name == parent + seq!['/'] + rest && !rest.contains('/');
        assert(name.take(prefix.len() as int) =~= prefix);
        assert(name.skip(prefix.len() as int) =~= rest);
    }
}

/// Snapshots of different names, or of different datasets without `@` in their names, have different names.
pub proof fn law_snapshot_names(a: Seq<char>, x: Seq<char>, b: Seq<char>, y: Seq<char>)
    requires
        !a.contains('@'),
        !b.contains('@'),
        snapshot_of(a, x) == snapshot_of(b, y),
    ensures
        a == b,
        x == y,
        snapshot_of(a, x) == a + seq!['@'] + x,
{
    reveal_strlit("@");
    assert("@"@ =~= seq!['@']);
    let s = snapshot_of(a, x);
    let t = snapshot_of(b, y);
    assert(s[a.len() as int] == '@');
    assert(t[b.len() as int] == '@');
    if a.len() < b.len() {
        assert(t[a.len() as int] == b[a.len() as int]);
    } else if b.len() < a.len() {
        assert(s[b.len() as int] == a[b.len() as int]);
    }
    assert(a =~= s.take(a.len() as int));
    assert(b =~= t.take(b.len() as int));
    assert(x =~= s.skip(a.len() as int + 1));
    assert(y =~= t.skip(b.len() as int + 1));
}

/// Some texts with a separator behind each of them.
pub open spec fn closed_by(parts: Seq<Seq<char>>, sep: Seq<char>) -> Seq<char> {
    Seq::new(parts.len(), |i: int| parts[i] + sep).flatten()
}

/// A separator stands between any two texts that are joined, and nowhere else: with one more at the end, each text is
/// followed by one.
pub proof fn law_joined(parts: Seq<Seq<char>>, sep: Seq<char>)
    ensures
        parts.len() > 0 ==> joined(parts, sep) + sep == closed_by(parts, sep),
        parts.len() == 0 ==> joined(parts, sep).len() == 0,
        command_line_of(parts) == "zfs "@ + joined(parts, " "@),
    decreases parts.len(),
{
    let all = Seq::new(parts.len(), |i: int| parts[i] + sep);
    if parts.len() > 0 {
        let rest = parts.drop_last();
        let fewer = Seq::new(rest.len(), |i: int| rest[i] + sep);
        law_joined(rest, sep);
        assert(all =~= fewer.push(parts.last() + sep));
        fewer.lemma_flatten_push(parts.last() + sep);
        if parts.len() == 1 {
            assert(fewer =~= Seq::empty());
            assert(joined(parts, sep) + sep =~= closed_by(parts, sep));
        } else {
            assert(joined(parts, sep) + sep =~= joined(rest, sep) + sep + (parts.last() + sep));
        }
    }
}

/// The pieces of a text have no line break in them, and with line breaks between them they are the text.
pub proof fn law_pieces(s: Seq<char>)
    ensures
        pieces(s).len() >= 1,
        joined(pieces(s), seq!['\n']) == s,
        forall|i: int| 0 <= i < pieces(s).len() ==> !(#[trigger] pieces(s)[i]).contains('\n'),
    decreases s.len(),
{
    let line = seq!['\n'];
    if s.len() == 0 {
        assert(joined(pieces(s), line) =~= s);
    } else {
        let rest = s.drop_last();
        law_pieces(rest);
        let prior = pieces(rest);
        let all = pieces(s);
        if s.last() == '\n' {
            assert(all.drop_last() =~= prior);
            assert(joined(all, line) =~= s);
            assert forall|i: int| 0 <= i < all.len() implies !(#[trigger] all[i]).contains('\n') by {
                if i < prior.len() {
                    assert(all[i] == prior[i]);
                }
            }
        } else {
            let last = prior.last().push(s.last());
            assert(all.drop_last() =~= prior.drop_last());
            assert(all.last() == last);
            assert(prior[prior.len() - 1] == prior.last());
            if all.len() == 1 {
                assert(prior.len() == 1);
                assert(joined(all, line) =~= s);
            } else {
                assert(joined(prior, line) == joined(prior.drop_last(), line) + line + prior.last());
                assert(joined(all, line) =~= joined(prior, line).push(s.last()));
                assert(joined(all, line) =~= s);
            }
            assert forall|i: int| 0 <= i < all.len() implies !(#[trigger] all[i]).contains('\n') by {
                if i < prior.len() - 1 {
                    assert(all[i] == prior[i]);
                } else {
                    assert(all[i] == last);
                    if last.contains('\n') {
                        let k = choose|k: int| 0 <= k < last.len() && last[k] == '\n';
                        assert(prior.last()[k] == '\n');
                    }
                }
            }
        }
    }
}

/// The children in a listing are the lines, without the white space around them, that name a child: all of them, in their
/// order.
pub proof fn law_children_listed(parent: Seq<char>, lines: Seq<Seq<char>>)
    ensures
        children_in(parent, lines) == lines.map_values(|line: Seq<char>| trimmed(line)).filter(
            |name: Seq<char>| is_child(parent, name),
        ),
    decreases lines.len(),
{
    reveal(Seq::filter);
    let names = lines.map_values(|line: Seq<char>| trimmed(line));
    if lines.len() > 0 {
        law_children_listed(parent, lines.drop_last());
        assert(names.drop_last() =~= lines.drop_last().map_values(|line: Seq<char>| trimmed(line)));
    } else {
        assert(names =~= Seq::empty());
    }
}

/// A command fails if it could not be started, or ended with anything but the exit code zero; it is told as it was typed,
/// with its status and what it said.
pub proof fn law_failures(args: Seq<Seq<char>>, ran: Result<Output, String>)
    ensures
        run_failure(args, ran) is None <==> (ran matches Ok(output) && output.code == Some(0i32)),
        ran matches Err(reason) ==> run_failure(args, ran) == Some(ZfsErrorView::Spawn("zfs"@, reason@)),
        ran matches Ok(output) ==> output.code != Some(0i32) ==> run_failure(args, ran) == Some(
            ZfsErrorView::CommandFailed("zfs "@ + joined(args, " "@), output.status, text_of(output.stderr@)),
        ),
{
}

/// After a try to destroy a dataset: success is the end. A dataset that is not there is told by its own name, a busy one
/// is tried again until the tenth try, and is then told by its own name; any other failure is the end, as it is.
pub proof fn law_destroy_steps(dataset: Seq<char>, attempt: int, command: Seq<char>, status: i32, stderr: Seq<char>)
    ensures
        ({
            let e = ZfsErrorView::CommandFailed(command, status, stderr);
            let gone = find_from(stderr, "dataset does not exist"@, 0) is Some;
            let busy = find_from(stderr, "dataset is busy"@, 0) is Some;
            let step = destroy_step(dataset, attempt, Some(e));
            &&& gone ==> step == DestroyStepView::Done(Some(ZfsErrorView::NotFound(dataset)))
            &&& !gone && busy && attempt < 10 ==> step == DestroyStepView::Retry
            &&& !gone && busy && attempt >= 10 ==> step == DestroyStepView::Done(Some(ZfsErrorView::Busy(dataset)))
            &&& !gone && !busy ==> step == DestroyStepView::Done(Some(e))
        }),
        destroy_step(dataset, attempt, None) == DestroyStepView::Done(None),
        forall|e: ZfsErrorView|
            !(e is CommandFailed) ==> #[trigger] destroy_step(dataset, attempt, Some(e)) == DestroyStepView::Done(Some(e)),
{
}

/// What cloning a base comes to. A question that fails ends it with that failure; a snapshot that could be taken, or is
/// there after all, is cloned; how the cloning ends is how it all ends.
pub proof fn law_clone_steps(step: CloneStepView, event: CloneEvent)
    ensures
        ({
            let next = clone_next(step, event);
            &&& (step is Check || step is Recheck) && (event matches CloneEvent::Exists(r) && r is Err)
                ==> next == CloneStepView::Done(failure(event->Exists_0))
            &&& step is Take && (event matches CloneEvent::Ran(r) && r is Err) ==> next == CloneStepView::Recheck(
                event->Ran_0->Err_0@,
            )
            &&& step is Clone && event is Ran ==> next == CloneStepView::Done(failure(event->Ran_0))
            &&& step is Done ==> next == step
            &&& (step is Check || step is Recheck) && event is Ran ==> next == step
            &&& (step is Take || step is Clone) && event is Exists ==> next == step
        }),
{
}

/// A snapshot can be sent exactly if it is there, and its base too if one is given; the first that is missing is told by
/// its name.
pub proof fn law_sending(zfs: FakeZfsView, dataset: Seq<char>, snapshot: Seq<char>, base: Option<Seq<char>>)
    ensures
        ({
            let sent = dataset + seq!['@'] + snapshot;
            let failed = zfs.send_failure(dataset, snapshot, base);
            &&& !zfs.snapshots.contains(sent) ==> failed == Some(ZfsErrorView::NotFound(sent))
            &&& zfs.snapshots.contains(sent) && base is None ==> failed is None
            &&& zfs.snapshots.contains(sent) && base is Some && zfs.snapshots.contains(dataset + seq!['@'] + base->0)
                ==> failed is None
            &&& zfs.snapshots.contains(sent) && base is Some && !zfs.snapshots.contains(dataset + seq!['@'] + base->0)
                ==> failed == Some(ZfsErrorView::NotFound(dataset + seq!['@'] + base->0))
        }),
{
    reveal_strlit("@");
    assert("@"@ =~= seq!['@']);
}

/// A received stream leaves everything as it was, but for the dataset that it went to and the one snapshot that it holds;
/// a stream that is refused is not taken for another reason than that it makes no sense or that its base is missing.
pub proof fn law_receiving(zfs: FakeZfsView, dataset: Seq<char>, input: Seq<u8>)
    ensures
        ({
            let after = zfs.received(dataset, input);
            &&& after.busy == zfs.busy
            &&& after.quotas == zfs.quotas
            &&& forall|other: Seq<char>|
                other != dataset ==> #[trigger] after.datasets.contains(other) == zfs.datasets.contains(other)
            &&& forall|name: Seq<char>| #[trigger] zfs.snapshots.contains(name) ==> after.snapshots.contains(name)
            &&& zfs.receive_failure(dataset, input) is None ==> after.datasets.contains(dataset)
            &&& forall|name: Seq<char>|
                #[trigger] after.snapshots.contains(name) && !zfs.snapshots.contains(name) ==> has_prefix(
                    name,
                    dataset + seq!['@'],
                )
        }),
{
    reveal_strlit("@");
    assert("@"@ =~= seq!['@']);
    let after = zfs.received(dataset, input);
    assert forall|name: Seq<char>|
        #[trigger] after.snapshots.contains(name) && !zfs.snapshots.contains(name) implies has_prefix(
        name,
        dataset + seq!['@'],
    ) by {
        let snapshot = choose|snapshot: Seq<char>| name == #[trigger] snapshot_of(dataset, snapshot);
        assert(name.take((dataset + seq!['@']).len() as int) =~= dataset + seq!['@']);
    }
}

/// Streams of different snapshots, or on different bases, are told apart.
pub proof fn law_streams(dataset: Seq<char>, snapshot: Seq<char>, base: Option<Seq<char>>)
    ensures
        stream_text(dataset, snapshot, base) == "keel-zfs-fake-send:"@ + snapshot_of(dataset, snapshot) + ":base="@ + (
        if base is Some {
            base->0
        } else {
            "none"@
        }) + "\n"@,
{
    assert(stream_text(dataset, snapshot, base) =~= "keel-zfs-fake-send:"@ + snapshot_of(dataset, snapshot)
        + ":base="@ + (if base is Some {
        base->0
    } else {
        "none"@
    }) + "\n"@);
}

/// A text is a stream of a snapshot: behind the marker stand a dataset and the snapshot with the first `@` between them, and
/// behind the first `:base=` the base, or `none`; a line break may end it.
pub open spec fn is_stream_of(
    text: Seq<char>,
    dataset: Seq<char>,
    snapshot: Seq<char>,
    base: Seq<char>,
    end: Seq<char>,
) -> bool {
    &&& text == "keel-zfs-fake-send:"@ + (dataset + "@"@ + snapshot + ":base="@ + base) + end
    &&& end == seq!['\n'] || (end.len() == 0 && (base.len() == 0 || base.last() != '\n'))
    &&& forall|j: int|
        0 <= j < (dataset + "@"@ + snapshot).len() ==> !#[trigger] occurs_at(
            dataset + "@"@ + snapshot + ":base="@ + base,
            ":base="@,
            j,
        )
    &&& forall|j: int| 0 <= j < dataset.len() ==> !#[trigger] occurs_at(dataset + "@"@ + snapshot, "@"@, j)
}

/// What is read from a stream is the snapshot that it says it holds, and the base that it says it builds on.
pub proof fn law_reading_streams(text: Seq<char>)
    ensures
        parsed_stream(text) matches Some((snapshot, base)) ==> says_stream(text, snapshot, base),
{
    reveal_strlit(":base=");
    assert(":base="@.len() == 6);
    let marker = "keel-zfs-fake-send:"@;
    if parsed_stream(text) is Some {
        let rest = text.skip(marker.len() as int);
        assert(text =~= marker + rest);
        let line = without_newline(rest);
        let end = rest.skip(line.len() as int);
        assert(rest =~= line + end);
        law_splitting(line, ":base="@);
        let (sent, written) = split_at_first(line, ":base="@)->0;
        law_splitting(sent, "@"@);
        let (dataset, snapshot) = split_at_first(sent, "@"@)->0;
        assert(line == dataset + "@"@ + snapshot + ":base="@ + written);
        if rest.len() > 0 && rest.last() == '\n' {
            assert(end =~= seq!['\n']);
        } else {
            assert(end =~= Seq::empty());
            if written.len() > 0 {
                assert(line.last() == written.last());
            }
        }
        assert(text =~= marker + line + end);
        assert(is_stream_of(text, dataset, snapshot, written, end));
        assert(says_stream(
            text,
            snapshot,
            if written == "none"@ {
                None
            } else {
                Some(written)
            },
        ));
    }
}

/// A text is a stream of this snapshot, on this base.
pub open spec fn says_stream(text: Seq<char>, snapshot: Seq<char>, base: Option<Seq<char>>) -> bool {
    exists|dataset: Seq<char>, written: Seq<char>, end: Seq<char>|
        {
            &&& #[trigger] is_stream_of(text, dataset, snapshot, written, end)
            &&& written == "none"@ ==> base is None
            &&& written != "none"@ ==> base == Some(written)
        }
}

/// A stream is refused exactly if it is no text, is no stream, or builds on a snapshot that the receiver's dataset does not have.
pub proof fn law_refused_streams(zfs: FakeZfsView, dataset: Seq<char>, input: Seq<u8>)
    ensures
        zfs.receive_failure(dataset, input) is None <==> {
            &&& valid_utf8(input)
            &&& parsed_stream(decode_utf8(input)) is Some
            &&& parsed_stream(decode_utf8(input)) matches Some((_, Some(base))) ==> zfs.snapshots.contains(
                dataset + seq!['@'] + base,
            )
        },
        zfs.receive_failure(dataset, input) is None ==> zfs.received(dataset, input).snapshots.contains(
            dataset + seq!['@'] + parsed_stream(decode_utf8(input))->Some_0.0,
        ),
{
    reveal_strlit("@");
    assert("@"@ =~= seq!['@']);
}

} // verus!
