//! A stand-in for ZFS that keeps its datasets in memory.

use crate::strmap::StrMap;
use crate::text::{
    find_from, from_utf8, has_prefix, lemma_find_from, lemma_find_is, occurs_at, same, split_at_first, split_once,
    str_before, string_of, strip_prefix, chars_of,
};
use crate::views::{opt_view, views};
use crate::zfs::error::{failure, ZfsError, ZfsErrorView};
use crate::zfs::names::{is_child, is_child_of, snapshot_name, snapshot_of};
use vstd::prelude::*;
use vstd::string::*;
use vstd::utf8::{decode_utf8, encode_utf8, encode_utf8_decode_utf8, encode_utf8_valid_utf8, valid_utf8};

verus! {

/// Datasets in memory.
pub struct FakeZfsManager {
    datasets: StrMap<()>,
    snapshots: StrMap<()>,
    busy: StrMap<()>,
    quotas: StrMap<String>,
}

/// What a [`FakeZfsManager`] holds.
#[verifier::ext_equal]
pub struct FakeZfsView {
    pub datasets: Set<Seq<char>>,
    /// The full names of the snapshots.
    pub snapshots: Set<Seq<char>>,
    pub busy: Set<Seq<char>>,
    pub quotas: Map<Seq<char>, Seq<char>>,
}

impl View for FakeZfsManager {
    type V = FakeZfsView;

    closed spec fn view(&self) -> FakeZfsView {
        FakeZfsView {
            datasets: self.datasets.map().dom(),
            snapshots: self.snapshots.map().dom(),
            busy: self.busy.map().dom(),
            quotas: self.quotas.map().map_values(|q: String| q@),
        }
    }
}

/// What a stream says: the snapshot that it holds, and the snapshot that it builds on.
pub open spec fn stream_text(dataset: Seq<char>, snapshot: Seq<char>, base: Option<Seq<char>>) -> Seq<char> {
    "keel-zfs-fake-send:"@ + dataset + "@"@ + snapshot + ":base="@ + (match base {
        Some(b) => b,
        None => "none"@,
    }) + "\n"@
}

/// A text without one line break at its end.
pub open spec fn without_newline(s: Seq<char>) -> Seq<char> {
    if s.len() > 0 && s.last() == '\n' {
        s.drop_last()
    } else {
        s
    }
}

/// The snapshot in a stream, and the one that it builds on.
pub open spec fn parsed_stream(text: Seq<char>) -> Option<(Seq<char>, Option<Seq<char>>)> {
    let marker = "keel-zfs-fake-send:"@;
    if !has_prefix(text, marker) {
        None
    } else {
        match split_at_first(without_newline(text.skip(marker.len() as int)), ":base="@) {
            None => None,
            Some((sent, base)) => match split_at_first(sent, "@"@) {
                None => None,
                Some((_, snapshot)) => Some(
                    (
                        snapshot,
                        if base == "none"@ {
                            None
                        } else {
                            Some(base)
                        },
                    ),
                ),
            },
        }
    }
}

impl FakeZfsView {
    pub open spec fn empty() -> FakeZfsView {
        FakeZfsView {
            datasets: Set::empty(),
            snapshots: Set::empty(),
            busy: Set::empty(),
            quotas: Map::empty(),
        }
    }

    /// Why a snapshot cannot be sent.
    pub open spec fn send_failure(self, dataset: Seq<char>, snapshot: Seq<char>, base: Option<Seq<char>>) -> Option<
        ZfsErrorView,
    > {
        if !self.snapshots.contains(snapshot_of(dataset, snapshot)) {
            Some(ZfsErrorView::NotFound(snapshot_of(dataset, snapshot)))
        } else if base matches Some(b) && !self.snapshots.contains(snapshot_of(dataset, b)) {
            Some(ZfsErrorView::NotFound(snapshot_of(dataset, base->0)))
        } else {
            None
        }
    }

    /// Why a stream cannot be received.
    pub open spec fn receive_failure(self, dataset: Seq<char>, input: Seq<u8>) -> Option<ZfsErrorView> {
        if !valid_utf8(input) {
            Some(ZfsErrorView::Spawn("fake zfs receive"@, "stream did not contain valid UTF-8"@))
        } else {
            match parsed_stream(decode_utf8(input)) {
                None => Some(
                    ZfsErrorView::CommandFailed("zfs receive (fake)"@, 256, "malformed stream"@),
                ),
                Some((_, Some(base))) => if self.snapshots.contains(snapshot_of(dataset, base)) {
                    None
                } else {
                    Some(
                        ZfsErrorView::CommandFailed(
                            "zfs receive (fake)"@,
                            256,
                            "cannot receive incremental stream: base snapshot "@ + snapshot_of(dataset, base)
                                + " does not exist"@,
                        ),
                    )
                },
                Some((_, None)) => None,
            }
        }
    }

    /// The datasets after a stream was received.
    pub open spec fn received(self, dataset: Seq<char>, input: Seq<u8>) -> FakeZfsView {
        match parsed_stream(decode_utf8(input)) {
            Some((snapshot, _)) => FakeZfsView {
                datasets: self.datasets.insert(dataset),
                snapshots: self.snapshots.insert(snapshot_of(dataset, snapshot)),
                ..self
            },
            None => self,
        }
    }
}

impl FakeZfsManager {
    pub closed spec fn wf(&self) -> bool {
        self.datasets.wf() && self.snapshots.wf() && self.busy.wf() && self.quotas.wf()
    }

    pub fn new() -> (r: Self)
        ensures
            r.wf(),
            r@ == FakeZfsView::empty(),
    {
        let r = FakeZfsManager {
            datasets: StrMap::new(),
            snapshots: StrMap::new(),
            busy: StrMap::new(),
            quotas: StrMap::new(),
        };
        assert(r@ =~= FakeZfsView::empty());
        r
    }

    fn add_dataset(&mut self, dataset: &str)
        requires
            old(self).wf(),
        ensures
            final(self).wf(),
            final(self)@ == (FakeZfsView { datasets: old(self)@.datasets.insert(dataset@), ..old(self)@ }),
    {
        self.datasets.insert(dataset.to_owned(), ());
        assert(self@ =~= (FakeZfsView { datasets: old(self)@.datasets.insert(dataset@), ..old(self)@ }));
    }

    fn add_snapshot(&mut self, name: String)
        requires
            old(self).wf(),
        ensures
            final(self).wf(),
            final(self)@ == (FakeZfsView { snapshots: old(self)@.snapshots.insert(name@), ..old(self)@ }),
    {
        self.snapshots.insert(name, ());
        assert(self@ =~= (FakeZfsView { snapshots: old(self)@.snapshots.insert(name@), ..old(self)@ }));
    }

    fn put_quota(&mut self, dataset: &str, quota: &str)
        requires
            old(self).wf(),
        ensures
            final(self).wf(),
            final(self)@ == (FakeZfsView { quotas: old(self)@.quotas.insert(dataset@, quota@), ..old(self)@ }),
    {
        self.quotas.insert(dataset.to_owned(), quota.to_owned());
        assert(self@ =~= (FakeZfsView { quotas: old(self)@.quotas.insert(dataset@, quota@), ..old(self)@ }));
    }

    /// Adds a dataset as if it had been there before.
    pub fn seed_dataset(&mut self, dataset: &str)
        requires
            old(self).wf(),
        ensures
            final(self).wf(),
            final(self)@ == (FakeZfsView { datasets: old(self)@.datasets.insert(dataset@), ..old(self)@ }),
    {
        self.add_dataset(dataset);
    }

    /// Makes a dataset busy, as one is that a running jail has mounted.
    pub fn mark_busy(&mut self, dataset: &str)
        requires
            old(self).wf(),
        ensures
            final(self).wf(),
            final(self)@ == (FakeZfsView { busy: old(self)@.busy.insert(dataset@), ..old(self)@ }),
    {
        self.busy.insert(dataset.to_owned(), ());
        assert(self@ =~= (FakeZfsView { busy: old(self)@.busy.insert(dataset@), ..old(self)@ }));
    }

    /// Ends that a dataset is busy.
    pub fn unmark_busy(&mut self, dataset: &str)
        requires
            old(self).wf(),
        ensures
            final(self).wf(),
            final(self)@ == (FakeZfsView { busy: old(self)@.busy.remove(dataset@), ..old(self)@ }),
    {
        let _ = self.busy.remove(dataset);
        assert(self@ =~= (FakeZfsView { busy: old(self)@.busy.remove(dataset@), ..old(self)@ }));
    }

    /// The quota of a dataset, if it ever got one.
    pub fn quota_of(&self, dataset: &str) -> (r: Option<String>)
        requires
            self.wf(),
        ensures
            opt_view(r) == if self@.quotas.dom().contains(dataset@) {
                Some(self@.quotas[dataset@])
            } else {
                None
            },
    {
        match self.quotas.get(dataset) {
            Some(q) => Some(q.clone()),
            None => None,
        }
    }

    pub fn dataset_exists(&self, dataset: &str) -> (r: Result<bool, ZfsError>)
        requires
            self.wf(),
        ensures
            r == Ok::<bool, ZfsError>(self@.datasets.contains(dataset@)),
    {
        Ok(self.datasets.contains_key(dataset))
    }

    pub fn clone_from_base(&mut self, base_dataset: &str, target_dataset: &str) -> (r: Result<(), ZfsError>)
        requires
            old(self).wf(),
        ensures
            final(self).wf(),
            failure(r) == if old(self)@.datasets.contains(base_dataset@) {
                None
            } else {
                Some(ZfsErrorView::NotFound(base_dataset@))
            },
            final(self)@ == if r is Ok {
                FakeZfsView { datasets: old(self)@.datasets.insert(target_dataset@), ..old(self)@ }
            } else {
                old(self)@
            },
    {
        if !self.datasets.contains_key(base_dataset) {
            return Err(ZfsError::NotFound(base_dataset.to_owned()));
        }
        self.add_dataset(target_dataset);
        Ok(())
    }

    /// Creates a volume with a quota. A volume that there is stays as it is, with its quota.
    pub fn create_volume(&mut self, dataset: &str, quota: &str) -> (r: Result<(), ZfsError>)
        requires
            old(self).wf(),
        ensures
            final(self).wf(),
            r is Ok,
            final(self)@ == if old(self)@.datasets.contains(dataset@) {
                old(self)@
            } else {
                FakeZfsView {
                    datasets: old(self)@.datasets.insert(dataset@),
                    quotas: old(self)@.quotas.insert(dataset@, quota@),
                    ..old(self)@
                }
            },
    {
        if self.datasets.contains_key(dataset) {
            return Ok(());
        }
        self.add_dataset(dataset);
        self.put_quota(dataset, quota);
        Ok(())
    }

    pub fn set_quota(&mut self, dataset: &str, quota: &str) -> (r: Result<(), ZfsError>)
        requires
            old(self).wf(),
        ensures
            final(self).wf(),
            failure(r) == if old(self)@.datasets.contains(dataset@) {
                None
            } else {
                Some(ZfsErrorView::NotFound(dataset@))
            },
            final(self)@ == if r is Ok {
                FakeZfsView { quotas: old(self)@.quotas.insert(dataset@, quota@), ..old(self)@ }
            } else {
                old(self)@
            },
    {
        if !self.datasets.contains_key(dataset) {
            return Err(ZfsError::NotFound(dataset.to_owned()));
        }
        self.put_quota(dataset, quota);
        Ok(())
    }

    /// Destroys a dataset, unless it is busy. Its quota goes with it.
    pub fn destroy_dataset(&mut self, dataset: &str) -> (r: Result<(), ZfsError>)
        requires
            old(self).wf(),
        ensures
            final(self).wf(),
            failure(r) == if old(self)@.busy.contains(dataset@) {
                Some(ZfsErrorView::Busy(dataset@))
            } else if !old(self)@.datasets.contains(dataset@) {
                Some(ZfsErrorView::NotFound(dataset@))
            } else {
                None
            },
            final(self)@ == if r is Ok {
                FakeZfsView {
                    datasets: old(self)@.datasets.remove(dataset@),
                    quotas: old(self)@.quotas.remove(dataset@),
                    ..old(self)@
                }
            } else {
                old(self)@
            },
    {
        if self.busy.contains_key(dataset) {
            return Err(ZfsError::Busy(dataset.to_owned()));
        }
        if self.datasets.contains_key(dataset) {
            let _ = self.datasets.remove(dataset);
            let _ = self.quotas.remove(dataset);
            assert(self@ =~= (FakeZfsView {
                datasets: old(self)@.datasets.remove(dataset@),
                quotas: old(self)@.quotas.remove(dataset@),
                ..old(self)@
            }));
            Ok(())
        } else {
            Err(ZfsError::NotFound(dataset.to_owned()))
        }
    }

    pub fn snapshot(&mut self, dataset: &str, snapshot: &str) -> (r: Result<(), ZfsError>)
        requires
            old(self).wf(),
        ensures
            final(self).wf(),
            failure(r) == if old(self)@.datasets.contains(dataset@) {
                None
            } else {
                Some(ZfsErrorView::NotFound(dataset@))
            },
            final(self)@ == if r is Ok {
                FakeZfsView {
                    snapshots: old(self)@.snapshots.insert(snapshot_of(dataset@, snapshot@)),
                    ..old(self)@
                }
            } else {
                old(self)@
            },
    {
        if !self.datasets.contains_key(dataset) {
            return Err(ZfsError::NotFound(dataset.to_owned()));
        }
        self.add_snapshot(snapshot_name(dataset, snapshot));
        Ok(())
    }

    pub fn destroy_snapshot(&mut self, dataset: &str, snapshot: &str) -> (r: Result<(), ZfsError>)
        requires
            old(self).wf(),
        ensures
            final(self).wf(),
            failure(r) == if old(self)@.snapshots.contains(snapshot_of(dataset@, snapshot@)) {
                None
            } else {
                Some(ZfsErrorView::NotFound(snapshot_of(dataset@, snapshot@)))
            },
            final(self)@ == (FakeZfsView {
                snapshots: old(self)@.snapshots.remove(snapshot_of(dataset@, snapshot@)),
                ..old(self)@
            }),
    {
        let key = snapshot_name(dataset, snapshot);
        let removed = self.snapshots.remove(key.as_str());
        assert(self@ =~= (FakeZfsView { snapshots: old(self)@.snapshots.remove(key@), ..old(self)@ }));
        if removed.is_some() {
            Ok(())
        } else {
            Err(ZfsError::NotFound(key))
        }
    }

    /// Appends a stream with a snapshot, on top of another one if a base is given.
    pub fn send_snapshot(&self, dataset: &str, snapshot: &str, base: Option<&str>, out: &mut Vec<u8>) -> (r: Result<
        (),
        ZfsError,
    >)
        requires
            self.wf(),
        ensures
            failure(r) == self@.send_failure(dataset@, snapshot@, base_view(base)),
            final(out)@ == if r is Ok {
                old(out)@ + encode_utf8(stream_text(dataset@, snapshot@, base_view(base)))
            } else {
                old(out)@
            },
    {
        let key = snapshot_name(dataset, snapshot);
        if !self.snapshots.contains_key(key.as_str()) {
            return Err(ZfsError::NotFound(key));
        }
        if let Some(base_snapshot) = base {
            let base_key = snapshot_name(dataset, base_snapshot);
            if !self.snapshots.contains_key(base_key.as_str()) {
                return Err(ZfsError::NotFound(base_key));
            }
        }
        let mut marker = "keel-zfs-fake-send:".to_owned();
        marker.append(dataset);
        marker.append("@");
        marker.append(snapshot);
        marker.append(":base=");
        match base {
            Some(b) => {
                marker.append(b);
            },
            None => {
                marker.append("none");
            },
        }
        marker.append("\n");
        assert(marker@ == stream_text(dataset@, snapshot@, base_view(base)));
        append_bytes(out, marker.as_str());
        Ok(())
    }

    /// Receives a stream into a dataset, which is created if it is not there. No quota travels with it.
    pub fn receive_snapshot(&mut self, dataset: &str, input: &[u8]) -> (r: Result<(), ZfsError>)
        requires
            old(self).wf(),
        ensures
            final(self).wf(),
            failure(r) == old(self)@.receive_failure(dataset@, input@),
            final(self)@ == if r is Ok {
                old(self)@.received(dataset@, input@)
            } else {
                old(self)@
            },
    {
        let text = match from_utf8(copy_bytes(input)) {
            Ok(text) => text,
            Err(_) => {
                return Err(
                    ZfsError::Spawn(
                        "fake zfs receive".to_owned(),
                        "stream did not contain valid UTF-8".to_owned(),
                    ),
                );
            },
        };
        let (snapshot, base) = match parse_stream(text.as_str()) {
            Some(parsed) => parsed,
            None => {
                return Err(
                    ZfsError::CommandFailed(
                        "zfs receive (fake)".to_owned(),
                        256,
                        "malformed stream".to_owned(),
                    ),
                );
            },
        };
        if let Some(b) = &base {
            let base_key = snapshot_name(dataset, b.as_str());
            if !self.snapshots.contains_key(base_key.as_str()) {
                let mut message = "cannot receive incremental stream: base snapshot ".to_owned();
                message.append(base_key.as_str());
                message.append(" does not exist");
                return Err(ZfsError::CommandFailed("zfs receive (fake)".to_owned(), 256, message));
            }
        }
        self.add_dataset(dataset);
        self.add_snapshot(snapshot_name(dataset, snapshot.as_str()));
        Ok(())
    }

    /// The datasets directly below another one, in ascending order.
    pub fn list_child_datasets(&self, parent: &str) -> (r: Result<Vec<String>, ZfsError>)
        requires
            self.wf(),
        ensures
            r matches Ok(children) && {
                &&& forall|i: int, j: int|
                    0 <= i < j < children@.len() ==> str_before((#[trigger] children@[i])@, (#[trigger] children@[j])@)
                &&& forall|name: Seq<char>| #[trigger]
                    views(children@).contains(name) <==> self@.datasets.contains(name) && is_child(parent@, name)
            },
    {
        let mut out: Vec<String> = Vec::new();
        let ghost entries = self.datasets.entries();
        let mut i: usize = 0;
        while i < self.datasets.len()
            invariant
                self.wf(),
                entries == self.datasets.entries(),
                i <= entries.len(),
                forall|a: int, b: int|
                    0 <= a < b < out@.len() ==> str_before((#[trigger] out@[a])@, (#[trigger] out@[b])@),
                forall|a: int|
                    0 <= a < out@.len() ==> is_child(parent@, (#[trigger] out@[a])@) && exists|k: int|
                        0 <= k < i && (#[trigger] entries[k]).0@ == out@[a]@,
                forall|k: int|
                    0 <= k < i && is_child(parent@, (#[trigger] entries[k]).0@) ==> exists|a: int|
                        0 <= a < out@.len() && (#[trigger] out@[a])@ == entries[k].0@,
            decreases entries.len() - i,
        {
            let ghost before_push = out@;
            let name = self.datasets.key_at(i);
            if is_child_of(parent, name.as_str()) {
                out.push(name.clone());
                assert forall|a: int, b: int| 0 <= a < b < out@.len() implies str_before(
                    (#[trigger] out@[a])@,
                    (#[trigger] out@[b])@,
                ) by {
                    if b == before_push.len() {
                        let k = choose|k: int| 0 <= k < i && (#[trigger] entries[k]).0@ == before_push[a]@;
                        assert(str_before(entries[k].0@, entries[i as int].0@));
                    }
                }
                assert(out@[before_push.len() as int]@ == entries[i as int].0@);
            }
            assert forall|a: int| 0 <= a < out@.len() implies is_child(parent@, (#[trigger] out@[a])@) && exists|k: int|
                0 <= k < i + 1 && (#[trigger] entries[k]).0@ == out@[a]@ by {
                if a < before_push.len() {
                    assert(out@[a] == before_push[a]);
                    let k = choose|k: int| 0 <= k < i && (#[trigger] entries[k]).0@ == before_push[a]@;
                    assert(entries[k].0@ == out@[a]@);
                } else {
                    assert(entries[i as int].0@ == out@[a]@);
                }
            }
            assert forall|k: int| 0 <= k < i + 1 && is_child(parent@, (#[trigger] entries[k]).0@) implies exists|a: int|
                0 <= a < out@.len() && (#[trigger] out@[a])@ == entries[k].0@ by {
                if k < i {
                    let a = choose|a: int| 0 <= a < before_push.len() && (#[trigger] before_push[a])@ == entries[k].0@;
                    assert(out@[a] == before_push[a]);
                }
            }
            i = i + 1;
        }
        assert forall|name: Seq<char>| #[trigger] views(out@).contains(name) <==> self@.datasets.contains(name)
            && is_child(parent@, name) by {
            if views(out@).contains(name) {
                let a = choose|a: int| 0 <= a < views(out@).len() && views(out@)[a] == name;
                assert(out@[a]@ == name);
                let k = choose|k: int| 0 <= k < i && (#[trigger] entries[k]).0@ == out@[a]@;
                self.datasets.lemma_entry(k);
            }
            if self@.datasets.contains(name) && is_child(parent@, name) {
                let k = choose|k: int| crate::strmap::holds_at(entries, name, k);
                assert(entries[k].0@ == name);
                let a = choose|a: int| 0 <= a < out@.len() && (#[trigger] out@[a])@ == entries[k].0@;
                assert(views(out@)[a] == name);
            }
        }
        Ok(out)
    }
}

/// An optional base by its name.
pub open spec fn base_view(base: Option<&str>) -> Option<Seq<char>> {
    match base {
        Some(b) => Some(b@),
        None => None,
    }
}

fn append_bytes(out: &mut Vec<u8>, s: &str)
    ensures
        final(out)@ == old(out)@ + encode_utf8(s@),
{
    let bytes = s.as_bytes();
    let ghost base = out@;
    let mut i: usize = 0;
    assert(out@ =~= base + bytes@.take(0));
    while i < bytes.len()
        invariant
            i <= bytes@.len(),
            out@ == base + bytes@.take(i as int),
        decreases bytes.len() - i,
    {
        out.push(bytes[i]);
        i = i + 1;
        assert(out@ =~= base + bytes@.take(i as int));
    }
    assert(bytes@.take(i as int) =~= bytes@);
}

fn copy_bytes(input: &[u8]) -> (r: Vec<u8>)
    ensures
        r@ == input@,
{
    let mut out: Vec<u8> = Vec::new();
    let mut i: usize = 0;
    while i < input.len()
        invariant
            i <= input@.len(),
            out@ == input@.take(i as int),
        decreases input.len() - i,
    {
        out.push(input[i]);
        i = i + 1;
        assert(input@.take(i as int) =~= input@.take(i - 1).push(input@[i - 1]));
    }
    assert(input@.take(i as int) =~= input@);
    out
}

fn parse_stream(text: &str) -> (r: Option<(String, Option<String>)>)
    ensures
        match r {
            Some((snapshot, base)) => parsed_stream(text@) == Some((snapshot@, opt_view(base))),
            None => parsed_stream(text@) is None,
        },
{
    let rest = match strip_prefix(text, "keel-zfs-fake-send:") {
        Some(rest) => rest,
        None => {
            return None;
        },
    };
    let v = chars_of(rest.as_str());
    let end: usize = if v.len() > 0 && v[v.len() - 1] == '\n' {
        v.len() - 1
    } else {
        v.len()
    };
    let line = string_of(&v, 0, end);
    assert(line@ =~= without_newline(rest@));
    match split_once(line.as_str(), ":base=") {
        None => None,
        Some((sent, base_part)) => match split_once(sent.as_str(), "@") {
            None => None,
            Some((_, snapshot)) => {
                let base = if same(base_part.as_str(), "none") {
                    None
                } else {
                    Some(base_part)
                };
                Some((snapshot, base))
            },
        },
    }
}

/// What was sent is received: the receiver gets the snapshot under the name that it had, if it has the
/// base. This holds of names that the text of a stream can carry: a dataset without `@`, no `:base=` in
/// the dataset or the snapshot, and a base that is not called `none`.
pub proof fn law_what_is_sent_is_received(
    receiver: FakeZfsView,
    dataset: Seq<char>,
    snapshot: Seq<char>,
    base: Option<Seq<char>>,
    target: Seq<char>,
)
    requires
        !dataset.contains('@'),
        find_from(snapshot_of(dataset, snapshot), ":base="@, 0) is None,
        base matches Some(b) ==> b != "none"@,
    ensures
        ({
            let stream = encode_utf8(stream_text(dataset, snapshot, base));
            &&& receiver.receive_failure(target, stream) is None <==> (base matches Some(b)
                ==> receiver.snapshots.contains(snapshot_of(target, b)))
            &&& receiver.received(target, stream) == (FakeZfsView {
                datasets: receiver.datasets.insert(target),
                snapshots: receiver.snapshots.insert(snapshot_of(target, snapshot)),
                ..receiver
            })
        }),
{
    let text = stream_text(dataset, snapshot, base);
    encode_utf8_valid_utf8(text);
    encode_utf8_decode_utf8(text);
    lemma_parsed_stream(dataset, snapshot, base);
}

/// Reading the text of a stream gives what was written.
proof fn lemma_parsed_stream(dataset: Seq<char>, snapshot: Seq<char>, base: Option<Seq<char>>)
    requires
        !dataset.contains('@'),
        find_from(snapshot_of(dataset, snapshot), ":base="@, 0) is None,
        base matches Some(b) ==> b != "none"@,
    ensures
        parsed_stream(stream_text(dataset, snapshot, base)) == Some((snapshot, base)),
{
    reveal_strlit(":base=");
    reveal_strlit("@");
    reveal_strlit("\n");
    let marker = "keel-zfs-fake-send:"@;
    let pat = ":base="@;
    let at = "@"@;
    let shown = match base {
        Some(b) => b,
        None => "none"@,
    };
    let text = stream_text(dataset, snapshot, base);
    let sent = snapshot_of(dataset, snapshot);
    let line = sent + pat + shown;
    assert(text =~= marker + line + "\n"@);
    assert(text.take(marker.len() as int) =~= marker);
    assert(text.skip(marker.len() as int) =~= line + "\n"@);
    assert((line + "\n"@).drop_last() =~= line);
    assert(without_newline(text.skip(marker.len() as int)) == line);
    let k = sent.len() as int;
    assert(line.subrange(k, k + pat.len()) =~= pat);
    lemma_find_from(sent, pat, 0);
    assert forall|j: int| 0 <= j < k implies !#[trigger] occurs_at(line, pat, j) by {
        if occurs_at(line, pat, j) {
            if j + 6 <= k {
                assert(sent.subrange(j, j + 6) =~= line.subrange(j, j + 6));
                assert(occurs_at(sent, pat, j));
            } else {
                assert(line[k] == ':');
                assert(line.subrange(j, j + 6)[k - j] == pat[k - j]);
            }
        }
    }
    lemma_find_is(line, pat, 0, k);
    assert(line.take(k) =~= sent);
    assert(line.skip(k + pat.len()) =~= shown);
    let d = dataset.len() as int;
    assert(sent.subrange(d, d + at.len()) =~= at);
    assert forall|j: int| 0 <= j < d implies !#[trigger] occurs_at(sent, at, j) by {
        if occurs_at(sent, at, j) {
            assert(sent.subrange(j, j + 1)[0] == '@');
            assert(dataset[j] == '@');
        }
    }
    lemma_find_is(sent, at, 0, d);
    assert(sent.skip(d + at.len()) =~= snapshot);
}

/// A snapshot that is destroyed can neither be sent nor be built on.
pub proof fn law_destroyed_snapshots_are_gone(
    zfs: FakeZfsView,
    dataset: Seq<char>,
    snapshot: Seq<char>,
    other: Seq<char>,
    base: Option<Seq<char>>,
)
    ensures
        ({
            let after = FakeZfsView { snapshots: zfs.snapshots.remove(snapshot_of(dataset, snapshot)), ..zfs };
            &&& after.send_failure(dataset, snapshot, base) is Some
            &&& after.send_failure(dataset, other, Some(snapshot)) is Some
        }),
{
}

} // verus!
