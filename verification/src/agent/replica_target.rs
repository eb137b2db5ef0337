//! What a node knows of the replicas whose volumes it receives.

use crate::strmap::{holds_at, StrMap};
use crate::text::str_before;
use crate::views::{duplicate_opt, opt_view, views, Duplicate};
use vstd::prelude::*;

verus! {

/// A replica whose volume this node receives.
#[derive(Debug, Clone, PartialEq, Eq)]
pub struct ReplicaTarget {
    pub replica_name: String,
    pub volume_dataset: String,
    pub source_node_addr: String,
    pub last_snapshot: Option<String>,
    /// The highest generation that a sender was accepted with.
    pub highest_generation_seen: u64,
}

/// What a [`ReplicaTarget`] holds.
#[verifier::ext_equal]
pub struct ReplicaTargetView {
    pub replica_name: Seq<char>,
    pub volume_dataset: Seq<char>,
    pub source_node_addr: Seq<char>,
    pub last_snapshot: Option<Seq<char>>,
    pub highest_generation_seen: u64,
}

impl View for ReplicaTarget {
    type V = ReplicaTargetView;

    open spec fn view(&self) -> ReplicaTargetView {
        ReplicaTargetView {
            replica_name: self.replica_name@,
            volume_dataset: self.volume_dataset@,
            source_node_addr: self.source_node_addr@,
            last_snapshot: opt_view(self.last_snapshot),
            highest_generation_seen: self.highest_generation_seen,
        }
    }
}

impl Duplicate for ReplicaTarget {
    fn duplicate(&self) -> (r: Self) {
        ReplicaTarget {
            replica_name: self.replica_name.clone(),
            volume_dataset: self.volume_dataset.clone(),
            source_node_addr: self.source_node_addr.clone(),
            last_snapshot: duplicate_opt(&self.last_snapshot),
            highest_generation_seen: self.highest_generation_seen,
        }
    }
}

/// The replicas whose volumes this node receives, by name.
pub struct ReplicaTargetRegistry {
    by_name: StrMap<ReplicaTarget>,
}

impl View for ReplicaTargetRegistry {
    type V = Map<Seq<char>, ReplicaTargetView>;

    closed spec fn view(&self) -> Map<Seq<char>, ReplicaTargetView> {
        self.by_name.map().map_values(|t: ReplicaTarget| t@)
    }
}

/// The table that a list of targets makes: of two with one name the later stays.
pub open spec fn table_of(targets: Seq<ReplicaTargetView>) -> Map<Seq<char>, ReplicaTargetView>
    decreases targets.len(),
{
    if targets.len() == 0 {
        Map::empty()
    } else {
        table_of(targets.drop_last()).insert(targets.last().replica_name, targets.last())
    }
}

/// Every target stands under its own name.
pub open spec fn well_named(targets: Map<Seq<char>, ReplicaTargetView>) -> bool {
    forall|name: Seq<char>| #[trigger] targets.dom().contains(name) ==> targets[name].replica_name == name
}

/// A target is one of a table, under its name.
pub open spec fn is_in(target: ReplicaTargetView, targets: Map<Seq<char>, ReplicaTargetView>) -> bool {
    targets.dom().contains(target.replica_name) && targets[target.replica_name] == target
}

/// Some targets are those of a table, in whatever order.
pub open spec fn lists(listed: Seq<ReplicaTargetView>, targets: Map<Seq<char>, ReplicaTargetView>) -> bool {
    &&& forall|k: int| 0 <= k < listed.len() ==> is_in(#[trigger] listed[k], targets)
    &&& forall|name: Seq<char>| #[trigger] targets.dom().contains(name) ==> listed.contains(targets[name])
}

/// A list of the targets of a table makes the table, whatever its order.
proof fn lemma_table_of(listed: Seq<ReplicaTargetView>, targets: Map<Seq<char>, ReplicaTargetView>)
    requires
        well_named(targets),
        lists(listed, targets),
    ensures
        table_of(listed) == targets,
{
    let table = table_of(listed);
    lemma_table_entries(listed);
    assert forall|name: Seq<char>|
        #![trigger table.dom().contains(name)]
        #![trigger targets.dom().contains(name)]
        {
            &&& table.dom().contains(name) == targets.dom().contains(name)
            &&& table.dom().contains(name) ==> table[name] == targets[name]
        } by {
        if table.dom().contains(name) {
            let k = choose|k: int| 0 <= k < listed.len() && table[name] == #[trigger] listed[k];
            assert(is_in(listed[k], targets));
        }
        if targets.dom().contains(name) {
            assert(listed.contains(targets[name]));
            let k = choose|k: int| 0 <= k < listed.len() && listed[k] == targets[name];
            assert(table.dom().contains(listed[k].replica_name));
        }
    }
    assert(table =~= targets);
}

/// What a list makes a table of: every name in it, each with one of the targets of that name.
proof fn lemma_table_entries(listed: Seq<ReplicaTargetView>)
    ensures
        forall|k: int| 0 <= k < listed.len() ==> table_of(listed).dom().contains((#[trigger] listed[k]).replica_name),
        forall|name: Seq<char>| #[trigger]
            table_of(listed).dom().contains(name) ==> table_of(listed)[name].replica_name == name && exists|k: int|
                0 <= k < listed.len() && table_of(listed)[name] == #[trigger] listed[k],
    decreases listed.len(),
{
    if listed.len() > 0 {
        let rest = listed.drop_last();
        lemma_table_entries(rest);
        assert forall|k: int| 0 <= k < listed.len() implies table_of(listed).dom().contains(
            (#[trigger] listed[k]).replica_name,
        ) by {
            if k < rest.len() {
                assert(rest[k] == listed[k]);
            }
        }
        assert forall|name: Seq<char>| #[trigger] table_of(listed).dom().contains(name) implies table_of(
            listed,
        )[name].replica_name == name && exists|k: int|
            0 <= k < listed.len() && table_of(listed)[name] == #[trigger] listed[k] by {
            if name == listed.last().replica_name {
                assert(table_of(listed)[name] == listed[listed.len() - 1]);
            } else {
                assert(table_of(rest).dom().contains(name));
                let k = choose|k: int| 0 <= k < rest.len() && table_of(rest)[name] == #[trigger] rest[k];
                assert(listed[k] == rest[k]);
            }
        }
    }
}

/// The target after contact: a new one, or the known one with the address of the sender.
pub open spec fn contacted(
    targets: Map<Seq<char>, ReplicaTargetView>,
    name: Seq<char>,
    dataset: Seq<char>,
    source: Seq<char>,
) -> ReplicaTargetView {
    if targets.dom().contains(name) {
        ReplicaTargetView { source_node_addr: source, ..targets[name] }
    } else {
        ReplicaTargetView {
            replica_name: name,
            volume_dataset: dataset,
            source_node_addr: source,
            last_snapshot: None,
            highest_generation_seen: 0,
        }
    }
}

/// Whether a sender with this generation is let in: none with a higher one was.
pub open spec fn admits(targets: Map<Seq<char>, ReplicaTargetView>, name: Seq<char>, generation: u64) -> bool {
    targets.dom().contains(name) && generation >= targets[name].highest_generation_seen
}

/// The table after a sender with this generation asked to be let in.
pub open spec fn after_generation(
    targets: Map<Seq<char>, ReplicaTargetView>,
    name: Seq<char>,
    generation: u64,
) -> Map<Seq<char>, ReplicaTargetView> {
    if admits(targets, name, generation) {
        targets.insert(name, ReplicaTargetView { highest_generation_seen: generation, ..targets[name] })
    } else {
        targets
    }
}

/// The table after a snapshot was received.
pub open spec fn after_snapshot(
    targets: Map<Seq<char>, ReplicaTargetView>,
    name: Seq<char>,
    snapshot: Seq<char>,
) -> Map<Seq<char>, ReplicaTargetView> {
    if targets.dom().contains(name) {
        targets.insert(name, ReplicaTargetView { last_snapshot: Some(snapshot), ..targets[name] })
    } else {
        targets
    }
}

impl ReplicaTargetRegistry {
    /// Every target stands under its own name.
    pub closed spec fn wf(&self) -> bool {
        self.by_name.wf() && well_named(self@)
    }

    /// The registry of the targets that were written down.
    pub fn load(targets: Vec<ReplicaTarget>) -> (r: Self)
        ensures
            r.wf(),
            r@ == table_of(views(targets@)),
    {
        let ghost all = views(targets@);
        let mut out = ReplicaTargetRegistry { by_name: StrMap::new() };
        assert(all.take(0) =~= Seq::empty());
        assert(out@ =~= table_of(all.take(0)));
        let mut i: usize = 0;
        while i < targets.len()
            invariant
                out.wf(),
                all == views(targets@),
                i <= targets@.len(),
                out@ == table_of(all.take(i as int)),
            decreases targets.len() - i,
        {
            assert(all.take(i + 1).drop_last() =~= all.take(i as int));
            let target = targets[i].duplicate();
            let ghost view = target@;
            let ghost before_insert = out@;
            out.by_name.insert(target.replica_name.clone(), target);
            assert(out@ =~= before_insert.insert(view.replica_name, view));
            i = i + 1;
        }
        assert(all.take(i as int) =~= all);
        out
    }

    /// All targets, in ascending order of their names, to be written down.
    pub fn targets(&self) -> (r: Vec<ReplicaTarget>)
        requires
            self.wf(),
        ensures
            table_of(views(r@)) == self@,
            forall|i: int, j: int|
                0 <= i < j < r@.len() ==> str_before(
                    (#[trigger] r@[i]).replica_name@,
                    (#[trigger] r@[j]).replica_name@,
                ),
    {
        let ghost entries = self.by_name.entries();
        let mut out: Vec<ReplicaTarget> = Vec::new();
        let mut i: usize = 0;
        while i < self.by_name.len()
            invariant
                self.wf(),
                entries == self.by_name.entries(),
                i <= entries.len(),
                out@.len() == i,
                forall|j: int|
                    0 <= j < i ==> (#[trigger] out@[j])@ == entries[j].1@ && out@[j].replica_name@ == entries[j].0@,
            decreases entries.len() - i,
        {
            proof {
                self.by_name.lemma_entry(i as int);
                assert(self@.dom().contains(entries[i as int].0@));
                assert(self@[entries[i as int].0@] == entries[i as int].1@);
            }
            out.push(self.by_name.value_at(i).duplicate());
            i = i + 1;
        }
        proof {
            let listed = views(out@);
            assert forall|k: int| 0 <= k < listed.len() implies is_in(#[trigger] listed[k], self@) by {
                self.by_name.lemma_entry(k);
                assert(self@[entries[k].0@] == entries[k].1@);
            }
            assert forall|name: Seq<char>| #[trigger] self@.dom().contains(name) implies listed.contains(
                self@[name],
            ) by {
                let k = choose|k: int| holds_at(entries, name, k);
                self.by_name.lemma_entry(k);
                assert(listed[k] == self@[name]);
            }
            lemma_table_of(listed, self@);
        }
        out
    }

    pub fn get(&self, replica_name: &str) -> (r: Option<ReplicaTarget>)
        requires
            self.wf(),
        ensures
            opt_view(r) == if self@.dom().contains(replica_name@) {
                Some(self@[replica_name@])
            } else {
                None
            },
    {
        match self.by_name.get(replica_name) {
            Some(target) => Some(target.duplicate()),
            None => None,
        }
    }

    /// Forgets a target.
    pub fn remove(&mut self, replica_name: &str)
        requires
            old(self).wf(),
        ensures
            final(self).wf(),
            final(self)@ == old(self)@.remove(replica_name@),
    {
        let _ = self.by_name.remove(replica_name);
        assert(self@ =~= old(self)@.remove(replica_name@));
    }

    fn put(&mut self, target: ReplicaTarget, replica_name: &str)
        requires
            old(self).wf(),
            target@.replica_name == replica_name@,
        ensures
            final(self).wf(),
            final(self)@ == old(self)@.insert(replica_name@, target@),
    {
        let ghost view = target@;
        self.by_name.insert(replica_name.to_owned(), target);
        assert(self@ =~= old(self)@.insert(replica_name@, view));
    }

    /// Creates the target on first contact, or notes the address of the sender of a known one, and
    /// returns it.
    pub fn ensure(&mut self, replica_name: &str, volume_dataset: &str, source_node_addr: &str) -> (r: ReplicaTarget)
        requires
            old(self).wf(),
        ensures
            final(self).wf(),
            r@ == contacted(old(self)@, replica_name@, volume_dataset@, source_node_addr@),
            final(self)@ == old(self)@.insert(replica_name@, r@),
    {
        let target = match self.get(replica_name) {
            Some(known) => ReplicaTarget {
                replica_name: known.replica_name,
                volume_dataset: known.volume_dataset,
                source_node_addr: source_node_addr.to_owned(),
                last_snapshot: known.last_snapshot,
                highest_generation_seen: known.highest_generation_seen,
            },
            None => ReplicaTarget {
                replica_name: replica_name.to_owned(),
                volume_dataset: volume_dataset.to_owned(),
                source_node_addr: source_node_addr.to_owned(),
                last_snapshot: None,
                highest_generation_seen: 0,
            },
        };
        self.put(target.duplicate(), replica_name);
        target
    }

    /// Lets a sender in unless its generation is lower than one that was let in before. A primary that
    /// was replaced without learning of it is turned away here, with no help from the control plane.
    pub fn accept_generation(&mut self, replica_name: &str, generation: u64) -> (r: bool)
        requires
            old(self).wf(),
        ensures
            final(self).wf(),
            r == admits(old(self)@, replica_name@, generation),
            final(self)@ == after_generation(old(self)@, replica_name@, generation),
    {
        match self.get(replica_name) {
            None => false,
            Some(known) => {
                if generation < known.highest_generation_seen {
                    return false;
                }
                let updated = ReplicaTarget {
                    replica_name: known.replica_name,
                    volume_dataset: known.volume_dataset,
                    source_node_addr: known.source_node_addr,
                    last_snapshot: known.last_snapshot,
                    highest_generation_seen: generation,
                };
                self.put(updated, replica_name);
                true
            },
        }
    }

    /// Records that a snapshot was received.
    pub fn record_snapshot(&mut self, replica_name: &str, snapshot_id: &str)
        requires
            old(self).wf(),
        ensures
            final(self).wf(),
            final(self)@ == after_snapshot(old(self)@, replica_name@, snapshot_id@),
    {
        if let Some(known) = self.get(replica_name) {
            let updated = ReplicaTarget {
                replica_name: known.replica_name,
                volume_dataset: known.volume_dataset,
                source_node_addr: known.source_node_addr,
                last_snapshot: Some(snapshot_id.to_owned()),
                highest_generation_seen: known.highest_generation_seen,
            };
            self.put(updated, replica_name);
        }
    }

    /// Seeds a target without a connection.
    pub fn ensure_for_test(&mut self, replica_name: &str, volume_dataset: &str, source_node_addr: &str)
        requires
            old(self).wf(),
        ensures
            final(self).wf(),
            final(self)@ == old(self)@.insert(
                replica_name@,
                contacted(old(self)@, replica_name@, volume_dataset@, source_node_addr@),
            ),
    {
        let _ = self.ensure(replica_name, volume_dataset, source_node_addr);
    }

    /// Marks a target as having received a snapshot without receiving one.
    pub fn record_snapshot_for_test(&mut self, replica_name: &str, snapshot_id: &str)
        requires
            old(self).wf(),
        ensures
            final(self).wf(),
            final(self)@ == after_snapshot(old(self)@, replica_name@, snapshot_id@),
    {
        self.record_snapshot(replica_name, snapshot_id);
    }

    /// Seeds the highest generation of a known target without a connection.
    pub fn accept_generation_for_test(&mut self, replica_name: &str, generation: u64)
        requires
            old(self).wf(),
        ensures
            final(self).wf(),
            final(self)@ == after_generation(old(self)@, replica_name@, generation),
    {
        let _ = self.accept_generation(replica_name, generation);
    }
}

/// Something that befalls the targets of a node.
pub enum TargetEvent {
    /// A sender makes contact about a replica, with the dataset and the address that a new target gets.
    Contact(Seq<char>, Seq<char>, Seq<char>),
    /// A sender with a generation asks to be let in.
    Generation(Seq<char>, u64),
    /// A snapshot was received.
    Snapshot(Seq<char>, Seq<char>),
    /// A target is forgotten.
    Removed(Seq<char>),
}

impl TargetEvent {
    /// The replica that it is about.
    pub open spec fn name(self) -> Seq<char> {
        match self {
            TargetEvent::Contact(name, _, _) => name,
            TargetEvent::Generation(name, _) => name,
            TargetEvent::Snapshot(name, _) => name,
            TargetEvent::Removed(name) => name,
        }
    }

    /// The targets after it.
    pub open spec fn on(self, targets: Map<Seq<char>, ReplicaTargetView>) -> Map<Seq<char>, ReplicaTargetView> {
        match self {
            TargetEvent::Contact(name, dataset, source) => targets.insert(
                name,
                contacted(targets, name, dataset, source),
            ),
            TargetEvent::Generation(name, generation) => after_generation(targets, name, generation),
            TargetEvent::Snapshot(name, snapshot) => after_snapshot(targets, name, snapshot),
            TargetEvent::Removed(name) => targets.remove(name),
        }
    }

    /// The targets that are written down after it: only that of its replica is written anew, or taken away.
    pub open spec fn on_disk(
        self,
        written: Map<Seq<char>, ReplicaTargetView>,
        after: Map<Seq<char>, ReplicaTargetView>,
    ) -> Map<Seq<char>, ReplicaTargetView> {
        if after.dom().contains(self.name()) {
            written.insert(self.name(), after[self.name()])
        } else {
            written.remove(self.name())
        }
    }
}

/// The targets after some events.
pub open spec fn targets_after(
    targets: Map<Seq<char>, ReplicaTargetView>,
    events: Seq<TargetEvent>,
) -> Map<Seq<char>, ReplicaTargetView>
    decreases events.len(),
{
    if events.len() == 0 {
        targets
    } else {
        events.last().on(targets_after(targets, events.drop_last()))
    }
}

/// The targets that are written down after some events, when none of the writing fails.
pub open spec fn written_after(
    targets: Map<Seq<char>, ReplicaTargetView>,
    events: Seq<TargetEvent>,
) -> Map<Seq<char>, ReplicaTargetView>
    decreases events.len(),
{
    if events.len() == 0 {
        targets
    } else {
        events.last().on_disk(written_after(targets, events.drop_last()), targets_after(targets, events))
    }
}

/// Whatever befalls the targets after they were loaded, loading what is written down, in whatever order, gives
/// them again: what was recorded comes back, and what was removed does not.
pub proof fn law_targets_are_read_back(
    loaded: Seq<ReplicaTargetView>,
    events: Seq<TargetEvent>,
    reloaded: Seq<ReplicaTargetView>,
)
    requires
        lists(reloaded, written_after(table_of(loaded), events)),
    ensures
        table_of(reloaded) == targets_after(table_of(loaded), events),
{
    lemma_table_entries(loaded);
    lemma_written(table_of(loaded), events);
    lemma_table_of(reloaded, targets_after(table_of(loaded), events));
}

proof fn lemma_written(targets: Map<Seq<char>, ReplicaTargetView>, events: Seq<TargetEvent>)
    requires
        well_named(targets),
    ensures
        well_named(targets_after(targets, events)),
        written_after(targets, events) == targets_after(targets, events),
    decreases events.len(),
{
    if events.len() > 0 {
        lemma_written(targets, events.drop_last());
        assert(written_after(targets, events) =~= targets_after(targets, events));
    }
}

} // verus!
