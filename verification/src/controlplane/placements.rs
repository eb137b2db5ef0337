//! Which node runs which jail, and how often that was decided.

use crate::strmap::{ascending, lemma_pairs_map, number_pairs, pairs_map, text_pairs, texts_in, StrMap};
use vstd::prelude::*;

verus! {

/// The node of every placed jail, and a counter per jail name.
pub struct Placements {
    by_jail: StrMap<String>,
    /// Counts the placements of each name, over removals: a name that is used again after a
    /// teardown gets a higher generation than any earlier jail of that name had, so the generation
    /// of a partitioned former primary never looks valid again.
    generations: StrMap<u64>,
}

/// A table of texts by name, as a mathematical map.
pub open spec fn texts_of(m: Map<Seq<char>, String>) -> Map<Seq<char>, Seq<char>> {
    m.map_values(|s: String| s@)
}

impl Placements {
    pub closed spec fn wf(&self) -> bool {
        self.by_jail.wf() && self.generations.wf()
    }

    /// The node of every placed jail.
    pub closed spec fn nodes(&self) -> Map<Seq<char>, Seq<char>> {
        texts_of(self.by_jail.map())
    }

    /// The placed jails with their nodes, in ascending order of the jails' names.
    pub closed spec fn placed(&self) -> Seq<(Seq<char>, Seq<char>)> {
        texts_in(self.by_jail.entries())
    }

    /// How often each name was placed.
    pub closed spec fn counts(&self) -> Map<Seq<char>, u64> {
        self.generations.map()
    }

    /// How often a name was placed, over removals.
    pub open spec fn count(&self, jail: Seq<char>) -> u64 {
        if self.counts().dom().contains(jail) {
            self.counts()[jail]
        } else {
            0
        }
    }

    /// Every name can be placed once more.
    pub open spec fn countable(&self) -> bool {
        forall|jail: Seq<char>| #[trigger] self.counts().dom().contains(jail) ==> self.counts()[jail] < u64::MAX
    }

    /// Whether every name can be placed once more.
    pub fn can_count(&self) -> (r: bool)
        requires
            self.wf(),
        ensures
            r == self.countable(),
    {
        let mut i: usize = 0;
        while i < self.generations.len()
            invariant
                self.wf(),
                i <= self.generations.entries().len(),
                forall|j: int| 0 <= j < i ==> (#[trigger] self.generations.entries()[j]).1 < u64::MAX,
            decreases self.generations.entries().len() - i,
        {
            if *self.generations.value_at(i) == u64::MAX {
                proof {
                    self.generations.lemma_entry(i as int);
                    assert(self.counts().dom().contains(self.generations.entries()[i as int].0@));
                }
                return false;
            }
            i = i + 1;
        }
        assert forall|jail: Seq<char>| #[trigger] self.counts().dom().contains(jail) implies self.counts()[jail]
            < u64::MAX by {
            let j = choose|j: int| crate::strmap::holds_at(self.generations.entries(), jail, j);
            self.generations.lemma_entry(j);
        }
        true
    }

    /// `placed` lists `nodes`, each jail once and in order.
    pub proof fn lemma_placed(&self)
        requires
            self.wf(),
        ensures
            forall|i: int, j: int|
                0 <= i < j < self.placed().len() ==> crate::text::str_before(
                    (#[trigger] self.placed()[i]).0,
                    (#[trigger] self.placed()[j]).0,
                ),
            forall|i: int|
                0 <= i < self.placed().len() ==> {
                    &&& self.nodes().dom().contains((#[trigger] self.placed()[i]).0)
                    &&& self.nodes()[self.placed()[i].0] == self.placed()[i].1
                },
            forall|jail: Seq<char>| #[trigger]
                self.nodes().dom().contains(jail) ==> exists|i: int|
                    0 <= i < self.placed().len() && (#[trigger] self.placed()[i]).0 == jail,
    {
        assert forall|i: int| 0 <= i < self.placed().len() implies {
            &&& self.nodes().dom().contains((#[trigger] self.placed()[i]).0)
            &&& self.nodes()[self.placed()[i].0] == self.placed()[i].1
        } by {
            self.by_jail.lemma_entry(i);
        }
        assert forall|jail: Seq<char>| #[trigger] self.nodes().dom().contains(jail) implies exists|i: int|
            0 <= i < self.placed().len() && (#[trigger] self.placed()[i]).0 == jail by {
            let i = choose|i: int| crate::strmap::holds_at(self.by_jail.entries(), jail, i);
            assert(self.placed()[i].0 == jail);
        }
    }

    pub fn new() -> (r: Self)
        ensures
            r.wf(),
            r.nodes() == Map::<Seq<char>, Seq<char>>::empty(),
            r.counts() == Map::<Seq<char>, u64>::empty(),
            r.placed() == Seq::<(Seq<char>, Seq<char>)>::empty(),
    {
        let r = Placements { by_jail: StrMap::new(), generations: StrMap::new() };
        assert(r.nodes() =~= Map::<Seq<char>, Seq<char>>::empty());
        assert(r.placed() =~= Seq::<(Seq<char>, Seq<char>)>::empty());
        r
    }

    pub fn get(&self, jail_name: &str) -> (r: Option<&str>)
        requires
            self.wf(),
        ensures
            r is Some <==> self.nodes().dom().contains(jail_name@),
            r matches Some(node) ==> node@ == self.nodes()[jail_name@],
    {
        match self.by_jail.get(jail_name) {
            Some(node) => Some(node.as_str()),
            None => None,
        }
    }

    pub fn generation(&self, jail_name: &str) -> (r: u64)
        requires
            self.wf(),
        ensures
            r == self.count(jail_name@),
    {
        match self.generations.get(jail_name) {
            Some(n) => *n,
            None => 0,
        }
    }

    pub fn set(&mut self, jail_name: String, node_id: String)
        requires
            old(self).wf(),
            old(self).count(jail_name@) < u64::MAX,
        ensures
            final(self).wf(),
            final(self).nodes() == old(self).nodes().insert(jail_name@, node_id@),
            final(self).counts() == old(self).counts().insert(
                jail_name@,
                (old(self).count(jail_name@) + 1) as u64,
            ),
    {
        let next: u64 = self.generation(jail_name.as_str()) + 1;
        self.generations.insert(jail_name.clone(), next);
        self.by_jail.insert(jail_name, node_id);
        assert(self.nodes() =~= old(self).nodes().insert(jail_name@, node_id@));
    }

    pub fn remove(&mut self, jail_name: &str)
        requires
            old(self).wf(),
        ensures
            final(self).wf(),
            final(self).nodes() == old(self).nodes().remove(jail_name@),
            final(self).counts() == old(self).counts(),
    {
        let _ = self.by_jail.remove(jail_name);
        assert(self.nodes() =~= old(self).nodes().remove(jail_name@));
    }

    /// The table that was written down as the node of every placed jail and the counter of every name.
    pub fn load(jails: Vec<(String, String)>, generations: Vec<(String, u64)>) -> (r: Self)
        ensures
            r.wf(),
            r.nodes() == texts_of(pairs_map(jails@)),
            r.counts() == pairs_map(generations@),
    {
        Placements { by_jail: StrMap::load(jails), generations: StrMap::load(generations) }
    }

    /// The node of every placed jail, in ascending order of the jails, to be written down.
    pub fn jails(&self) -> (r: Vec<(String, String)>)
        requires
            self.wf(),
        ensures
            texts_of(pairs_map(r@)) == self.nodes(),
            ascending(r@),
    {
        proof {
            lemma_pairs_map(self.by_jail.entries());
        }
        text_pairs(&self.by_jail)
    }

    /// The counter of every name, in ascending order of the names, to be written down.
    pub fn generations(&self) -> (r: Vec<(String, u64)>)
        requires
            self.wf(),
        ensures
            pairs_map(r@) == self.counts(),
            ascending(r@),
    {
        proof {
            lemma_pairs_map(self.generations.entries());
        }
        number_pairs(&self.generations)
    }

    /// How many jails are placed.
    pub fn len(&self) -> (r: usize)
        ensures
            r == self.placed().len(),
    {
        self.by_jail.len()
    }

    /// The placed jail at a position, and its node.
    pub fn at(&self, i: usize) -> (r: (&str, &str))
        requires
            i < self.placed().len(),
        ensures
            (r.0@, r.1@) == self.placed()[i as int],
    {
        (self.by_jail.key_at(i).as_str(), self.by_jail.value_at(i).as_str())
    }

    /// Every placed jail with its node, in ascending order of the jails' names.
    pub fn iter(&self) -> (r: Vec<(&str, &str)>)
        ensures
            r@.len() == self.placed().len(),
            forall|i: int| 0 <= i < r@.len() ==> ((#[trigger] r@[i]).0@, r@[i].1@) == self.placed()[i],
    {
        let mut out: Vec<(&str, &str)> = Vec::new();
        let mut i: usize = 0;
        while i < self.len()
            invariant
                i <= self.placed().len(),
                out@.len() == i,
                forall|j: int| 0 <= j < i ==> ((#[trigger] out@[j]).0@, out@[j].1@) == self.placed()[j],
            decreases self.placed().len() - i,
        {
            out.push(self.at(i));
            i = i + 1;
        }
        out
    }
}

} // verus!
