//! Nodes that take no new replicas.

use crate::strmap::StrMap;
use crate::text::str_before;
use vstd::prelude::*;

verus! {

/// The nodes that were taken out of scheduling.
pub struct Cordoned {
    ids: StrMap<()>,
}

impl View for Cordoned {
    type V = Set<Seq<char>>;

    closed spec fn view(&self) -> Set<Seq<char>> {
        self.ids.map().dom()
    }
}

impl Cordoned {
    pub closed spec fn wf(&self) -> bool {
        self.ids.wf()
    }

    pub fn new() -> (r: Self)
        ensures
            r.wf(),
            r@ == Set::<Seq<char>>::empty(),
    {
        let r = Cordoned { ids: StrMap::new() };
        assert(r@ =~= Set::<Seq<char>>::empty());
        r
    }

    pub fn cordon(&mut self, node_id: String)
        requires
            old(self).wf(),
        ensures
            final(self).wf(),
            final(self)@ == old(self)@.insert(node_id@),
    {
        self.ids.insert(node_id, ());
        assert(self@ =~= old(self)@.insert(node_id@));
    }

    pub fn uncordon(&mut self, node_id: &str)
        requires
            old(self).wf(),
        ensures
            final(self).wf(),
            final(self)@ == old(self)@.remove(node_id@),
    {
        let _ = self.ids.remove(node_id);
        assert(self@ =~= old(self)@.remove(node_id@));
    }

    pub fn is_cordoned(&self, node_id: &str) -> (r: bool)
        requires
            self.wf(),
        ensures
            r == self@.contains(node_id@),
    {
        self.ids.contains_key(node_id)
    }

    /// The set that was written down as these ids.
    pub fn load(ids: Vec<String>) -> (r: Self)
        ensures
            r.wf(),
            forall|id: Seq<char>| r@.contains(id) <==> exists|i: int| 0 <= i < ids@.len() && #[trigger] ids@[i]@ == id,
    {
        let mut out = Cordoned::new();
        let mut i: usize = 0;
        while i < ids.len()
            invariant
                out.wf(),
                i <= ids@.len(),
                forall|id: Seq<char>|
                    out@.contains(id) <==> exists|j: int| 0 <= j < i && #[trigger] ids@[j]@ == id,
            decreases ids.len() - i,
        {
            let ghost before_insert = out@;
            let ghost added = ids@[i as int]@;
            out.cordon(ids[i].clone());
            i = i + 1;
            assert forall|id: Seq<char>| out@.contains(id) <==> exists|j: int| 0 <= j < i && #[trigger] ids@[j]@ == id by {
                if id == added {
                    assert(ids@[i - 1]@ == id);
                }
                if before_insert.contains(id) {
                    let j = choose|j: int| 0 <= j < i - 1 && #[trigger] ids@[j]@ == id;
                    assert(ids@[j]@ == id);
                }
            }
        }
        out
    }

    /// The ids, in ascending order.
    pub fn ids(&self) -> (r: Vec<String>)
        requires
            self.wf(),
        ensures
            forall|id: Seq<char>| self@.contains(id) <==> exists|i: int| 0 <= i < r@.len() && #[trigger] r@[i]@ == id,
            forall|i: int, j: int| 0 <= i < j < r@.len() ==> str_before((#[trigger] r@[i])@, (#[trigger] r@[j])@),
    {
        let mut out: Vec<String> = Vec::new();
        let mut i: usize = 0;
        while i < self.ids.len()
            invariant
                self.wf(),
                i <= self.ids.entries().len(),
                out@.len() == i,
                forall|j: int| 0 <= j < i ==> #[trigger] out@[j]@ == self.ids.entries()[j].0@,
            decreases self.ids.entries().len() - i,
        {
            out.push(self.ids.key_at(i).clone());
            i = i + 1;
        }
        assert forall|id: Seq<char>| self@.contains(id) <==> exists|i: int|
            0 <= i < out@.len() && #[trigger] out@[i]@ == id by {
            if self@.contains(id) {
                let j = choose|j: int| crate::strmap::holds_at(self.ids.entries(), id, j);
                assert(out@[j]@ == id);
            }
            if exists|i: int| 0 <= i < out@.len() && #[trigger] out@[i]@ == id {
                let j = choose|j: int| 0 <= j < out@.len() && #[trigger] out@[j]@ == id;
                self.ids.lemma_entry(j);
            }
        }
        out
    }
}

} // verus!
