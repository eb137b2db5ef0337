//! Replicas whose former primary is still to be stopped, and on which node.

use crate::controlplane::placements::texts_of;
use crate::strmap::{ascending, lemma_pairs_map, pairs_map, text_pairs, texts_in, StrMap};
use crate::text::same;
use crate::views::views;
use vstd::prelude::*;

verus! {

/// Replicas whose former primary is still to be stopped, and on which node.
pub struct PendingFences {
    by_replica: StrMap<String>,
}

impl View for PendingFences {
    type V = Map<Seq<char>, Seq<char>>;

    closed spec fn view(&self) -> Map<Seq<char>, Seq<char>> {
        texts_of(self.by_replica.map())
    }
}

/// The names in a list of names and nodes that go with a node, in the order of the list.
pub open spec fn names_on(s: Seq<(Seq<char>, Seq<char>)>, node: Seq<char>) -> Seq<Seq<char>>
    decreases s.len(),
{
    if s.len() == 0 {
        Seq::empty()
    } else if s.last().1 == node {
        names_on(s.drop_last(), node).push(s.last().0)
    } else {
        names_on(s.drop_last(), node)
    }
}

impl PendingFences {
    /// The replicas with the nodes on which they are to be stopped, in ascending order.
    pub closed spec fn pending(&self) -> Seq<(Seq<char>, Seq<char>)> {
        texts_in(self.by_replica.entries())
    }

    /// `pending` lists exactly what is recorded, each replica once and in ascending order.
    pub proof fn law_pending_lists_every_fence(&self)
        requires
            self.wf(),
        ensures
            forall|i: int, j: int|
                0 <= i < j < self.pending().len() ==> crate::text::str_before(
                    (#[trigger] self.pending()[i]).0,
                    (#[trigger] self.pending()[j]).0,
                ),
            forall|i: int|
                0 <= i < self.pending().len() ==> {
                    &&& self@.dom().contains((#[trigger] self.pending()[i]).0)
                    &&& self@[self.pending()[i].0] == self.pending()[i].1
                },
            forall|name: Seq<char>| #[trigger]
                self@.dom().contains(name) ==> exists|i: int|
                    0 <= i < self.pending().len() && (#[trigger] self.pending()[i]).0 == name,
    {
        assert forall|i: int| 0 <= i < self.pending().len() implies {
            &&& self@.dom().contains((#[trigger] self.pending()[i]).0)
            &&& self@[self.pending()[i].0] == self.pending()[i].1
        } by {
            self.by_replica.lemma_entry(i);
        }
        assert forall|name: Seq<char>| #[trigger] self@.dom().contains(name) implies exists|i: int|
            0 <= i < self.pending().len() && (#[trigger] self.pending()[i]).0 == name by {
            let i = choose|i: int| crate::strmap::holds_at(self.by_replica.entries(), name, i);
            assert(self.pending()[i].0 == name);
        }
    }

    /// The replicas that are to be stopped on a node, in ascending order.
    pub fn for_node(&self, node_id: &str) -> (r: Vec<String>)
        ensures
            views(r@) == names_on(self.pending(), node_id@),
    {
        let mut out: Vec<String> = Vec::new();
        let mut i: usize = 0;
        while i < self.by_replica.len()
            invariant
                i <= self.pending().len(),
                self.pending() == texts_in(self.by_replica.entries()),
                views(out@) == names_on(self.pending().take(i as int), node_id@),
            decreases self.pending().len() - i,
        {
            let ghost before_push = out@;
            proof {
                assert(self.pending().take(i + 1).drop_last() =~= self.pending().take(i as int));
            }
            if same(self.by_replica.value_at(i).as_str(), node_id) {
                let name = self.by_replica.key_at(i).clone();
                out.push(name);
                assert(views(out@) =~= views(before_push).push(name@));
            }
            i = i + 1;
        }
        assert(self.pending().take(i as int) =~= self.pending());
        out
    }

    pub closed spec fn wf(&self) -> bool {
        self.by_replica.wf()
    }

    pub fn new() -> (r: Self)
        ensures
            r.wf(),
            r@ == Map::<Seq<char>, Seq<char>>::empty(),
            r.pending() == Seq::<(Seq<char>, Seq<char>)>::empty(),
    {
        let r = PendingFences { by_replica: StrMap::new() };
        assert(r@ =~= Map::<Seq<char>, Seq<char>>::empty());
        assert(r.pending() =~= Seq::<(Seq<char>, Seq<char>)>::empty());
        r
    }

    /// The table that was written down as these pairs.
    pub fn load(pairs: Vec<(String, String)>) -> (r: Self)
        ensures
            r.wf(),
            r@ == texts_of(pairs_map(pairs@)),
    {
        PendingFences { by_replica: StrMap::load(pairs) }
    }

    /// Every replica with its node, in ascending order of the replicas, to be written down.
    pub fn pairs(&self) -> (r: Vec<(String, String)>)
        requires
            self.wf(),
        ensures
            texts_of(pairs_map(r@)) == self@,
            ascending(r@),
    {
        proof {
            lemma_pairs_map(self.by_replica.entries());
        }
        text_pairs(&self.by_replica)
    }

    pub fn get(&self, replica_name: &str) -> (r: Option<&str>)
        requires
            self.wf(),
        ensures
            r is Some <==> self@.dom().contains(replica_name@),
            r matches Some(node) ==> node@ == self@[replica_name@],
    {
        match self.by_replica.get(replica_name) {
            Some(node) => Some(node.as_str()),
            None => None,
        }
    }

    pub fn set(&mut self, replica_name: String, node_id: String)
        requires
            old(self).wf(),
        ensures
            final(self).wf(),
            final(self)@ == old(self)@.insert(replica_name@, node_id@),
    {
        self.by_replica.insert(replica_name, node_id);
        assert(self@ =~= old(self)@.insert(replica_name@, node_id@));
    }

    pub fn remove(&mut self, replica_name: &str)
        requires
            old(self).wf(),
        ensures
            final(self).wf(),
            final(self)@ == old(self)@.remove(replica_name@),
    {
        let _ = self.by_replica.remove(replica_name);
        assert(self@ =~= old(self)@.remove(replica_name@));
    }
}

} // verus!
