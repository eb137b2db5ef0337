//! The standby node of every replica that has one.

use crate::controlplane::placements::texts_of;
use crate::strmap::{ascending, lemma_pairs_map, pairs_map, text_pairs, StrMap};
use vstd::prelude::*;

verus! {

/// The standby node of every replica that has one.
pub struct Standbys {
    by_replica: StrMap<String>,
}

impl View for Standbys {
    type V = Map<Seq<char>, Seq<char>>;

    closed spec fn view(&self) -> Map<Seq<char>, Seq<char>> {
        texts_of(self.by_replica.map())
    }
}

impl Standbys {
    pub closed spec fn wf(&self) -> bool {
        self.by_replica.wf()
    }

    pub fn new() -> (r: Self)
        ensures
            r.wf(),
            r@ == Map::<Seq<char>, Seq<char>>::empty(),
    {
        let r = Standbys { by_replica: StrMap::new() };
        assert(r@ =~= Map::<Seq<char>, Seq<char>>::empty());
        r
    }

    /// The table that was written down as these pairs.
    pub fn load(pairs: Vec<(String, String)>) -> (r: Self)
        ensures
            r.wf(),
            r@ == texts_of(pairs_map(pairs@)),
    {
        Standbys { by_replica: StrMap::load(pairs) }
    }

    /// Every replica with its node, in ascending order of the replicas, to be written down.
    pub fn pairs(&self) -> (r: Vec<(String, String)>)
        requires
            self.wf(),
        ensures
            texts_of(pairs_map(r@)) == self@,
            ascending(r@),
    {
        proof {
            lemma_pairs_map(self.by_replica.entries());
        }
        text_pairs(&self.by_replica)
    }

    pub fn get(&self, replica_name: &str) -> (r: Option<&str>)
        requires
            self.wf(),
        ensures
            r is Some <==> self@.dom().contains(replica_name@),
            r matches Some(node) ==> node@ == self@[replica_name@],
    {
        match self.by_replica.get(replica_name) {
            Some(node) => Some(node.as_str()),
            None => None,
        }
    }

    pub fn set(&mut self, replica_name: String, node_id: String)
        requires
            old(self).wf(),
        ensures
            final(self).wf(),
            final(self)@ == old(self)@.insert(replica_name@, node_id@),
    {
        self.by_replica.insert(replica_name, node_id);
        assert(self@ =~= old(self)@.insert(replica_name@, node_id@));
    }

    pub fn remove(&mut self, replica_name: &str)
        requires
            old(self).wf(),
        ensures
            final(self).wf(),
            final(self)@ == old(self)@.remove(replica_name@),
    {
        let _ = self.by_replica.remove(replica_name);
        assert(self@ =~= old(self)@.remove(replica_name@));
    }
}

} // verus!
