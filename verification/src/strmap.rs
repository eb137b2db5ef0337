//! A map keyed by strings, kept in the order of its keys.

use crate::text::{before, lemma_str_before_order, same, str_before};
use vstd::prelude::*;

verus! {

/// A map from strings to values, whose entries are held in ascending order of their keys.
pub struct StrMap<V> {
    entries: Vec<(String, V)>,
}

/// The keys of a sequence of entries ascend strictly.
pub open spec fn ascending<V>(s: Seq<(String, V)>) -> bool {
    forall|i: int, j: int| 0 <= i < j < s.len() ==> str_before((#[trigger] s[i]).0@, (#[trigger] s[j]).0@)
}

/// Where in a sequence of entries a key stands.
pub open spec fn holds_at<V>(s: Seq<(String, V)>, key: Seq<char>, i: int) -> bool {
    0 <= i < s.len() && s[i].0@ == key
}

/// The map that a sequence of entries stands for.
pub open spec fn map_of<V>(s: Seq<(String, V)>) -> Map<Seq<char>, V> {
    Map::new(
        |key: Seq<char>| exists|i: int| holds_at(s, key, i),
        |key: Seq<char>| s[choose|i: int| holds_at(s, key, i)].1,
    )
}

proof fn lemma_map_of<V>(s: Seq<(String, V)>, i: int)
    requires
        ascending(s),
        0 <= i < s.len(),
    ensures
        map_of(s).dom().contains(s[i].0@),
        map_of(s)[s[i].0@] == s[i].1,
{
    let key = s[i].0@;
    assert(holds_at(s, key, i));
    let j = choose|j: int| holds_at(s, key, j);
    lemma_str_before_order(key, key, key);
}

/// The map that a list of pairs makes: of two with one key the later counts.
pub open spec fn pairs_map<V>(pairs: Seq<(String, V)>) -> Map<Seq<char>, V>
    decreases pairs.len(),
{
    if pairs.len() == 0 {
        Map::empty()
    } else {
        pairs_map(pairs.drop_last()).insert(pairs.last().0@, pairs.last().1)
    }
}

/// The entries of a map make that map again.
pub proof fn lemma_pairs_map<V>(s: Seq<(String, V)>)
    requires
        ascending(s),
    ensures
        pairs_map(s) == map_of(s),
    decreases s.len(),
{
    if s.len() == 0 {
        assert(map_of(s) =~= Map::empty());
    } else {
        let rest = s.drop_last();
        let n = s.len() - 1;
        lemma_pairs_map(rest);
        let a = pairs_map(s);
        let b = map_of(s);
        assert forall|k: Seq<char>| #![trigger a.dom().contains(k)] #![trigger b.dom().contains(k)] a.dom().contains(k) == b.dom().contains(k) && (a.dom().contains(k)
            ==> a[k] == b[k]) by {
            lemma_map_of(s, n);
            if exists|i: int| holds_at(rest, k, i) {
                let i = choose|i: int| holds_at(rest, k, i);
                assert(holds_at(s, k, i));
                lemma_map_of(s, i);
                lemma_map_of(rest, i);
                lemma_str_before_order(s[i].0@, s[n].0@, k);
            }
            if exists|i: int| holds_at(s, k, i) {
                let i = choose|i: int| holds_at(s, k, i);
                if i < n {
                    assert(holds_at(rest, k, i));
                }
            }
        }
        assert(a =~= b);
    }
}

impl<V> StrMap<V> {
    /// The map of some pairs; of two with one key the later counts.
    pub fn load(pairs: Vec<(String, V)>) -> (r: Self)
        ensures
            r.wf(),
            r.map() == pairs_map(pairs@),
    {
        let mut out = StrMap::new();
        let ghost all = pairs@;
        assert(all.take(0) =~= Seq::empty());
        for pair in it: pairs
            invariant
                it.seq() == all,
                out.wf(),
                out.map() == pairs_map(all.take(it.index())),
        {
            assert(all.take(it.index() + 1).drop_last() =~= all.take(it.index()));
            let (key, value) = pair;
            out.insert(key, value);
        }
        assert(all.take(all.len() as int) =~= all);
        out
    }

    /// The entries, in ascending order of their keys.
    pub closed spec fn entries(&self) -> Seq<(String, V)> {
        self.entries@
    }

    /// The keys ascend, so none occurs twice.
    pub open spec fn wf(&self) -> bool {
        ascending(self.entries())
    }

    /// What the map holds.
    pub open spec fn map(&self) -> Map<Seq<char>, V> {
        map_of(self.entries())
    }

    pub proof fn lemma_entry(&self, i: int)
        requires
            self.wf(),
            0 <= i < self.entries().len(),
        ensures
            self.map().dom().contains(self.entries()[i].0@),
            self.map()[self.entries()[i].0@] == self.entries()[i].1,
    {
        lemma_map_of(self.entries(), i);
    }

    pub fn new() -> (r: Self)
        ensures
            r.wf(),
            r.entries() == Seq::<(String, V)>::empty(),
            r.map() == Map::<Seq<char>, V>::empty(),
    {
        let r = StrMap { entries: Vec::new() };
        assert(r.map() =~= Map::<Seq<char>, V>::empty());
        r
    }

    pub fn len(&self) -> (r: usize)
        ensures
            r == self.entries().len(),
    {
        self.entries.len()
    }

    pub fn key_at(&self, i: usize) -> (r: &String)
        requires
            i < self.entries().len(),
        ensures
            *r == self.entries()[i as int].0,
    {
        &self.entries[i].0
    }

    pub fn value_at(&self, i: usize) -> (r: &V)
        requires
            i < self.entries().len(),
        ensures
            *r == self.entries()[i as int].1,
    {
        &self.entries[i].1
    }

    /// The first position whose key does not come before `key`.
    fn position(&self, key: &str) -> (r: usize)
        requires
            self.wf(),
        ensures
            r <= self.entries@.len(),
            forall|j: int| 0 <= j < r ==> str_before((#[trigger] self.entries@[j]).0@, key@),
            forall|j: int| r <= j < self.entries@.len() ==> !str_before((#[trigger] self.entries@[j]).0@, key@),
    {
        let mut lo: usize = 0;
        let mut hi: usize = self.entries.len();
        while lo < hi
            invariant
                self.wf(),
                lo <= hi <= self.entries@.len(),
                forall|j: int| 0 <= j < lo ==> str_before((#[trigger] self.entries@[j]).0@, key@),
                forall|j: int| hi <= j < self.entries@.len() ==> !str_before((#[trigger] self.entries@[j]).0@, key@),
            decreases hi - lo,
        {
            let mid: usize = lo + (hi - lo) / 2;
            if before(self.entries[mid].0.as_str(), key) {
                assert forall|j: int| 0 <= j <= mid implies str_before((#[trigger] self.entries@[j]).0@, key@) by {
                    lemma_str_before_order(self.entries@[j].0@, self.entries@[mid as int].0@, key@);
                }
                lo = mid + 1;
            } else {
                assert forall|j: int| mid <= j < self.entries@.len() implies !str_before(
                    (#[trigger] self.entries@[j]).0@,
                    key@,
                ) by {
                    lemma_str_before_order(self.entries@[mid as int].0@, self.entries@[j].0@, key@);
                }
                hi = mid;
            }
        }
        lo
    }

    /// Where `key` stands, if it does.
    fn find(&self, key: &str) -> (r: Option<usize>)
        requires
            self.wf(),
        ensures
            r matches Some(i) ==> holds_at(self.entries@, key@, i as int),
            r is None ==> forall|i: int| !holds_at(self.entries@, key@, i),
    {
        let p = self.position(key);
        if p < self.entries.len() && same(self.entries[p].0.as_str(), key) {
            return Some(p);
        }
        assert forall|i: int| !holds_at(self.entries@, key@, i) by {
            if holds_at(self.entries@, key@, i) {
                lemma_str_before_order(key@, key@, key@);
                if p < self.entries@.len() {
                    lemma_str_before_order(self.entries@[p as int].0@, key@, key@);
                }
            }
        }
        None
    }

    pub fn get(&self, key: &str) -> (r: Option<&V>)
        requires
            self.wf(),
        ensures
            r is Some <==> self.map().dom().contains(key@),
            r matches Some(v) ==> *v == self.map()[key@],
    {
        match self.find(key) {
            Some(i) => {
                proof {
                    lemma_map_of(self.entries@, i as int);
                }
                Some(&self.entries[i].1)
            },
            None => None,
        }
    }

    pub fn contains_key(&self, key: &str) -> (r: bool)
        requires
            self.wf(),
        ensures
            r == self.map().dom().contains(key@),
    {
        self.get(key).is_some()
    }

    /// Sets the value of `key`.
    pub fn insert(&mut self, key: String, value: V)
        requires
            old(self).wf(),
        ensures
            final(self).wf(),
            final(self).map() == old(self).map().insert(key@, value),
    {
        let ghost before_call = self.entries@;
        let p = self.position(key.as_str());
        let hit = p < self.entries.len() && same(self.entries[p].0.as_str(), key.as_str());
        let ghost k = key@;
        if hit {
            self.entries.set(p, (key, value));
            assert(ascending(self.entries@));
        } else {
            self.entries.insert(p, (key, value));
            assert(ascending(self.entries@)) by {
                assert forall|i: int, j: int| 0 <= i < j < self.entries@.len() implies str_before(
                    (#[trigger] self.entries@[i]).0@,
                    (#[trigger] self.entries@[j]).0@,
                ) by {
                    if p < before_call.len() {
                        lemma_str_before_order(before_call[p as int].0@, k, k);
                    }
                    if i == p {
                        lemma_str_before_order(before_call[j - 1].0@, k, k);
                        if p < j - 1 {
                            lemma_str_before_order(k, before_call[p as int].0@, before_call[j - 1].0@);
                        }
                    }
                }
            }
        }
        proof {
            let m0 = map_of(before_call).insert(k, value);
            let m1 = map_of(self.entries@);
            assert forall|x: Seq<char>| #![trigger m0.dom().contains(x)] #![trigger m1.dom().contains(x)] m0.dom().contains(x) == m1.dom().contains(x) && (m0.dom().contains(x)
                ==> m0[x] == m1[x]) by {
                lemma_map_of(self.entries@, p as int);
                if x != k {
                    if exists|i: int| holds_at(before_call, x, i) {
                        let i = choose|i: int| holds_at(before_call, x, i);
                        lemma_map_of(before_call, i);
                        let i1: int = if hit || i < p { i } else { i + 1 };
                        assert(holds_at(self.entries@, x, i1));
                        lemma_map_of(self.entries@, i1);
                    }
                    if exists|i: int| holds_at(self.entries@, x, i) {
                        let i = choose|i: int| holds_at(self.entries@, x, i);
                        let i0: int = if hit || i < p { i } else { i - 1 };
                        assert(holds_at(before_call, x, i0));
                    }
                }
            }
            assert(m0 =~= m1);
        }
    }

    /// Forgets `key`, and returns the value that it had.
    pub fn remove(&mut self, key: &str) -> (r: Option<V>)
        requires
            old(self).wf(),
        ensures
            final(self).wf(),
            final(self).map() == old(self).map().remove(key@),
            r is Some <==> old(self).map().dom().contains(key@),
            r matches Some(v) ==> v == old(self).map()[key@],
    {
        let ghost before_call = self.entries@;
        match self.find(key) {
            None => {
                assert(self.map() =~= map_of(before_call).remove(key@));
                None
            },
            Some(p) => {
                proof {
                    lemma_map_of(before_call, p as int);
                }
                let (_, value) = self.entries.remove(p);
                proof {
                    let k = key@;
                    let m0 = map_of(before_call).remove(k);
                    let m1 = map_of(self.entries@);
                    assert(ascending(self.entries@));
                    assert forall|x: Seq<char>| #![trigger m0.dom().contains(x)] #![trigger m1.dom().contains(x)] m0.dom().contains(x) == m1.dom().contains(x) && (m0.dom().contains(
                        x,
                    ) ==> m0[x] == m1[x]) by {
                        if exists|i: int| holds_at(self.entries@, x, i) {
                            let i = choose|i: int| holds_at(self.entries@, x, i);
                            let i0: int = if i < p { i } else { i + 1 };
                            assert(holds_at(before_call, x, i0));
                            lemma_map_of(before_call, i0);
                            lemma_map_of(self.entries@, i);
                            lemma_str_before_order(k, k, k);
                        }
                        if x != k && exists|i: int| holds_at(before_call, x, i) {
                            let i = choose|i: int| holds_at(before_call, x, i);
                            let i1: int = if i < p { i } else { i - 1 };
                            assert(holds_at(self.entries@, x, i1));
                        }
                    }
                    assert(m0 =~= m1);
                }
                Some(value)
            },
        }
    }
}

/// The map that a list of keys and values makes: of two with one key the later counts.
pub open spec fn map_from<W>(pairs: Seq<(Seq<char>, W)>) -> Map<Seq<char>, W>
    decreases pairs.len(),
{
    if pairs.len() == 0 {
        Map::empty()
    } else {
        map_from(pairs.drop_last()).insert(pairs.last().0, pairs.last().1)
    }
}

/// Two lists hold the same, in whatever order.
pub open spec fn same_elements<T>(a: Seq<T>, b: Seq<T>) -> bool {
    forall|x: T| #![trigger a.contains(x)] #![trigger b.contains(x)] a.contains(x) <==> b.contains(x)
}

/// No key stands twice in a list.
pub open spec fn distinct_keys<W>(pairs: Seq<(Seq<char>, W)>) -> bool {
    forall|i: int, j: int| 0 <= i < j < pairs.len() ==> (#[trigger] pairs[i]).0 != (#[trigger] pairs[j]).0
}

proof fn lemma_map_from<W>(pairs: Seq<(Seq<char>, W)>)
    ensures
        forall|i: int| 0 <= i < pairs.len() ==> map_from(pairs).dom().contains((#[trigger] pairs[i]).0),
        forall|key: Seq<char>| #[trigger]
            map_from(pairs).dom().contains(key) ==> pairs.contains((key, map_from(pairs)[key])),
    decreases pairs.len(),
{
    if pairs.len() > 0 {
        let rest = pairs.drop_last();
        lemma_map_from(rest);
        assert forall|i: int| 0 <= i < pairs.len() implies map_from(pairs).dom().contains((#[trigger] pairs[i]).0) by {
            if i < rest.len() {
                assert(rest[i] == pairs[i]);
            }
        }
        assert forall|key: Seq<char>| #[trigger] map_from(pairs).dom().contains(key) implies pairs.contains(
            (key, map_from(pairs)[key]),
        ) by {
            if key == pairs.last().0 {
                assert(pairs[pairs.len() - 1] == (key, map_from(pairs)[key]));
            } else {
                assert(map_from(rest).dom().contains(key));
                let i = choose|i: int| 0 <= i < rest.len() && rest[i] == (key, map_from(rest)[key]);
                assert(pairs[i] == rest[i]);
            }
        }
    }
}

/// Lists that hold the same, with no key twice, make the same map, whatever their order.
pub proof fn lemma_any_order<W>(a: Seq<(Seq<char>, W)>, b: Seq<(Seq<char>, W)>)
    requires
        distinct_keys(a),
        same_elements(a, b),
    ensures
        map_from(a) == map_from(b),
{
    let m = map_from(a);
    let n = map_from(b);
    lemma_map_from(a);
    lemma_map_from(b);
    assert forall|key: Seq<char>| #![trigger m.dom().contains(key)] #![trigger n.dom().contains(key)] {
        &&& m.dom().contains(key) == n.dom().contains(key)
        &&& m.dom().contains(key) ==> m[key] == n[key]
    } by {
        if m.dom().contains(key) {
            let x = (key, m[key]);
            assert(a.contains(x));
            assert(b.contains(x));
            let j = choose|j: int| 0 <= j < b.len() && b[j] == x;
            assert(n.dom().contains(b[j].0));
        }
        if n.dom().contains(key) {
            let y = (key, n[key]);
            assert(b.contains(y));
            assert(a.contains(y));
            let i = choose|i: int| 0 <= i < a.len() && a[i] == y;
            assert(m.dom().contains(a[i].0));
            let x = (key, m[key]);
            let k = choose|k: int| 0 <= k < a.len() && a[k] == x;
            assert(a[i].0 == a[k].0);
            assert(i == k);
        }
    }
    assert(m =~= n);
}

/// Some pairs of texts by what they hold.
pub open spec fn texts_in(pairs: Seq<(String, String)>) -> Seq<(Seq<char>, Seq<char>)> {
    Seq::new(pairs.len(), |i: int| (pairs[i].0@, pairs[i].1@))
}

/// Some texts with numbers by what they hold.
pub open spec fn numbers_in(pairs: Seq<(String, u64)>) -> Seq<(Seq<char>, u64)> {
    Seq::new(pairs.len(), |i: int| (pairs[i].0@, pairs[i].1))
}

/// Pairs of texts make the map that what they hold makes.
pub proof fn lemma_texts_in(pairs: Seq<(String, String)>)
    ensures
        pairs_map(pairs).map_values(|s: String| s@) == map_from(texts_in(pairs)),
    decreases pairs.len(),
{
    if pairs.len() > 0 {
        lemma_texts_in(pairs.drop_last());
        assert(texts_in(pairs).drop_last() =~= texts_in(pairs.drop_last()));
    }
    assert(pairs_map(pairs).map_values(|s: String| s@) =~= map_from(texts_in(pairs)));
}

/// Texts with numbers make the map that what they hold makes.
pub proof fn lemma_numbers_in(pairs: Seq<(String, u64)>)
    ensures
        pairs_map(pairs) == map_from(numbers_in(pairs)),
    decreases pairs.len(),
{
    if pairs.len() > 0 {
        lemma_numbers_in(pairs.drop_last());
        assert(numbers_in(pairs).drop_last() =~= numbers_in(pairs.drop_last()));
    }
    assert(pairs_map(pairs) =~= map_from(numbers_in(pairs)));
}

/// The entries of a table of texts.
pub fn text_pairs(m: &StrMap<String>) -> (r: Vec<(String, String)>)
    ensures
        r@ == m.entries(),
{
    let mut out: Vec<(String, String)> = Vec::new();
    let mut i: usize = 0;
    while i < m.len()
        invariant
            i <= m.entries().len(),
            out@ == m.entries().take(i as int),
        decreases m.entries().len() - i,
    {
        out.push((m.key_at(i).clone(), m.value_at(i).clone()));
        i = i + 1;
        assert(m.entries().take(i as int) =~= m.entries().take(i - 1).push(m.entries()[i - 1]));
    }
    assert(m.entries().take(i as int) =~= m.entries());
    out
}

/// The entries of a table of numbers.
pub fn number_pairs(m: &StrMap<u64>) -> (r: Vec<(String, u64)>)
    ensures
        r@ == m.entries(),
{
    let mut out: Vec<(String, u64)> = Vec::new();
    let mut i: usize = 0;
    while i < m.len()
        invariant
            i <= m.entries().len(),
            out@ == m.entries().take(i as int),
        decreases m.entries().len() - i,
    {
        out.push((m.key_at(i).clone(), *m.value_at(i)));
        i = i + 1;
        assert(m.entries().take(i as int) =~= m.entries().take(i - 1).push(m.entries()[i - 1]));
    }
    assert(m.entries().take(i as int) =~= m.entries());
    out
}

} // verus!
