//! Services: what is asked of them, and which placed jails are their replicas.

use crate::controlplane::placements::Placements;
use crate::decimal::{decimal, is_digit, lemma_decimal_injective, lemma_value_of_decimal, parse_unsigned, push_decimal};
use crate::jail::{JailTemplate, JailTemplateView};
use crate::strmap::{lemma_pairs_map, map_from, pairs_map, StrMap};
use crate::text::{chars_of, same, string_of};
use crate::views::{Duplicate, Same};
use vstd::prelude::*;
use vstd::string::*;

verus! {

/// What a placed jail belongs to.
#[derive(Debug, Clone, PartialEq, Eq)]
pub enum Owner {
    /// It is a replica of the service of this name.
    Service(String),
    Unmanaged,
}

#[verifier::ext_equal]
pub enum OwnerView {
    Service(Seq<char>),
    Unmanaged,
}

impl View for Owner {
    type V = OwnerView;

    open spec fn view(&self) -> OwnerView {
        match self {
            Owner::Service(name) => OwnerView::Service(name@),
            Owner::Unmanaged => OwnerView::Unmanaged,
        }
    }
}

/// Why a service was not applied.
#[derive(Debug, Clone, PartialEq, Eq)]
pub enum ApplyServiceError {
    /// The service of this name exists with another template.
    TemplateChanged(String),
    /// A replica would have the name of a jail that belongs to something else.
    NameConflict { name: String, owner: Owner },
}

/// There is no service of this name.
#[derive(Debug, Clone, PartialEq, Eq)]
pub struct UnknownService(pub String);

/// A service as it was applied.
pub struct ServiceRecord {
    pub desired_replicas: u32,
    pub template: JailTemplate,
    /// The address that the service is reached by.
    pub vip: u32,
    pub port: u16,
}

#[verifier::ext_equal]
pub struct ServiceRecordView {
    pub desired_replicas: u32,
    pub template: JailTemplateView,
    pub vip: u32,
    pub port: u16,
}

impl View for ServiceRecord {
    type V = ServiceRecordView;

    open spec fn view(&self) -> ServiceRecordView {
        ServiceRecordView {
            desired_replicas: self.desired_replicas,
            template: self.template@,
            vip: self.vip,
            port: self.port,
        }
    }
}

/// The name of a replica of a service.
pub open spec fn replica_name_of(service: Seq<char>, index: u32) -> Seq<char> {
    service.push('-') + decimal(index as nat)
}

/// Which replica of a service a jail is, if it is one.
pub open spec fn replica_index_of(service: Seq<char>, jail: Seq<char>) -> Option<u32> {
    if exists|i: u32| jail == #[trigger] replica_name_of(service, i) {
        Some(choose|i: u32| jail == #[trigger] replica_name_of(service, i))
    } else {
        None
    }
}

/// A jail is the replica of one service at most, and of one index.
pub proof fn law_replica_names_are_distinct(a: Seq<char>, i: u32, b: Seq<char>, j: u32)
    requires
        replica_name_of(a, i) == replica_name_of(b, j),
    ensures
        a == b,
        i == j,
{
    let name = replica_name_of(a, i);
    lemma_value_of_decimal(i as nat);
    lemma_value_of_decimal(j as nat);
    assert(name.len() == a.len() + 1 + decimal(i as nat).len());
    assert(name.len() == b.len() + 1 + decimal(j as nat).len());
    assert(name[a.len() as int] == '-');
    assert(replica_name_of(b, j)[b.len() as int] == '-');
    if a.len() < b.len() {
        assert(is_digit(decimal(i as nat)[b.len() - (a.len() + 1)]));
    } else if b.len() < a.len() {
        assert(is_digit(decimal(j as nat)[a.len() - (b.len() + 1)]));
        assert(replica_name_of(b, j)[a.len() as int] == decimal(j as nat)[a.len() - (b.len() + 1)]);
    }
    assert(a =~= name.take(a.len() as int));
    assert(b =~= name.take(b.len() as int));
    assert(decimal(i as nat) =~= name.skip(a.len() as int + 1));
    assert(decimal(j as nat) =~= name.skip(b.len() as int + 1));
    lemma_decimal_injective(i as nat, j as nat);
}

/// The index of a replica's name is its index.
pub proof fn lemma_replica_index(service: Seq<char>, i: u32)
    ensures
        replica_index_of(service, replica_name_of(service, i)) == Some(i),
{
    let name = replica_name_of(service, i);
    let k = choose|k: u32| name == #[trigger] replica_name_of(service, k);
    law_replica_names_are_distinct(service, i, service, k);
}

/// The name of a replica of a service.
pub fn replica_name(service: &str, index: u32) -> (r: String)
    ensures
        r@ == replica_name_of(service@, index),
{
    let mut out = service.to_owned();
    out.push('-');
    push_decimal(&mut out, index as u64);
    out
}

/// Which replica of the service the jail is, if it is one.
pub fn replica_index(service: &str, jail_name: &str) -> (r: Option<u32>)
    ensures
        r == replica_index_of(service@, jail_name@),
{
    let name = chars_of(jail_name);
    let dash: usize = service.unicode_len();
    if name.len() <= dash {
        assert forall|i: u32| jail_name@ != #[trigger] replica_name_of(service@, i) by {
            lemma_value_of_decimal(i as nat);
        }
        return None;
    }
    let digits = string_of(&name, dash + 1, name.len());
    match parse_unsigned(digits.as_str(), u32::MAX as u64) {
        None => {
            assert forall|i: u32| jail_name@ != #[trigger] replica_name_of(service@, i) by {
                lemma_value_of_decimal(i as nat);
                if jail_name@ == replica_name_of(service@, i) {
                    assert(digits@ =~= decimal(i as nat));
                }
            }
            None
        },
        Some(n) => {
            let index: u32 = n as u32;
            if same(replica_name(service, index).as_str(), jail_name) {
                proof {
                    lemma_replica_index(service@, index);
                }
                Some(index)
            } else {
                assert forall|i: u32| jail_name@ != #[trigger] replica_name_of(service@, i) by {
                    lemma_value_of_decimal(i as nat);
                    if jail_name@ == replica_name_of(service@, i) {
                        assert(digits@ =~= decimal(i as nat));
                    }
                }
                None
            }
        },
    }
}

/// The indices below `desired` that are not present, ascending.
pub open spec fn missing(present: Set<u32>, desired: nat) -> Seq<u32>
    decreases desired,
{
    if desired == 0 {
        Seq::empty()
    } else if present.contains((desired - 1) as u32) {
        missing(present, (desired - 1) as nat)
    } else {
        missing(present, (desired - 1) as nat).push((desired - 1) as u32)
    }
}

/// The present indices from `desired` on and below `bound`, descending.
pub open spec fn surplus(present: Set<u32>, desired: nat, bound: nat) -> Seq<u32>
    decreases bound,
{
    if bound <= desired {
        Seq::empty()
    } else if present.contains((bound - 1) as u32) {
        seq![(bound - 1) as u32] + surplus(present, desired, (bound - 1) as nat)
    } else {
        surplus(present, desired, (bound - 1) as nat)
    }
}

/// The replicas to remove: the present indices from `desired` on, the highest first.
pub open spec fn to_remove_of(present: Set<u32>, desired: u32) -> Seq<u32> {
    surplus(present, desired as nat, 0x1_0000_0000)
}

pub open spec fn descending(s: Seq<u32>) -> bool {
    forall|i: int, j: int| 0 <= i < j < s.len() ==> s[i] > s[j]
}

/// A descending list of exactly the surplus indices is the list of them.
proof fn lemma_surplus(s: Seq<u32>, present: Set<u32>, desired: nat, bound: nat)
    requires
        descending(s),
        bound <= 0x1_0000_0000,
        forall|x: u32| s.contains(x) <==> present.contains(x) && desired <= x < bound,
    ensures
        s == surplus(present, desired, bound),
    decreases bound,
{
    if bound <= desired {
        if s.len() > 0 {
            assert(s.contains(s[0]));
        }
        assert(s =~= Seq::empty());
    } else {
        let top = (bound - 1) as u32;
        if present.contains(top) {
            assert(s.contains(top));
            let k = choose|k: int| 0 <= k < s.len() && s[k] == top;
            if k > 0 {
                assert(s.contains(s[0]));
            }
            let rest = s.skip(1);
            assert forall|x: u32| rest.contains(x) <==> present.contains(x) && desired <= x < bound - 1 by {
                if rest.contains(x) {
                    let m = choose|m: int| 0 <= m < rest.len() && rest[m] == x;
                    assert(s[m + 1] == x);
                    assert(s.contains(x));
                }
                if present.contains(x) && desired <= x < bound - 1 {
                    assert(s.contains(x));
                    let m = choose|m: int| 0 <= m < s.len() && s[m] == x;
                    assert(rest[m - 1] == x);
                }
            }
            lemma_surplus(rest, present, desired, (bound - 1) as nat);
            assert(s =~= seq![top] + rest);
        } else {
            lemma_surplus(s, present, desired, (bound - 1) as nat);
        }
    }
}

/// What is in the list of the missing.
pub proof fn lemma_missing(present: Set<u32>, desired: nat)
    requires
        desired <= u32::MAX,
    ensures
        forall|x: u32| #[trigger] missing(present, desired).contains(x) <==> !present.contains(x) && x < desired,
        forall|i: int, j: int|
            0 <= i < j < missing(present, desired).len() ==> missing(present, desired)[i] < missing(
                present,
                desired,
            )[j],
    decreases desired,
{
    if desired > 0 {
        let prior = missing(present, (desired - 1) as nat);
        lemma_missing(present, (desired - 1) as nat);
        let all = missing(present, desired);
        assert forall|x: u32| #[trigger] all.contains(x) <==> !present.contains(x) && x < desired by {
            if !present.contains((desired - 1) as u32) {
                if all.contains(x) {
                    let k = choose|k: int| 0 <= k < all.len() && all[k] == x;
                    if k < prior.len() {
                        assert(prior.contains(x));
                    }
                }
                if prior.contains(x) {
                    let k = choose|k: int| 0 <= k < prior.len() && prior[k] == x;
                    assert(all[k] == x);
                }
                assert(all[all.len() - 1] == desired - 1);
            }
        }
        assert forall|i: int, j: int| 0 <= i < j < all.len() implies all[i] < all[j] by {
            assert(prior.contains(prior[i]));
        }
    }
}

/// What is in the list of the surplus.
pub proof fn lemma_to_remove(present: Set<u32>, desired: nat, bound: nat)
    requires
        bound <= 0x1_0000_0000,
    ensures
        descending(surplus(present, desired, bound)),
        forall|x: u32| #[trigger]
            surplus(present, desired, bound).contains(x) <==> present.contains(x) && desired <= x < bound,
    decreases bound,
{
    if bound > desired {
        lemma_to_remove(present, desired, (bound - 1) as nat);
        let rest = surplus(present, desired, (bound - 1) as nat);
        let all = surplus(present, desired, bound);
        let top = (bound - 1) as u32;
        if present.contains(top) {
            assert forall|x: u32| #[trigger] all.contains(x) <==> present.contains(x) && desired <= x < bound by {
                if all.contains(x) {
                    let k = choose|k: int| 0 <= k < all.len() && all[k] == x;
                    if k > 0 {
                        assert(rest[k - 1] == x);
                        assert(rest.contains(x));
                    }
                }
                if rest.contains(x) {
                    let k = choose|k: int| 0 <= k < rest.len() && rest[k] == x;
                    assert(all[k + 1] == x);
                }
                assert(all[0] == top);
            }
            assert forall|i: int, j: int| 0 <= i < j < all.len() implies all[i] > all[j] by {
                assert(rest.contains(rest[j - 1]));
            }
        }
    }
}

/// The indices that are held in a vector.
pub open spec fn index_set(s: Seq<u32>) -> Set<u32> {
    Set::new(|x: u32| s.contains(x))
}

/// What a service lacks of its replicas, lowest first, and what it has too many, highest first.
pub fn diff_replicas(desired: u32, present: &Vec<u32>) -> (r: (Vec<u32>, Vec<u32>))
    ensures
        r.0@ == missing(index_set(present@), desired as nat),
        r.1@ == to_remove_of(index_set(present@), desired),
{
    let ghost set = index_set(present@);
    let mut to_add: Vec<u32> = Vec::new();
    let mut n: u32 = 0;
    while n < desired
        invariant
            n <= desired,
            set == index_set(present@),
            to_add@ == missing(set, n as nat),
        decreases desired - n,
    {
        if !contains(present, n) {
            to_add.push(n);
        }
        n = n + 1;
    }
    let mut to_remove: Vec<u32> = Vec::new();
    let mut i: usize = 0;
    while i < present.len()
        invariant
            i <= present@.len(),
            descending(to_remove@),
            forall|x: u32| #[trigger]
                to_remove@.contains(x) <==> present@.take(i as int).contains(x) && desired <= x,
        decreases present.len() - i,
    {
        let x = present[i];
        let ghost old_list = to_remove@;
        assert forall|y: u32| #[trigger] present@.take(i + 1).contains(y) <==> present@.take(i as int).contains(y) || y
            == x by {
            let t0 = present@.take(i as int);
            let t1 = present@.take(i + 1);
            if t0.contains(y) {
                let k = choose|k: int| 0 <= k < t0.len() && t0[k] == y;
                assert(t1[k] == y);
            }
            if t1.contains(y) {
                let k = choose|k: int| 0 <= k < t1.len() && t1[k] == y;
                if k < i {
                    assert(t0[k] == y);
                }
            }
            assert(t1[i as int] == x);
        }
        if x >= desired {
            insert_descending(&mut to_remove, x);
        }
        i = i + 1;
    }
    proof {
        assert(present@.take(i as int) =~= present@);
        lemma_surplus(to_remove@, set, desired as nat, 0x1_0000_0000);
    }
    (to_add, to_remove)
}

fn contains(v: &Vec<u32>, x: u32) -> (r: bool)
    ensures
        r == v@.contains(x),
{
    let mut i: usize = 0;
    while i < v.len()
        invariant
            i <= v@.len(),
            forall|j: int| 0 <= j < i ==> v@[j] != x,
        decreases v.len() - i,
    {
        if v[i] == x {
            return true;
        }
        i = i + 1;
    }
    false
}

fn insert_descending(v: &mut Vec<u32>, x: u32)
    requires
        descending(old(v)@),
    ensures
        descending(final(v)@),
        forall|y: u32| #[trigger] final(v)@.contains(y) <==> old(v)@.contains(y) || y == x,
{
    let mut i: usize = 0;
    while i < v.len() && v[i] > x
        invariant
            v@ == old(v)@,
            i <= v@.len(),
            forall|j: int| 0 <= j < i ==> v@[j] > x,
        decreases v.len() - i,
    {
        i = i + 1;
    }
    if i < v.len() && v[i] == x {
        return;
    }
    v.insert(i, x);
    assert forall|y: u32| #[trigger] v@.contains(y) <==> old(v)@.contains(y) || y == x by {
        if old(v)@.contains(y) {
            let k = choose|k: int| 0 <= k < old(v)@.len() && old(v)@[k] == y;
            assert(v@[if k < i { k } else { k + 1 }] == y);
        }
        assert(v@[i as int] == x);
        if v@.contains(y) && y != x {
            let k = choose|k: int| 0 <= k < v@.len() && v@[k] == y;
            assert(old(v)@[if k < i { k } else { k - 1 }] == y);
        }
    }
}

/// The services that were applied.
pub struct Services {
    by_name: StrMap<ServiceRecord>,
}

impl View for Services {
    type V = Map<Seq<char>, ServiceRecordView>;

    closed spec fn view(&self) -> Map<Seq<char>, ServiceRecordView> {
        self.by_name.map().map_values(|s: ServiceRecord| s@)
    }
}

/// What a placed jail belongs to: the service that it is a replica of, if there is one.
pub open spec fn owner_of_spec(
    name: Seq<char>,
    placed: Map<Seq<char>, Seq<char>>,
    services: Map<Seq<char>, ServiceRecordView>,
) -> Option<OwnerView> {
    if !placed.dom().contains(name) {
        None
    } else if exists|s: Seq<char>| #[trigger] services.dom().contains(s) && replica_index_of(s, name) is Some {
        Some(
            OwnerView::Service(
                choose|s: Seq<char>| #[trigger] services.dom().contains(s) && replica_index_of(s, name) is Some,
            ),
        )
    } else {
        Some(OwnerView::Unmanaged)
    }
}

/// The owner is the one service that the jail is a replica of.
pub proof fn lemma_owner_of(
    name: Seq<char>,
    placed: Map<Seq<char>, Seq<char>>,
    services: Map<Seq<char>, ServiceRecordView>,
    service: Seq<char>,
)
    requires
        placed.dom().contains(name),
        services.dom().contains(service),
        replica_index_of(service, name) is Some,
    ensures
        owner_of_spec(name, placed, services) == Some(OwnerView::Service(service)),
{
    let s = choose|s: Seq<char>| #[trigger] services.dom().contains(s) && replica_index_of(s, name) is Some;
    let i = choose|i: u32| name == #[trigger] replica_name_of(s, i);
    let j = choose|j: u32| name == #[trigger] replica_name_of(service, j);
    law_replica_names_are_distinct(s, i, service, j);
}

impl Services {
    pub closed spec fn wf(&self) -> bool {
        self.by_name.wf()
    }

    /// The services in ascending order of their names.
    pub closed spec fn listed(&self) -> Seq<(Seq<char>, ServiceRecordView)> {
        Seq::new(self.by_name.entries().len(), |i: int| (self.by_name.entries()[i].0@, self.by_name.entries()[i].1@))
    }

    /// `listed` lists the services, each once and in order.
    pub proof fn lemma_listed(&self)
        requires
            self.wf(),
        ensures
            forall|i: int, j: int|
                0 <= i < j < self.listed().len() ==> crate::text::str_before(
                    (#[trigger] self.listed()[i]).0,
                    (#[trigger] self.listed()[j]).0,
                ),
            forall|i: int|
                0 <= i < self.listed().len() ==> {
                    &&& self@.dom().contains((#[trigger] self.listed()[i]).0)
                    &&& self@[self.listed()[i].0] == self.listed()[i].1
                },
            forall|name: Seq<char>| #[trigger]
                self@.dom().contains(name) ==> exists|i: int|
                    0 <= i < self.listed().len() && (#[trigger] self.listed()[i]).0 == name,
    {
        assert forall|i: int| 0 <= i < self.listed().len() implies {
            &&& self@.dom().contains((#[trigger] self.listed()[i]).0)
            &&& self@[self.listed()[i].0] == self.listed()[i].1
        } by {
            self.by_name.lemma_entry(i);
        }
        assert forall|name: Seq<char>| #[trigger] self@.dom().contains(name) implies exists|i: int|
            0 <= i < self.listed().len() && (#[trigger] self.listed()[i]).0 == name by {
            let i = choose|i: int| crate::strmap::holds_at(self.by_name.entries(), name, i);
            assert(self.listed()[i].0 == name);
        }
    }

    /// The listed services make the table.
    pub proof fn lemma_listed_map(&self)
        requires
            self.wf(),
        ensures
            map_from(self.listed()) == self@,
    {
        lemma_pairs_map(self.by_name.entries());
        lemma_records_in(self.by_name.entries());
        assert(records_in(self.by_name.entries()) =~= self.listed());
    }

    pub fn new() -> (r: Self)
        ensures
            r.wf(),
            r@ == Map::<Seq<char>, ServiceRecordView>::empty(),
            r.listed() == Seq::<(Seq<char>, ServiceRecordView)>::empty(),
    {
        let r = Services { by_name: StrMap::new() };
        assert(r@ =~= Map::<Seq<char>, ServiceRecordView>::empty());
        assert(r.listed() =~= Seq::<(Seq<char>, ServiceRecordView)>::empty());
        r
    }

    /// The services that were written down.
    pub fn load(records: Vec<(String, ServiceRecord)>) -> (r: Self)
        ensures
            r.wf(),
            r@ == pairs_map(records@).map_values(|s: ServiceRecord| s@),
    {
        Services { by_name: StrMap::load(records) }
    }

    pub fn get(&self, name: &str) -> (r: Option<&ServiceRecord>)
        requires
            self.wf(),
        ensures
            r is Some <==> self@.dom().contains(name@),
            r matches Some(record) ==> record@ == self@[name@],
    {
        self.by_name.get(name)
    }

    /// How many services there are.
    pub fn len(&self) -> (r: usize)
        ensures
            r == self.listed().len(),
    {
        self.by_name.len()
    }

    /// The service at a position in the order of the names.
    pub fn at(&self, i: usize) -> (r: (&str, &ServiceRecord))
        requires
            i < self.listed().len(),
        ensures
            (r.0@, r.1@) == self.listed()[i as int],
    {
        (self.by_name.key_at(i).as_str(), self.by_name.value_at(i))
    }

    /// Creates a service, or changes the number of replicas and the port of one. A service keeps its
    /// template for life, and the address that it was created with.
    pub fn apply(&mut self, name: String, replicas: u32, template: JailTemplate, port: u16, vip: u32) -> (r: Result<
        (),
        ApplyServiceError,
    >)
        requires
            old(self).wf(),
        ensures
            final(self).wf(),
            applied(old(self)@, name@, replicas, template@, port, vip, r, final(self)@),
    {
        match self.by_name.get(name.as_str()) {
            Some(record) => {
                if !record.template.same_as(&template) {
                    return Err(ApplyServiceError::TemplateChanged(name));
                }
                let kept: u32 = record.vip;
                let updated = ServiceRecord { desired_replicas: replicas, template, vip: kept, port };
                let ghost view = updated@;
                self.by_name.insert(name, updated);
                assert(self@ =~= old(self)@.insert(name@, view));
            },
            None => {
                let created = ServiceRecord { desired_replicas: replicas, template, vip, port };
                let ghost view = created@;
                self.by_name.insert(name, created);
                assert(self@ =~= old(self)@.insert(name@, view));
            },
        }
        Ok(())
    }

    pub fn remove(&mut self, name: &str)
        requires
            old(self).wf(),
        ensures
            final(self).wf(),
            final(self)@ == old(self)@.remove(name@),
    {
        let _ = self.by_name.remove(name);
        assert(self@ =~= old(self)@.remove(name@));
    }
}

/// Some services by what they hold.
pub open spec fn records_in(records: Seq<(String, ServiceRecord)>) -> Seq<(Seq<char>, ServiceRecordView)> {
    Seq::new(records.len(), |i: int| (records[i].0@, records[i].1@))
}

/// Services make the map that what they hold makes.
pub proof fn lemma_records_in(records: Seq<(String, ServiceRecord)>)
    ensures
        pairs_map(records).map_values(|s: ServiceRecord| s@) == map_from(records_in(records)),
    decreases records.len(),
{
    if records.len() > 0 {
        lemma_records_in(records.drop_last());
        assert(records_in(records).drop_last() =~= records_in(records.drop_last()));
    }
    assert(pairs_map(records).map_values(|s: ServiceRecord| s@) =~= map_from(records_in(records)));
}

/// The services after a service was created or changed.
pub open spec fn services_with(
    services: Map<Seq<char>, ServiceRecordView>,
    name: Seq<char>,
    replicas: u32,
    template: JailTemplateView,
    port: u16,
    vip: u32,
) -> Map<Seq<char>, ServiceRecordView> {
    services.insert(
        name,
        ServiceRecordView {
            desired_replicas: replicas,
            template,
            vip: if services.dom().contains(name) {
                services[name].vip
            } else {
                vip
            },
            port,
        },
    )
}

/// What applying a service returns and leaves behind.
pub open spec fn applied(
    before: Map<Seq<char>, ServiceRecordView>,
    name: Seq<char>,
    replicas: u32,
    template: JailTemplateView,
    port: u16,
    vip: u32,
    r: Result<(), ApplyServiceError>,
    after: Map<Seq<char>, ServiceRecordView>,
) -> bool {
    if before.dom().contains(name) && before[name].template != template {
        &&& r matches Err(ApplyServiceError::TemplateChanged(given))
        &&& given@ == name
        &&& after == before
    } else {
        &&& r is Ok
        &&& after == services_with(before, name, replicas, template, port, vip)
    }
}

/// Applying a service once more changes nothing, and gives it no other address.
pub proof fn law_applying_twice_is_applying_once(
    before: Map<Seq<char>, ServiceRecordView>,
    name: Seq<char>,
    replicas: u32,
    template: JailTemplateView,
    port: u16,
    vip: u32,
    other_vip: u32,
    first: Result<(), ApplyServiceError>,
    between: Map<Seq<char>, ServiceRecordView>,
    second: Result<(), ApplyServiceError>,
    after: Map<Seq<char>, ServiceRecordView>,
)
    requires
        applied(before, name, replicas, template, port, vip, first, between),
        applied(between, name, replicas, template, port, other_vip, second, after),
    ensures
        first is Ok <==> second is Ok,
        after == between,
{
}

/// A service keeps its template and its address as long as it exists, whatever is applied. One that does not
/// exist, or no longer does, is created with any template.
pub proof fn law_templates_are_for_life(
    before: Map<Seq<char>, ServiceRecordView>,
    service: Seq<char>,
    name: Seq<char>,
    replicas: u32,
    template: JailTemplateView,
    port: u16,
    vip: u32,
    r: Result<(), ApplyServiceError>,
    after: Map<Seq<char>, ServiceRecordView>,
)
    requires
        applied(before, name, replicas, template, port, vip, r, after),
    ensures
        before.dom().contains(service) ==> {
            &&& after.dom().contains(service)
            &&& after[service].template == before[service].template
            &&& after[service].vip == before[service].vip
        },
        !before.dom().contains(name) ==> r is Ok && after[name].template == template,
{
}

/// What a placed jail belongs to; nothing if no jail of this name is placed.
pub fn owner_of(name: &str, placements: &Placements, services: &Services) -> (r: Option<Owner>)
    requires
        placements.wf(),
        services.wf(),
    ensures
        crate::views::opt_view(r) == owner_of_spec(name@, placements.nodes(), services@),
{
    if placements.get(name).is_none() {
        return None;
    }
    proof {
        services.lemma_listed();
    }
    let mut i: usize = 0;
    while i < services.len()
        invariant
            services.wf(),
            placements.nodes().dom().contains(name@),
            i <= services.listed().len(),
            forall|j: int| 0 <= j < i ==> replica_index_of((#[trigger] services.listed()[j]).0, name@) is None,
        decreases services.listed().len() - i,
    {
        let (service, _) = services.at(i);
        if replica_index(service, name).is_some() {
            proof {
                services.lemma_listed();
                assert(services.listed()[i as int].0 == service@);
                lemma_owner_of(name@, placements.nodes(), services@, service@);
            }
            return Some(Owner::Service(service.to_owned()));
        }
        i = i + 1;
    }
    assert forall|s: Seq<char>| #[trigger] services@.dom().contains(s) implies replica_index_of(s, name@) is None by {
        services.lemma_listed();
    }
    Some(Owner::Unmanaged)
}

/// The nodes on which replicas of a service are placed.
pub open spec fn hosts_of(service: Seq<char>, placed: Seq<(Seq<char>, Seq<char>)>) -> Set<Seq<char>>
    decreases placed.len(),
{
    if placed.len() == 0 {
        Set::empty()
    } else if replica_index_of(service, placed.last().0) is Some {
        hosts_of(service, placed.drop_last()).insert(placed.last().1)
    } else {
        hosts_of(service, placed.drop_last())
    }
}

/// The nodes on which replicas of the service are placed.
pub fn nodes_hosting_service(service: &str, placements: &Placements) -> (r: StrMap<()>)
    ensures
        r.wf(),
        r.map().dom() == hosts_of(service@, placements.placed()),
{
    let mut out: StrMap<()> = StrMap::new();
    let mut i: usize = 0;
    assert(placements.placed().take(0) =~= Seq::empty());
    assert(out.map().dom() =~= Set::empty());
    while i < placements.len()
        invariant
            i <= placements.placed().len(),
            out.wf(),
            out.map().dom() == hosts_of(service@, placements.placed().take(i as int)),
        decreases placements.placed().len() - i,
    {
        proof {
            assert(placements.placed().take(i + 1).drop_last() =~= placements.placed().take(i as int));
        }
        let (jail, node) = placements.at(i);
        if replica_index(service, jail).is_some() {
            let ghost before_insert = out.map();
            out.insert(node.to_owned(), ());
            assert(out.map().dom() =~= before_insert.dom().insert(node@));
        }
        i = i + 1;
    }
    assert(placements.placed().take(i as int) =~= placements.placed());
    out
}

} // verus!
