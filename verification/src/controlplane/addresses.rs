//! The addresses of replicas: which are taken, and which is free next.

use crate::decimal::{decimal, push_decimal};
use crate::strmap::{map_from, StrMap};
use crate::text::{same, str_before};
use vstd::arithmetic::power2::{lemma2_to64, lemma_pow2_pos, lemma_pow2_unfold, pow2};
use vstd::prelude::*;
use vstd::string::*;

verus! {

/// A block of IPv4 addresses: any address in it, and how many leading bits its addresses share.
#[derive(Debug, Clone, Copy, PartialEq, Eq, Structural)]
pub struct Ipv4Cidr {
    pub addr: u32,
    pub prefix_len: u8,
}

impl Ipv4Cidr {
    /// How many addresses the block has.
    pub open spec fn size(self) -> int {
        pow2(
            if self.prefix_len <= 32 {
                (32 - self.prefix_len) as nat
            } else {
                0
            },
        ) as int
    }

    /// The first address of the block.
    pub open spec fn first(self) -> int {
        self.addr - (self.addr as int) % self.size()
    }

    /// The addresses that replicas get: all of the block but its network address, the gateway that
    /// follows it, and its broadcast address.
    pub open spec fn assignable(self, a: int) -> bool {
        self.first() + 2 <= a < self.first() + self.size() - 1
    }

    /// The first address, and how many there are.
    fn block(self) -> (r: (u32, u64))
        ensures
            r.0 == self.first(),
            r.1 == self.size(),
            r.0 + r.1 <= 0x1_0000_0000,
            r.1 >= 1,
    {
        let bits: u8 = if self.prefix_len <= 32 {
            32 - self.prefix_len
        } else {
            0
        };
        let mut size: u64 = 1;
        let mut i: u8 = 0;
        proof {
            lemma2_to64();
        }
        while i < bits
            invariant
                i <= bits <= 32,
                size == pow2(i as nat),
                1 <= size <= pow2(32),
                pow2(32) == 0x1_0000_0000,
            decreases bits - i,
        {
            proof {
                lemma_pow2_unfold((i + 1) as nat);
                if i + 1 < 32 {
                    vstd::arithmetic::power2::lemma_pow2_strictly_increases((i + 1) as nat, 32);
                }
            }
            size = size * 2;
            i = i + 1;
        }
        let rest: u64 = self.addr as u64 % size;
        proof {
            vstd::arithmetic::div_mod::lemma_mod_decreases(self.addr as nat, size as nat);
        }
        let first: u64 = self.addr as u64 - rest;
        proof {
            lemma_block_fits(self.addr as int, bits as nat);
        }
        (first as u32, size)
    }
}

proof fn lemma_block_fits(addr: int, bits: nat)
    requires
        0 <= addr < 0x1_0000_0000,
        bits <= 32,
    ensures
        addr - addr % (pow2(bits) as int) + pow2(bits) <= 0x1_0000_0000,
{
    lemma2_to64();
    lemma_pow2_pos(bits);
    let size = pow2(bits) as int;
    let rest = pow2((32 - bits) as nat) as int;
    vstd::arithmetic::power2::lemma_pow2_adds(bits, (32 - bits) as nat);
    vstd::arithmetic::div_mod::lemma_fundamental_div_mod(addr, size);
    let q = addr / size;
    assert(q < rest) by (nonlinear_arith)
        requires
            addr == size * q + addr % size,
            addr % size >= 0,
            addr < size * rest,
            size > 0,
    ;
    assert(size * q + size <= size * rest) by (nonlinear_arith)
        requires
            q + 1 <= rest,
            size > 0,
    ;
}

/// An address as dotted decimal numbers.
pub open spec fn dotted(a: u32) -> Seq<char> {
    decimal((a / 0x100_0000) as nat) + "."@ + decimal((a / 0x1_0000 % 0x100) as nat) + "."@ + decimal(
        (a / 0x100 % 0x100) as nat,
    ) + "."@ + decimal((a % 0x100) as nat)
}

/// A block as its first address and the number of shared bits.
pub open spec fn cidr_text(c: Ipv4Cidr) -> Seq<char> {
    dotted(c.addr) + "/"@ + decimal(c.prefix_len as nat)
}

/// Writes an address as dotted decimal numbers.
pub fn address_text(a: u32) -> (r: String)
    ensures
        r@ == dotted(a),
{
    let mut out = String::new();
    push_decimal(&mut out, (a / 0x100_0000) as u64);
    out.append(".");
    push_decimal(&mut out, (a / 0x1_0000 % 0x100) as u64);
    out.append(".");
    push_decimal(&mut out, (a / 0x100 % 0x100) as u64);
    out.append(".");
    push_decimal(&mut out, (a % 0x100) as u64);
    assert(out@ =~= dotted(a));
    out
}

/// Writes a block as its address and the number of shared bits.
pub fn block_text(c: Ipv4Cidr) -> (r: String)
    ensures
        r@ == cidr_text(c),
{
    let mut out = address_text(c.addr);
    out.append("/");
    push_decimal(&mut out, c.prefix_len as u64);
    out
}

/// An address that a replica has on a node.
pub struct Lease {
    node_id: String,
    address: u32,
}

/// The addresses that replicas have, by replica.
pub struct UsedAddresses {
    by_jail: StrMap<Lease>,
}

/// The node and address of a lease.
pub closed spec fn lease_view(l: Lease) -> (Seq<char>, u32) {
    (l.node_id@, l.address)
}

impl View for UsedAddresses {
    type V = Map<Seq<char>, (Seq<char>, u32)>;

    closed spec fn view(&self) -> Map<Seq<char>, (Seq<char>, u32)> {
        self.by_jail.map().map_values(|l: Lease| lease_view(l))
    }
}

/// The table that some leases make: of two of one replica the later counts.
pub open spec fn leases_map(leases: Seq<(String, String, u32)>) -> Map<Seq<char>, (Seq<char>, u32)>
    decreases leases.len(),
{
    if leases.len() == 0 {
        Map::empty()
    } else {
        leases_map(leases.drop_last()).insert(leases.last().0@, (leases.last().1@, leases.last().2))
    }
}

/// Some leases by what they hold.
pub open spec fn leases_in(leases: Seq<(String, String, u32)>) -> Seq<(Seq<char>, (Seq<char>, u32))> {
    Seq::new(leases.len(), |i: int| (leases[i].0@, (leases[i].1@, leases[i].2)))
}

/// Leases make the map that what they hold makes.
pub proof fn lemma_leases_in(leases: Seq<(String, String, u32)>)
    ensures
        leases_map(leases) == map_from(leases_in(leases)),
    decreases leases.len(),
{
    if leases.len() > 0 {
        lemma_leases_in(leases.drop_last());
        assert(leases_in(leases).drop_last() =~= leases_in(leases.drop_last()));
    }
}

/// No replica on the node has the address.
pub open spec fn is_free(used: Map<Seq<char>, (Seq<char>, u32)>, node: Seq<char>, address: int) -> bool {
    forall|jail: Seq<char>| #[trigger] used.dom().contains(jail) ==> !(used[jail].0 == node && used[jail].1 == address)
}

/// The lowest assignable address of a block that is free on a node.
pub open spec fn is_first_free(
    cidr: Ipv4Cidr,
    node: Seq<char>,
    used: Map<Seq<char>, (Seq<char>, u32)>,
    r: Option<u32>,
) -> bool {
    match r {
        Some(a) => {
            &&& cidr.assignable(a as int)
            &&& is_free(used, node, a as int)
            &&& forall|b: int| #[trigger] cidr.assignable(b) && b < a ==> !is_free(used, node, b)
        },
        None => forall|b: int| #[trigger] cidr.assignable(b) ==> !is_free(used, node, b),
    }
}

/// The lowest assignable address of a block that is free on a node, if there is one.
pub open spec fn first_free(
    cidr: Ipv4Cidr,
    node: Seq<char>,
    used: Map<Seq<char>, (Seq<char>, u32)>,
) -> Option<u32> {
    choose|r: Option<u32>| is_first_free(cidr, node, used, r)
}

proof fn lemma_first_free(
    cidr: Ipv4Cidr,
    node: Seq<char>,
    used: Map<Seq<char>, (Seq<char>, u32)>,
    r: Option<u32>,
)
    requires
        is_first_free(cidr, node, used, r),
    ensures
        first_free(cidr, node, used) == r,
{
    let other = first_free(cidr, node, used);
    assert(is_first_free(cidr, node, used, other));
    match (r, other) {
        (Some(a), Some(b)) => {
            assert(cidr.assignable(a as int));
            assert(cidr.assignable(b as int));
        },
        (Some(a), None) => {
            assert(cidr.assignable(a as int));
        },
        (None, Some(b)) => {
            assert(cidr.assignable(b as int));
        },
        _ => {},
    }
}

/// There is a lowest free address, or there is no free address at all.
pub proof fn lemma_first_free_is(cidr: Ipv4Cidr, node: Seq<char>, used: Map<Seq<char>, (Seq<char>, u32)>)
    ensures
        is_first_free(cidr, node, used, first_free(cidr, node, used)),
{
    lemma_pow2_pos(
        if cidr.prefix_len <= 32 {
            (32 - cidr.prefix_len) as nat
        } else {
            0
        },
    );
    lemma_block_fits(
        cidr.addr as int,
        if cidr.prefix_len <= 32 {
            (32 - cidr.prefix_len) as nat
        } else {
            0
        },
    );
    vstd::arithmetic::div_mod::lemma_mod_bound(cidr.addr as int, cidr.size());
    vstd::arithmetic::div_mod::lemma_mod_decreases(cidr.addr as nat, cidr.size() as nat);
    lemma_search(cidr, node, used, cidr.first() + 2);
}

proof fn lemma_search(cidr: Ipv4Cidr, node: Seq<char>, used: Map<Seq<char>, (Seq<char>, u32)>, a: int)
    requires
        cidr.first() + 2 <= a,
        cidr.first() >= 0,
        cidr.first() + cidr.size() <= 0x1_0000_0000,
        forall|b: int| #[trigger] cidr.assignable(b) && b < a ==> !is_free(used, node, b),
    ensures
        exists|r: Option<u32>| is_first_free(cidr, node, used, r),
    decreases cidr.first() + cidr.size() - a,
{
    if !cidr.assignable(a) {
        assert(is_first_free(cidr, node, used, None));
    } else if is_free(used, node, a) {
        assert(is_first_free(cidr, node, used, Some(a as u32)));
    } else {
        lemma_search(cidr, node, used, a + 1);
    }
}

impl UsedAddresses {
    pub closed spec fn wf(&self) -> bool {
        self.by_jail.wf()
    }

    pub fn new() -> (r: Self)
        ensures
            r.wf(),
            r@ == Map::<Seq<char>, (Seq<char>, u32)>::empty(),
    {
        let r = UsedAddresses { by_jail: StrMap::new() };
        assert(r@ =~= Map::<Seq<char>, (Seq<char>, u32)>::empty());
        r
    }

    /// Every replica with its node and address, in ascending order of the replicas, to be written down.
    pub fn leases(&self) -> (r: Vec<(String, String, u32)>)
        requires
            self.wf(),
        ensures
            leases_map(r@) == self@,
            forall|i: int, j: int| 0 <= i < j < r@.len() ==> str_before((#[trigger] r@[i]).0@, (#[trigger] r@[j]).0@),
    {
        let mut out: Vec<(String, String, u32)> = Vec::new();
        let mut i: usize = 0;
        let ghost entries = self.by_jail.entries();
        assert(entries.take(0) =~= Seq::empty());
        assert(leases_map(out@) =~= crate::strmap::pairs_map(entries.take(0)).map_values(|l: Lease| lease_view(l)));
        while i < self.by_jail.len()
            invariant
                entries == self.by_jail.entries(),
                self.wf(),
                i <= entries.len(),
                out@.len() == i,
                forall|j: int| 0 <= j < i ==> (#[trigger] out@[j]).0@ == entries[j].0@,
                leases_map(out@) == crate::strmap::pairs_map(entries.take(i as int)).map_values(
                    |l: Lease| lease_view(l),
                ),
            decreases entries.len() - i,
        {
            let ghost before_push = out@;
            assert(entries.take(i + 1).drop_last() =~= entries.take(i as int));
            let l = self.by_jail.value_at(i);
            let lease = (self.by_jail.key_at(i).clone(), l.node_id.clone(), l.address);
            let ghost added = lease;
            out.push(lease);
            assert(out@.drop_last() =~= before_push);
            i = i + 1;
            assert(leases_map(out@) =~= crate::strmap::pairs_map(entries.take(i as int)).map_values(
                |l: Lease| lease_view(l),
            ));
        }
        proof {
            assert(entries.take(i as int) =~= entries);
            crate::strmap::lemma_pairs_map(entries);
        }
        out
    }

    /// The table that was written down as these leases.
    pub fn load(leases: Vec<(String, String, u32)>) -> (r: Self)
        ensures
            r.wf(),
            r@ == leases_map(leases@),
    {
        let mut out = UsedAddresses::new();
        let ghost all = leases@;
        let mut i: usize = 0;
        assert(all.take(0) =~= Seq::empty());
        while i < leases.len()
            invariant
                all == leases@,
                out.wf(),
                i <= leases@.len(),
                out@ == leases_map(all.take(i as int)),
            decreases leases.len() - i,
        {
            assert(all.take(i + 1).drop_last() =~= all.take(i as int));
            assert(all.take(i + 1).last() == leases@[i as int]);
            out.record(leases[i].0.clone(), leases[i].1.clone(), leases[i].2);
            i = i + 1;
        }
        assert(all.take(i as int) =~= all);
        out
    }

    pub fn record(&mut self, jail_name: String, node_id: String, address: u32)
        requires
            old(self).wf(),
        ensures
            final(self).wf(),
            final(self)@ == old(self)@.insert(jail_name@, (node_id@, address)),
    {
        self.by_jail.insert(jail_name, Lease { node_id, address });
        assert(self@ =~= old(self)@.insert(jail_name@, (node_id@, address)));
    }

    pub fn release(&mut self, jail_name: &str)
        requires
            old(self).wf(),
        ensures
            final(self).wf(),
            final(self)@ == old(self)@.remove(jail_name@),
    {
        let _ = self.by_jail.remove(jail_name);
        assert(self@ =~= old(self)@.remove(jail_name@));
    }

    pub fn address_of(&self, jail_name: &str) -> (r: Option<u32>)
        requires
            self.wf(),
        ensures
            r == if self@.dom().contains(jail_name@) {
                Some(self@[jail_name@].1)
            } else {
                None
            },
    {
        match self.by_jail.get(jail_name) {
            Some(l) => Some(l.address),
            None => None,
        }
    }

    pub fn duplicate(&self) -> (r: Self)
        requires
            self.wf(),
        ensures
            r.wf(),
            r@ == self@,
    {
        UsedAddresses::load(self.leases())
    }

    /// Whether no replica on the node has the address.
    fn free(&self, node_id: &str, address: u32) -> (r: bool)
        requires
            self.wf(),
        ensures
            r == is_free(self@, node_id@, address as int),
    {
        let mut i: usize = 0;
        while i < self.by_jail.len()
            invariant
                self.wf(),
                i <= self.by_jail.entries().len(),
                forall|j: int|
                    0 <= j < i ==> !((#[trigger] self.by_jail.entries()[j]).1.node_id@ == node_id@
                        && self.by_jail.entries()[j].1.address == address),
            decreases self.by_jail.entries().len() - i,
        {
            let l = self.by_jail.value_at(i);
            if l.address == address && same(l.node_id.as_str(), node_id) {
                proof {
                    self.by_jail.lemma_entry(i as int);
                    let jail = self.by_jail.entries()[i as int].0@;
                    assert(self@.dom().contains(jail));
                    assert(self@[jail] == lease_view(*l));
                }
                return false;
            }
            i = i + 1;
        }
        assert forall|jail: Seq<char>| #[trigger] self@.dom().contains(jail) implies !(self@[jail].0 == node_id@
            && self@[jail].1 == address) by {
            let j = choose|j: int| crate::strmap::holds_at(self.by_jail.entries(), jail, j);
            self.by_jail.lemma_entry(j);
            assert(self@[jail] == lease_view(self.by_jail.entries()[j].1));
        }
        true
    }
}

/// The lowest assignable address of the block that no replica on the node has.
pub fn first_free_address(pod_cidr: Ipv4Cidr, node_id: &str, used: &UsedAddresses) -> (r: Option<u32>)
    requires
        used.wf(),
    ensures
        is_first_free(pod_cidr, node_id@, used@, r),
        r == first_free(pod_cidr, node_id@, used@),
{
    let (first, size) = pod_cidr.block();
    let mut a: u64 = first as u64 + 2;
    let end: u64 = first as u64 + size - 1;
    while a < end
        invariant
            used.wf(),
            first == pod_cidr.first(),
            size == pod_cidr.size(),
            first + 2 <= a,
            end == first + size - 1,
            end <= 0xffff_ffff,
            forall|b: int| #[trigger] pod_cidr.assignable(b) && b < a ==> !is_free(used@, node_id@, b),
        decreases end - a,
    {
        if used.free(node_id, a as u32) {
            proof {
                lemma_first_free(pod_cidr, node_id@, used@, Some(a as u32));
            }
            return Some(a as u32);
        }
        a = a + 1;
    }
    proof {
        lemma_first_free(pod_cidr, node_id@, used@, None);
    }
    None
}

} // verus!
