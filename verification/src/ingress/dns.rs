//! The records by which it is shown that a domain is ours.

use crate::strmap::StrMap;
use crate::text::same;
use vstd::prelude::*;
use vstd::string::*;

verus! {

/// What went wrong with a record.
#[derive(Debug, Clone, PartialEq, Eq)]
pub struct DnsError(pub String);

/// How a change of a zone failed, if it did.
pub open spec fn dns_failure(r: Result<(), DnsError>) -> Option<DnsError> {
    match r {
        Ok(_) => None,
        Err(e) => Some(e),
    }
}

/// Something that keeps the records of a zone. How it answers and changes is its own matter, and is told by
/// the predicates: in any way, unless it says otherwise.
pub trait DnsProvider: Sized {
    /// It can be asked.
    open spec fn ready(&self) -> bool {
        true
    }

    open spec fn creating(
        before: Self,
        name: Seq<char>,
        value: Seq<char>,
        failed: Option<DnsError>,
        after: Self,
    ) -> bool {
        true
    }

    open spec fn waiting(
        before: Self,
        name: Seq<char>,
        value: Seq<char>,
        failed: Option<DnsError>,
        after: Self,
    ) -> bool {
        true
    }

    open spec fn deleting(before: Self, name: Seq<char>, failed: Option<DnsError>, after: Self) -> bool {
        true
    }

    fn create_txt_record(&mut self, name: &str, value: &str) -> (r: Result<(), DnsError>)
        requires
            old(self).ready(),
        ensures
            final(self).ready(),
            Self::creating(*old(self), name@, value@, dns_failure(r), *final(self)),
    ;

    fn wait_for_propagation(&mut self, name: &str, value: &str) -> (r: Result<(), DnsError>)
        requires
            old(self).ready(),
        ensures
            final(self).ready(),
            Self::waiting(*old(self), name@, value@, dns_failure(r), *final(self)),
    ;

    fn delete_txt_record(&mut self, name: &str) -> (r: Result<(), DnsError>)
        requires
            old(self).ready(),
        ensures
            final(self).ready(),
            Self::deleting(*old(self), name@, dns_failure(r), *final(self)),
    ;
}

/// A zone in memory.
pub struct FakeDnsProvider {
    records: StrMap<String>,
    fail_create: bool,
}

/// What a [`FakeDnsProvider`] holds.
#[verifier::ext_equal]
pub struct FakeDnsView {
    pub records: Map<Seq<char>, Seq<char>>,
    pub fail_create: bool,
}

impl View for FakeDnsProvider {
    type V = FakeDnsView;

    closed spec fn view(&self) -> FakeDnsView {
        FakeDnsView { records: self.records.map().map_values(|v: String| v@), fail_create: self.fail_create }
    }
}

impl DnsProvider for FakeDnsProvider {
    open spec fn ready(&self) -> bool {
        self.wf()
    }

    /// A record is created, unless that is set to fail.
    open spec fn creating(before: Self, name: Seq<char>, value: Seq<char>, failed: Option<DnsError>, after: Self) -> bool {
        if before@.fail_create {
            failed is Some && after@ == before@
        } else {
            failed is None && after@ == (FakeDnsView { records: before@.records.insert(name, value), ..before@ })
        }
    }

    /// A record is seen at once, if it is there with that value.
    open spec fn waiting(before: Self, name: Seq<char>, value: Seq<char>, failed: Option<DnsError>, after: Self) -> bool {
        &&& after@ == before@
        &&& failed is None <==> before@.records.dom().contains(name) && before@.records[name] == value
    }

    open spec fn deleting(before: Self, name: Seq<char>, failed: Option<DnsError>, after: Self) -> bool {
        failed is None && after@ == (FakeDnsView { records: before@.records.remove(name), ..before@ })
    }

    fn create_txt_record(&mut self, name: &str, value: &str) -> (r: Result<(), DnsError>) {
        if self.fail_create {
            return Err(DnsError("simulated failure creating a record".to_owned()));
        }
        self.records.insert(name.to_owned(), value.to_owned());
        assert(self@ =~= (FakeDnsView { records: old(self)@.records.insert(name@, value@), ..old(self)@ }));
        Ok(())
    }

    fn wait_for_propagation(&mut self, name: &str, value: &str) -> (r: Result<(), DnsError>) {
        let seen = match self.records.get(name) {
            Some(v) => same(v.as_str(), value),
            None => false,
        };
        if seen {
            Ok(())
        } else {
            Err(DnsError("the record is not there".to_owned()))
        }
    }

    fn delete_txt_record(&mut self, name: &str) -> (r: Result<(), DnsError>) {
        let _ = self.records.remove(name);
        assert(self@ =~= (FakeDnsView { records: old(self)@.records.remove(name@), ..old(self)@ }));
        Ok(())
    }
}

impl FakeDnsProvider {
    pub closed spec fn wf(&self) -> bool {
        self.records.wf()
    }

    pub fn new() -> (r: Self)
        ensures
            r.wf(),
            r@ == (FakeDnsView { records: Map::empty(), fail_create: false }),
    {
        let r = FakeDnsProvider { records: StrMap::new(), fail_create: false };
        assert(r@.records =~= Map::empty());
        r
    }

    /// Makes creating a record fail, or ends that.
    pub fn set_fail_create(&mut self, fail: bool)
        requires
            old(self).wf(),
        ensures
            final(self).wf(),
            final(self)@ == (FakeDnsView { fail_create: fail, ..old(self)@ }),
    {
        self.fail_create = fail;
        assert(self@ =~= (FakeDnsView { fail_create: fail, ..old(self)@ }));
    }
}

} // verus!
