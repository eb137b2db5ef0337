//! Certificates, and clients that ask for them.

use crate::ingress::dns::{dns_failure, DnsError, DnsProvider};
use crate::text::same;
use vstd::prelude::*;
use vstd::string::*;

verus! {

/// A certificate with its key.
#[derive(Debug, Clone, PartialEq, Eq)]
pub struct Cert {
    pub cert_pem: String,
    pub key_pem: String,
}

/// Why there is no certificate.
#[derive(Debug, Clone, PartialEq, Eq)]
pub enum AcmeError {
    Dns(DnsError),
    Request(String),
    /// The server says that it was asked too often, which is not a failure that goes away by itself.
    RateLimited(String),
}

/// What an [`AcmeError`] holds.
#[verifier::ext_equal]
pub enum AcmeErrorView {
    Dns(Seq<char>),
    Request(Seq<char>),
    RateLimited(Seq<char>),
}

impl View for AcmeError {
    type V = AcmeErrorView;

    open spec fn view(&self) -> AcmeErrorView {
        match self {
            AcmeError::Dns(e) => AcmeErrorView::Dns(e.0@),
            AcmeError::Request(reason) => AcmeErrorView::Request(reason@),
            AcmeError::RateLimited(reason) => AcmeErrorView::RateLimited(reason@),
        }
    }
}

impl AcmeError {
    pub open spec fn text(self) -> Seq<char> {
        match self {
            AcmeError::Dns(e) => "DNS-01 challenge failed: "@ + e.0@,
            AcmeError::Request(reason) => "ACME request failed: "@ + reason@,
            AcmeError::RateLimited(reason) => "ACME server rate limit exceeded: "@ + reason@,
        }
    }

    /// The error in words.
    pub fn message(&self) -> (r: String)
        ensures
            r@ == self.text(),
    {
        let (mut out, reason) = match self {
            AcmeError::Dns(e) => ("DNS-01 challenge failed: ".to_owned(), e.0.as_str()),
            AcmeError::Request(reason) => ("ACME request failed: ".to_owned(), reason.as_str()),
            AcmeError::RateLimited(reason) => ("ACME server rate limit exceeded: ".to_owned(), reason.as_str()),
        };
        out.append(reason);
        out
    }
}

/// The bytes in the first block of a PEM text, as `x509_parser` finds them, or its error as a text.
pub uninterp spec fn pem_contents(text: Seq<char>) -> Result<Seq<u8>, Seq<char>>;

/// The end of the validity of a certificate in DER, in seconds from the beginning of 1970, as `x509_parser`
/// finds it, or its error as a text.
pub uninterp spec fn der_not_after(der: Seq<u8>) -> Result<i64, Seq<char>>;

/// What an attempt at bytes holds.
pub open spec fn attempt_view(r: Result<Vec<u8>, String>) -> Result<Seq<u8>, Seq<char>> {
    match r {
        Ok(v) => Ok(v@),
        Err(e) => Err(e@),
    }
}

/// What an attempt at a time holds.
pub open spec fn time_view(r: Result<i64, String>) -> Result<i64, Seq<char>> {
    match r {
        Ok(t) => Ok(t),
        Err(e) => Err(e@),
    }
}

/// `x509_parser::pem::parse_x509_pem`: the contents of the block that it finds depend on the text alone,
/// and are named.
#[verifier::external_body]
fn read_pem(text: &str) -> (r: Result<Vec<u8>, String>)
    ensures
        attempt_view(r) == pem_contents(text@),
{
    match x509_parser::pem::parse_x509_pem(text.as_bytes()) {
        Ok((_, pem)) => Ok(pem.contents),
        Err(e) => Err(e.to_string()),
    }
}

/// `x509_parser::parse_x509_certificate`, and the timestamp of the `notAfter` that it finds: it depends on
/// the bytes alone, and is named.
#[verifier::external_body]
fn read_not_after(der: &[u8]) -> (r: Result<i64, String>)
    ensures
        time_view(r) == der_not_after(der@),
{
    match x509_parser::parse_x509_certificate(der) {
        Ok((_, cert)) => Ok(cert.validity().not_after.timestamp()),
        Err(e) => Err(e.to_string()),
    }
}

/// The end of a certificate's validity, from what was found in its block, or why there is no block.
pub open spec fn expiry_result(found: Result<Result<i64, Seq<char>>, Seq<char>>, r: Result<i64, AcmeError>) -> bool {
    match found {
        Err(reason) => r matches Err(AcmeError::Request(m)) && m@ == "failed to parse certificate PEM: "@ + reason,
        Ok(Err(reason)) => r matches Err(AcmeError::Request(m)) && m@ == "failed to parse certificate: "@ + reason,
        Ok(Ok(t)) => r == Ok::<i64, AcmeError>(t),
    }
}

/// What is found in a certificate.
pub open spec fn expiry_in(cert_pem: Seq<char>) -> Result<Result<i64, Seq<char>>, Seq<char>> {
    match pem_contents(cert_pem) {
        Err(reason) => Err(reason),
        Ok(der) => Ok(der_not_after(der)),
    }
}

/// A certificate says that it ends at a time.
pub open spec fn ends_at(cert_pem: Seq<char>, t: i64) -> bool {
    expiry_in(cert_pem) == Ok::<Result<i64, Seq<char>>, Seq<char>>(Ok(t))
}

/// What an attempt at a certificate holds.
pub open spec fn found_view(found: Result<Result<i64, String>, String>) -> Result<Result<i64, Seq<char>>, Seq<char>> {
    match found {
        Err(reason) => Err(reason@),
        Ok(r) => Ok(time_view(r)),
    }
}

/// The end of a certificate's validity, from what was found in its block, or why there is no block.
pub fn expiry_from(found: Result<Result<i64, String>, String>) -> (r: Result<i64, AcmeError>)
    ensures
        expiry_result(found_view(found), r),
{
    match found {
        Err(reason) => {
            let mut message = "failed to parse certificate PEM: ".to_owned();
            message.append(reason.as_str());
            Err(AcmeError::Request(message))
        },
        Ok(Err(reason)) => {
            let mut message = "failed to parse certificate: ".to_owned();
            message.append(reason.as_str());
            Err(AcmeError::Request(message))
        },
        Ok(Ok(t)) => Ok(t),
    }
}

impl Cert {
    /// The end of the certificate's validity, as the certificate itself says it, in seconds from the
    /// beginning of 1970.
    pub fn expires_at_unix(&self) -> (r: Result<i64, AcmeError>)
        ensures
            expiry_result(expiry_in(self.cert_pem@), r),
    {
        let found = match read_pem(self.cert_pem.as_str()) {
            Err(reason) => Err(reason),
            Ok(der) => Ok(read_not_after(der.as_slice())),
        };
        assert(found_view(found) == expiry_in(self.cert_pem@));
        expiry_from(found)
    }
}

/// What an error of an ACME server says: a type that it may have, and the error as a text.
pub open spec fn classified(kind: Option<Seq<char>>, text: Seq<char>, r: AcmeError) -> bool {
    if kind == Some("urn:ietf:params:acme:error:rateLimited"@) {
        r matches AcmeError::RateLimited(m) && m@ == text
    } else {
        r matches AcmeError::Request(m) && m@ == text
    }
}

/// Tells the refusal of a server that was asked too often from every other error.
pub fn classify_acme_error(kind: Option<&str>, text: String) -> (r: AcmeError)
    ensures
        classified(
            match kind {
                Some(k) => Some(k@),
                None => None,
            },
            text@,
            r,
        ),
{
    if let Some(k) = kind {
        if same(k, "urn:ietf:params:acme:error:rateLimited") {
            return AcmeError::RateLimited(text);
        }
    }
    AcmeError::Request(text)
}

/// The contact of an account, from an address for mail.
pub fn contact_of(email: &str) -> (r: String)
    ensures
        r@ == "mailto:"@ + email@,
{
    let mut out = "mailto:".to_owned();
    out.append(email);
    out
}

/// Something that asks for certificates.
pub trait AcmeClient: Sized {
    /// It can be asked.
    open spec fn ready(&self) -> bool {
        true
    }

    fn request_certificate<D: DnsProvider>(&mut self, domain: &str, contact_email: &str, dns: &mut D) -> (r: Result<
        Cert,
        AcmeError,
    >)
        requires
            old(self).ready(),
            old(dns).ready(),
        ensures
            final(dns).ready(),
    ;
}

/// When the first certificate of a [`FakeAcmeClient`] begins. Tests that simulate a time begin there too, so
/// that a new certificate is not due for renewal.
pub const FAKE_ISSUANCE_EPOCH_UNIX: i64 = 1_800_000_000;

/// The end of the year 9999: the last second that a certificate can name.
pub const LAST_SECOND: i64 = 253_402_300_799;

/// How long a certificate of a [`FakeAcmeClient`] is valid: ninety days.
pub const FAKE_VALIDITY_SECS: i64 = 7_776_000;

/// A client that issues certificates itself, each a day later than the one before.
pub struct FakeAcmeClient {
    fail: bool,
    issuance_count: u64,
}

/// What a [`FakeAcmeClient`] holds.
#[verifier::ext_equal]
pub struct FakeAcmeView {
    pub fail: bool,
    /// How many certificates were issued.
    pub issued: int,
}

impl View for FakeAcmeClient {
    type V = FakeAcmeView;

    closed spec fn view(&self) -> FakeAcmeView {
        FakeAcmeView { fail: self.fail, issued: self.issuance_count as int }
    }
}

/// When the certificate begins that is issued after so many others.
pub open spec fn fake_not_before(issued: int) -> int {
    FAKE_ISSUANCE_EPOCH_UNIX + issued * 86_400
}

/// When that certificate ends.
pub open spec fn fake_not_after(issued: int) -> int {
    fake_not_before(issued) + FAKE_VALIDITY_SECS
}

/// This may come of signing a certificate for a domain, with a beginning and an end, by a key of its own: the
/// texts of the certificate and of the key, or the text of an error.
pub uninterp spec fn may_be_signed(
    domain: Seq<char>,
    not_before: i64,
    not_after: i64,
    signed: Result<(Seq<char>, Seq<char>), Seq<char>>,
) -> bool;

/// What an attempt at signing holds.
pub open spec fn signed_view(signed: Result<(String, String), String>) -> Result<(Seq<char>, Seq<char>), Seq<char>> {
    match signed {
        Ok((cert_pem, key_pem)) => Ok((cert_pem@, key_pem@)),
        Err(reason) => Err(reason@),
    }
}

/// A certificate from `rcgen::CertificateParams::self_signed`, with a new key from `rcgen::KeyPair::generate`,
/// for a domain and a time. The key is random, so neither the texts nor whether they come is told:
/// [`may_be_signed`] names what may come, an error too. A certificate that comes says, when it is read back,
/// that it ends when it was made to end.
#[verifier::external_body]
fn self_signed(domain: &str, not_before: i64, not_after: i64) -> (r: Result<(String, String), String>)
    requires
        0 <= not_before <= not_after <= LAST_SECOND,
    ensures
        r is Ok ==> ends_at(r->Ok_0.0@, not_after),
        may_be_signed(domain@, not_before, not_after, signed_view(r)),
{
    let key = rcgen::KeyPair::generate().map_err(|e| e.to_string())?;
    let mut params = rcgen::CertificateParams::new(vec![domain.to_string()]).map_err(|e| e.to_string())?;
    params.not_before = time::OffsetDateTime::from_unix_timestamp(not_before).map_err(|e| e.to_string())?;
    params.not_after = time::OffsetDateTime::from_unix_timestamp(not_after).map_err(|e| e.to_string())?;
    let cert = params.self_signed(&key).map_err(|e| e.to_string())?;
    Ok((cert.pem(), key.serialize_pem()))
}

/// A certificate is one that a [`FakeAcmeClient`] issues for a domain after so many others.
pub open spec fn is_issued(cert: Cert, domain: Seq<char>, issued: int) -> bool {
    &&& ends_at(cert.cert_pem@, fake_not_after(issued) as i64)
    &&& may_be_signed(
        domain,
        fake_not_before(issued) as i64,
        fake_not_after(issued) as i64,
        Ok((cert.cert_pem@, cert.key_pem@)),
    )
}

/// What a client that issues certificates itself answers when it has tried to sign one.
pub open spec fn certified(signed: Result<(Seq<char>, Seq<char>), Seq<char>>, r: Result<Cert, AcmeError>) -> bool {
    match signed {
        Ok((cert_pem, key_pem)) => r matches Ok(cert) && cert.cert_pem@ == cert_pem && cert.key_pem@ == key_pem,
        Err(reason) => r matches Err(AcmeError::Request(m)) && m@ == reason,
    }
}

/// The certificate that was signed with its key, or why none was.
pub fn cert_from(signed: Result<(String, String), String>) -> (r: Result<Cert, AcmeError>)
    ensures
        certified(signed_view(signed), r),
{
    match signed {
        Ok((cert_pem, key_pem)) => Ok(Cert { cert_pem, key_pem }),
        Err(reason) => Err(AcmeError::Request(reason)),
    }
}

/// What a request does to a [`FakeAcmeClient`], and what certificate may come of it: only a certificate that
/// comes is counted.
pub open spec fn answered(
    before: FakeAcmeView,
    domain: Seq<char>,
    r: Result<Cert, AcmeError>,
    after: FakeAcmeView,
) -> bool {
    match r {
        Ok(cert) => {
            &&& !before.fail
            &&& is_issued(cert, domain, before.issued)
            &&& after == (FakeAcmeView { issued: before.issued + 1, ..before })
        },
        Err(_) => after == before,
    }
}

/// The record that answers a challenge for a domain.
pub open spec fn challenge_of(domain: Seq<char>) -> Seq<char> {
    "_acme-challenge."@ + domain
}

/// The record that answers a challenge for a domain.
pub fn challenge_name(domain: &str) -> (r: String)
    ensures
        r@ == challenge_of(domain@),
{
    let mut out = "_acme-challenge.".to_owned();
    out.append(domain);
    out
}

/// The challenge went like this: its record was created, seen and deleted, up to the first of these that
/// failed.
pub open spec fn challenged<D: DnsProvider>(
    before: D,
    domain: Seq<char>,
    failed: Option<DnsError>,
    after: D,
) -> bool {
    let name = challenge_of(domain);
    let token = "fake-token"@;
    ||| failed is Some && D::creating(before, name, token, failed, after)
    ||| exists|d1: D|
        D::creating(before, name, token, None, d1) && failed is Some && #[trigger] D::waiting(
            d1,
            name,
            token,
            failed,
            after,
        )
    ||| exists|d1: D, d2: D|
        D::creating(before, name, token, None, d1) && #[trigger] D::waiting(d1, name, token, None, d2)
            && #[trigger] D::deleting(d2, name, failed, after)
}

fn challenge<D: DnsProvider>(dns: &mut D, domain: &str) -> (r: Result<(), DnsError>)
    requires
        old(dns).ready(),
    ensures
        final(dns).ready(),
        challenged(*old(dns), domain@, dns_failure(r), *final(dns)),
{
    let name = challenge_name(domain);
    let r1 = dns.create_txt_record(name.as_str(), "fake-token");
    if r1.is_err() {
        return r1;
    }
    let ghost d1 = *dns;
    let r2 = dns.wait_for_propagation(name.as_str(), "fake-token");
    if r2.is_err() {
        return r2;
    }
    let ghost d2 = *dns;
    let r3 = dns.delete_txt_record(name.as_str());
    assert(D::creating(*old(dns), name@, "fake-token"@, None, d1));
    assert(D::waiting(d1, name@, "fake-token"@, None, d2));
    r3
}

impl AcmeClient for FakeAcmeClient {
    open spec fn ready(&self) -> bool {
        0 <= self@.issued && fake_not_after(self@.issued) <= LAST_SECOND
    }

    fn request_certificate<D: DnsProvider>(&mut self, domain: &str, contact_email: &str, dns: &mut D) -> (r: Result<
        Cert,
        AcmeError,
    >)
        ensures
            answered(old(self)@, domain@, r, final(self)@),
            old(self)@.fail ==> {
                &&& r matches Err(AcmeError::Request(m))
                &&& m@ == "simulated ACME failure for '"@ + domain@ + "'"@
                &&& *final(dns) == *old(dns)
            },
            !old(self)@.fail ==> exists|c: Option<DnsError>|
                {
                    &&& #[trigger] challenged(*old(dns), domain@, c, *final(dns))
                    &&& c matches Some(e) ==> r == Err::<Cert, AcmeError>(AcmeError::Dns(e))
                    &&& c is None ==> exists|signed: Result<(Seq<char>, Seq<char>), Seq<char>>|
                        #[trigger] may_be_signed(
                            domain@,
                            fake_not_before(old(self)@.issued) as i64,
                            fake_not_after(old(self)@.issued) as i64,
                            signed,
                        ) && certified(signed, r)
                },
    {
        if self.fail {
            let mut message = "simulated ACME failure for '".to_owned();
            message.append(domain);
            message.append("'");
            return Err(AcmeError::Request(message));
        }
        let c = challenge(dns, domain);
        assert(challenged(*old(dns), domain@, dns_failure(c), *dns));
        match c {
            Err(e) => {
                return Err(AcmeError::Dns(e));
            },
            Ok(_) => {},
        }
        let not_before: i64 = FAKE_ISSUANCE_EPOCH_UNIX + self.issuance_count as i64 * 86_400;
        let not_after: i64 = not_before + FAKE_VALIDITY_SECS;
        let signed = self_signed(domain, not_before, not_after);
        if signed.is_ok() {
            self.issuance_count = self.issuance_count + 1;
        }
        cert_from(signed)
    }
}

impl FakeAcmeClient {
    pub fn new() -> (r: Self)
        ensures
            r.ready(),
            r@ == (FakeAcmeView { fail: false, issued: 0 }),
    {
        FakeAcmeClient { fail: false, issuance_count: 0 }
    }

    /// Makes every request fail, or ends that.
    pub fn set_fail(&mut self, fail: bool)
        ensures
            final(self)@ == (FakeAcmeView { fail, ..old(self)@ }),
    {
        self.fail = fail;
    }
}

/// A later certificate of a [`FakeAcmeClient`] ends later, as the certificates themselves say it.
pub proof fn law_renewal_advances_the_expiry(
    first: Cert,
    second: Cert,
    domain: Seq<char>,
    earlier: int,
    later: int,
    ends_first: Result<i64, AcmeError>,
    ends_second: Result<i64, AcmeError>,
)
    requires
        0 <= earlier < later,
        fake_not_after(later) <= LAST_SECOND,
        is_issued(first, domain, earlier),
        is_issued(second, domain, later),
        expiry_result(expiry_in(first.cert_pem@), ends_first),
        expiry_result(expiry_in(second.cert_pem@), ends_second),
    ensures
        ends_first is Ok,
        ends_second is Ok,
        ends_first->Ok_0 < ends_second->Ok_0,
{
}

/// Something that is asked of a [`FakeAcmeClient`], with what comes of it.
pub enum FakeAcmeCall {
    SetFail(bool),
    Request(Seq<char>, Result<Cert, AcmeError>),
}

/// A client went through these states, on these calls.
pub open spec fn is_history(clients: Seq<FakeAcmeView>, calls: Seq<FakeAcmeCall>) -> bool {
    &&& clients.len() == calls.len() + 1
    &&& clients[0] == (FakeAcmeView { fail: false, issued: 0 })
    &&& forall|k: int|
        0 <= k < calls.len() ==> match #[trigger] calls[k] {
            FakeAcmeCall::SetFail(fail) => clients[k + 1] == (FakeAcmeView { fail, ..clients[k] }),
            FakeAcmeCall::Request(domain, r) => answered(clients[k], domain, r, clients[k + 1]),
        }
}

/// A call brought a certificate.
pub open spec fn succeeded(call: FakeAcmeCall) -> bool {
    call matches FakeAcmeCall::Request(_, Ok(_))
}

/// How many calls brought a certificate.
pub open spec fn successes(calls: Seq<FakeAcmeCall>) -> nat
    decreases calls.len(),
{
    if calls.len() == 0 {
        0
    } else if succeeded(calls.last()) {
        successes(calls.drop_last()) + 1
    } else {
        successes(calls.drop_last())
    }
}

proof fn lemma_issued(clients: Seq<FakeAcmeView>, calls: Seq<FakeAcmeCall>, n: int)
    requires
        is_history(clients, calls),
        0 <= n <= calls.len(),
    ensures
        clients[n].issued == successes(calls.take(n)),
    decreases n,
{
    if n > 0 {
        lemma_issued(clients, calls, n - 1);
        assert(calls.take(n).drop_last() =~= calls.take(n - 1));
        assert(calls.take(n).last() == calls[n - 1]);
    }
}

/// The n-th certificate that a new [`FakeAcmeClient`] issues, whatever failed in between, says that it ends n + 89
/// days after the epoch of the client: each ends a day later than the one before.
pub proof fn law_nth_certificate(
    clients: Seq<FakeAcmeView>,
    calls: Seq<FakeAcmeCall>,
    k: int,
    domain: Seq<char>,
    cert: Cert,
    ends: Result<i64, AcmeError>,
)
    requires
        is_history(clients, calls),
        0 <= k < calls.len(),
        calls[k] == FakeAcmeCall::Request(domain, Ok(cert)),
        expiry_result(expiry_in(cert.cert_pem@), ends),
        FAKE_ISSUANCE_EPOCH_UNIX + (successes(calls.take(k + 1)) + 89) * 86_400 <= LAST_SECOND,
    ensures
        ends is Ok,
        ends->Ok_0 == 1_800_000_000 + (successes(calls.take(k + 1)) + 89) * 86_400,
{
    lemma_issued(clients, calls, k);
    assert(calls.take(k + 1).drop_last() =~= calls.take(k));
    assert(calls.take(k + 1).last() == calls[k]);
    assert(answered(clients[k], domain, Ok(cert), clients[k + 1]));
}

} // verus!
