//! What clients, challenges and orders do, told by what came of them.

use crate::ingress::account::{credentials_in, AccountEvent, AccountStage, AccountView};
use crate::ingress::acme::{
    answered, certified, challenge_of, challenged, classified, expiry_result, fake_not_after, fake_not_before, AcmeError,
    AcmeErrorView, Cert, FakeAcmeView,
};
use crate::ingress::dns::{DnsError, DnsProvider, FakeDnsProvider};
use crate::ingress::order::{OrderEvent, OrderStage, OrderView};
use instant_acme::AccountCredentials;
use vstd::prelude::*;

verus! {

/// An error of a server counts as a limit exactly if the server says so by its type, and keeps its text either way.
pub proof fn law_limits(kind: Option<Seq<char>>, text: Seq<char>, r: AcmeError)
    requires
        classified(kind, text, r),
    ensures
        r is RateLimited <==> kind == Some("urn:ietf:params:acme:error:rateLimited"@),
        r@ == AcmeErrorView::RateLimited(text) || r@ == AcmeErrorView::Request(text),
{
}

/// The end of a certificate is the one that was found in it; without one, it is told whether there was no block or no
/// certificate in it, and why.
pub proof fn law_expiries(found: Result<Result<i64, Seq<char>>, Seq<char>>, r: Result<i64, AcmeError>)
    requires
        expiry_result(found, r),
    ensures
        r is Ok <==> found is Ok && found->Ok_0 is Ok,
        r is Ok ==> r->Ok_0 == found->Ok_0->Ok_0,
        found is Err ==> r->Err_0@ == AcmeErrorView::Request("failed to parse certificate PEM: "@ + found->Err_0),
        found is Ok && found->Ok_0 is Err ==> r->Err_0@ == AcmeErrorView::Request(
            "failed to parse certificate: "@ + found->Ok_0->Err_0,
        ),
{
}

/// A certificate that was signed comes with its own key, as both are; a failure to sign keeps its reason.
pub proof fn law_signatures(signed: Result<(Seq<char>, Seq<char>), Seq<char>>, r: Result<Cert, AcmeError>)
    requires
        certified(signed, r),
    ensures
        r is Ok <==> signed is Ok,
        signed matches Ok((cert_pem, key_pem)) ==> r->Ok_0.cert_pem@ == cert_pem && r->Ok_0.key_pem@ == key_pem,
        signed matches Err(reason) ==> r->Err_0@ == AcmeErrorView::Request(reason),
{
}

/// A client that issues certificates itself counts exactly those that come, and gives none while it is made to fail. Each
/// is valid for ninety days, from a day after the one before.
pub proof fn law_issuance(before: FakeAcmeView, domain: Seq<char>, r: Result<Cert, AcmeError>, after: FakeAcmeView)
    requires
        answered(before, domain, r, after),
    ensures
        after.fail == before.fail,
        r is Ok ==> after.issued == before.issued + 1 && !before.fail,
        r is Err ==> after.issued == before.issued,
        fake_not_after(before.issued) == fake_not_before(before.issued) + 90 * 86_400,
        fake_not_before(before.issued + 1) == fake_not_before(before.issued) + 86_400,
        fake_not_before(0) == 1_800_000_000,
{
}

/// A challenge for a domain over a zone in memory: if the record can be created, it is created and seen under the name of
/// the domain's challenge, and is gone afterwards, with every other record as it was. If it cannot, nothing has changed
/// and the challenge has failed.
pub proof fn law_challenges(
    before: FakeDnsProvider,
    domain: Seq<char>,
    failed: Option<DnsError>,
    after: FakeDnsProvider,
    other: Seq<char>,
)
    requires
        challenged(before, domain, failed, after),
    ensures
        failed is Some <==> before@.fail_create,
        failed is Some ==> after@ == before@,
        failed is None ==> !after@.records.dom().contains("_acme-challenge."@ + domain),
        other != "_acme-challenge."@ + domain ==> after@.records.dom().contains(other)
            == before@.records.dom().contains(other) && (before@.records.dom().contains(other)
            ==> after@.records[other] == before@.records[other]),
        challenge_of(domain) == "_acme-challenge."@ + domain,
{
    let name = challenge_of(domain);
    let token = "fake-token"@;
    if exists|d1: FakeDnsProvider|
        FakeDnsProvider::creating(before, name, token, None, d1) && failed is Some && #[trigger] FakeDnsProvider::waiting(
            d1,
            name,
            token,
            failed,
            after,
        ) {
        let d1 = choose|d1: FakeDnsProvider|
            FakeDnsProvider::creating(before, name, token, None, d1) && failed is Some
                && #[trigger] FakeDnsProvider::waiting(d1, name, token, failed, after);
        assert(d1@.records[name] == token);
    }
}

/// What a record of a zone in memory is after it was created, and whether it is seen.
pub proof fn law_records_of_a_zone(
    before: FakeDnsProvider,
    name: Seq<char>,
    value: Seq<char>,
    created: FakeDnsProvider,
    seen: Option<DnsError>,
    looked: FakeDnsProvider,
    deleted: FakeDnsProvider,
    wanted: Seq<char>,
)
    requires
        FakeDnsProvider::creating(before, name, value, None, created),
        FakeDnsProvider::waiting(created, name, wanted, seen, looked),
        FakeDnsProvider::deleting(looked, name, None, deleted),
    ensures
        seen is None <==> wanted == value,
        looked@ == created@,
        !deleted@.records.dom().contains(name),
        forall|other: Seq<char>|
            other != name ==> #[trigger] deleted@.records.dom().contains(other) == before@.records.dom().contains(
                other,
            ) && (before@.records.dom().contains(other) ==> deleted@.records[other] == before@.records[other]),
{
}

/// What a step of an order changes. Every authorization with a challenge has its record created with that challenge's value,
/// seen, and the server told; when there are no more, the order is finalized once it is ready, and the certificate that is
/// downloaded comes with the key that it was finalized with. Any failure before that is the outcome; a record that was
/// created is deleted, whether or not that works, and the outcome stays.
pub proof fn law_order_steps(run: OrderView, event: OrderEvent, after: OrderView)
    requires
        run.leads_to(event, after),
    ensures
        after.domain == run.domain,
        after.created <==> run.created || (run.stage == OrderStage::CreateRecord && event is Done),
        run.is_open() && event is Failed ==> after.outcome == Some(Err::<Cert, AcmeError>(event->Failed_0)),
        run.is_open() && event is Failed && run.created ==> after.stage == OrderStage::DeleteRecord,
        run.is_open() && event is Failed && !run.created ==> after.stage == OrderStage::Finished,
        !run.is_open() ==> after.outcome == run.outcome && after.value == run.value && after.key_pem == run.key_pem,
        run.stage == OrderStage::DeleteRecord && (event is Done || event is Failed) ==> after.stage
            == OrderStage::Finished,
        run.stage == OrderStage::NextAuthorization && event is Challenge ==> after.stage == OrderStage::CreateRecord
            && after.value == event->Challenge_0@,
        run.stage == OrderStage::NextAuthorization && event is NoMore ==> after.stage == OrderStage::PollReady,
        run.stage == OrderStage::NextAuthorization && event is NoChallenge ==> (after.outcome matches Some(Err(e)) && e@
            == AcmeErrorView::Request("no DNS-01 challenge offered for '"@ + run.domain + "'"@)),
        run.stage == OrderStage::CreateRecord && event is Done ==> after.stage == OrderStage::WaitForPropagation
            && after.value == run.value,
        run.stage == OrderStage::WaitForPropagation && event is Done ==> after.stage == OrderStage::SetReady
            && after.value == run.value,
        run.stage == OrderStage::SetReady && event is Done ==> after.stage == OrderStage::NextAuthorization,
        run.stage == OrderStage::PollReady && event is Status && event->Status_0 ==> after.stage
            == OrderStage::Finalize && after.outcome == run.outcome,
        run.stage == OrderStage::PollReady && event is Status && !event->Status_0 ==> (after.outcome matches Some(Err(e))
            && e@ == AcmeErrorView::Request("order did not become ready, status: "@ + event->Status_1@)),
        run.stage == OrderStage::Finalize && event is Text ==> after.stage == OrderStage::Download && after.key_pem
            == event->Text_0@,
        run.stage == OrderStage::Download && event is Text ==> (after.outcome matches Some(Ok(cert)) && cert.cert_pem@
            == event->Text_0@ && cert.key_pem@ == run.key_pem),
        run.stage == OrderStage::Download && event is Text && run.created ==> after.stage == OrderStage::DeleteRecord,
        run.stage == OrderStage::Download && event is Text && !run.created ==> after.stage == OrderStage::Finished,
{
}

/// What a step on the way to an account changes. A file that could be read decides: its account is restored, or it is told what
/// is wrong with it; without one an account is created and saved. A failure after that is the end, and is told.
pub proof fn law_account_steps(run: AccountView, event: AccountEvent, after: AccountView)
    requires
        run.leads_to(event, after),
    ensures
        run.stage == AccountStage::Finished ==> after == run,
        run.stage == AccountStage::ReadFile && !(event is Read) ==> after == run,
        run.stage == AccountStage::ReadFile && event == AccountEvent::Read(None) ==> after.stage == AccountStage::Create,
        run.stage == AccountStage::ReadFile && (event matches AccountEvent::Read(Some(_))) ==> match credentials_in(
            event->Read_0->0@,
        ) {
            Ok(credentials) => after.stage == AccountStage::Restore && run.restored_by(event) == Some(credentials),
            Err(e) => after.stage == AccountStage::Finished && after.error == Some(
                AcmeErrorView::Request("malformed account credentials: "@ + e),
            ) && run.restored_by(event) is None,
        },
        run.stage != AccountStage::ReadFile ==> run.restored_by(event) is None,
        run.stage != AccountStage::ReadFile && run.stage != AccountStage::Finished && event is Failed ==> after.stage
            == AccountStage::Finished && after.error == Some(event->Failed_0@),
        run.stage == AccountStage::Restore && event is Restored ==> after.stage == AccountStage::Finished && after.error
            == run.error,
        run.stage == AccountStage::Create && event is Created ==> after.stage == AccountStage::Save && credentials_in(
            after.text,
        ) == Ok::<AccountCredentials, Seq<char>>(event->Created_0) && after.error == run.error,
        run.stage == AccountStage::Save && event is Saved ==> after.stage == AccountStage::Finished && after.error
            == run.error,
        run.stage == AccountStage::Restore && !(event is Restored) && !(event is Failed) ==> after == run,
        run.stage == AccountStage::Create && !(event is Created) && !(event is Failed) ==> after == run,
        run.stage == AccountStage::Save && !(event is Saved) && !(event is Failed) ==> after == run,
{
}

} // verus!
