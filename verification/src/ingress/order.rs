//! An order for a certificate: what is to be done next, and what comes of it.
//!
//! The steps are requests to a server and changes of a zone. A run says which step is next, is told what
//! came of it, and goes on from there.

use crate::ingress::acme::{AcmeError, Cert};
use vstd::prelude::*;
use vstd::string::*;

verus! {

/// What an order does next.
#[derive(Debug, Clone, Copy, PartialEq, Eq, Structural)]
pub enum OrderStage {
    /// Ask for the next authorization.
    NextAuthorization,
    /// Create the record that answers the challenge.
    CreateRecord,
    /// Wait until the record is seen.
    WaitForPropagation,
    /// Tell the server that the challenge can be checked.
    SetReady,
    /// Wait until the order is ready.
    PollReady,
    /// Send the key, and have the certificate issued.
    Finalize,
    /// Fetch the certificate.
    Download,
    /// Delete the record, whether or not that works.
    DeleteRecord,
    Finished,
}

/// What came of a step.
pub enum OrderEvent {
    Done,
    /// An authorization with a challenge that a record with this value answers.
    Challenge(String),
    /// An authorization without such a challenge.
    NoChallenge,
    /// There are no more authorizations.
    NoMore,
    /// Whether the order is ready, and how its status is shown.
    Status(bool, String),
    /// The key, or the certificate.
    Text(String),
    Failed(AcmeError),
}

/// An order on its way.
pub struct OrderRun {
    domain: String,
    stage: OrderStage,
    value: String,
    created: bool,
    key_pem: String,
    outcome: Option<Result<Cert, AcmeError>>,
}

/// What an [`OrderRun`] holds.
#[verifier::ext_equal]
pub struct OrderView {
    pub domain: Seq<char>,
    pub stage: OrderStage,
    /// The value of the record for the current challenge.
    pub value: Seq<char>,
    /// A record was created.
    pub created: bool,
    pub key_pem: Seq<char>,
    /// How the order ended, once that is known.
    pub outcome: Option<Result<Cert, AcmeError>>,
}

impl View for OrderRun {
    type V = OrderView;

    closed spec fn view(&self) -> OrderView {
        OrderView {
            domain: self.domain@,
            stage: self.stage,
            value: self.value@,
            created: self.created,
            key_pem: self.key_pem@,
            outcome: self.outcome,
        }
    }
}

/// The server offers no challenge that a record can answer.
pub open spec fn is_no_challenge(e: AcmeError, domain: Seq<char>) -> bool {
    e matches AcmeError::Request(m) && m@ == "no DNS-01 challenge offered for '"@ + domain + "'"@
}

/// The order is not ready, but something else.
pub open spec fn is_not_ready(e: AcmeError, status: Seq<char>) -> bool {
    e matches AcmeError::Request(m) && m@ == "order did not become ready, status: "@ + status
}

impl OrderView {
    pub open spec fn start(domain: Seq<char>) -> OrderView {
        OrderView {
            domain,
            stage: OrderStage::NextAuthorization,
            value: Seq::empty(),
            created: false,
            key_pem: Seq::empty(),
            outcome: None,
        }
    }

    pub open spec fn at(self, stage: OrderStage) -> OrderView {
        OrderView { stage, ..self }
    }

    /// The run once it is known how the order ends: a record that was created is deleted first.
    pub open spec fn concluded(self, outcome: Result<Cert, AcmeError>) -> OrderView {
        OrderView {
            outcome: Some(outcome),
            stage: if self.created {
                OrderStage::DeleteRecord
            } else {
                OrderStage::Finished
            },
            ..self
        }
    }

    /// The steps before the outcome is known.
    pub open spec fn is_open(self) -> bool {
        self.stage != OrderStage::DeleteRecord && self.stage != OrderStage::Finished
    }

    /// What the run may be after an event. Only errors that this library words itself are told by their
    /// texts. An event that a step does not wait for changes nothing.
    pub open spec fn leads_to(self, event: OrderEvent, after: OrderView) -> bool {
        match (self.stage, event) {
            (OrderStage::DeleteRecord, OrderEvent::Done) => after == self.at(OrderStage::Finished),
            (OrderStage::DeleteRecord, OrderEvent::Failed(_)) => after == self.at(OrderStage::Finished),
            (OrderStage::DeleteRecord, _) => after == self,
            (OrderStage::Finished, _) => after == self,
            (_, OrderEvent::Failed(e)) => after == self.concluded(Err(e)),
            (OrderStage::NextAuthorization, OrderEvent::NoMore) => after == self.at(OrderStage::PollReady),
            (OrderStage::NextAuthorization, OrderEvent::NoChallenge) => exists|e: AcmeError| #[trigger]
                is_no_challenge(e, self.domain) && after == self.concluded(Err(e)),
            (OrderStage::NextAuthorization, OrderEvent::Challenge(value)) => after == (OrderView {
                value: value@,
                ..self
            }).at(OrderStage::CreateRecord),
            (OrderStage::CreateRecord, OrderEvent::Done) => after == (OrderView { created: true, ..self }).at(
                OrderStage::WaitForPropagation,
            ),
            (OrderStage::WaitForPropagation, OrderEvent::Done) => after == self.at(OrderStage::SetReady),
            (OrderStage::SetReady, OrderEvent::Done) => after == self.at(OrderStage::NextAuthorization),
            (OrderStage::PollReady, OrderEvent::Status(ready, shown)) => if ready {
                after == self.at(OrderStage::Finalize)
            } else {
                exists|e: AcmeError| #[trigger] is_not_ready(e, shown@) && after == self.concluded(Err(e))
            },
            (OrderStage::Finalize, OrderEvent::Text(key)) => after == (OrderView { key_pem: key@, ..self }).at(
                OrderStage::Download,
            ),
            (OrderStage::Download, OrderEvent::Text(cert)) => exists|c: Cert|
                (#[trigger] c.cert_pem)@ == cert@ && c.key_pem@ == self.key_pem && after == self.concluded(Ok(c)),
            _ => after == self,
        }
    }
}

impl OrderRun {
    pub fn new(domain: &str) -> (r: Self)
        ensures
            r@ == OrderView::start(domain@),
    {
        let r = OrderRun {
            domain: domain.to_owned(),
            stage: OrderStage::NextAuthorization,
            value: String::new(),
            created: false,
            key_pem: String::new(),
            outcome: None,
        };
        assert(r@ =~= OrderView::start(domain@));
        r
    }

    /// What to do next.
    pub fn stage(&self) -> (r: OrderStage)
        ensures
            r == self@.stage,
    {
        self.stage
    }

    /// The value of the record for the current challenge.
    pub fn value(&self) -> (r: &str)
        ensures
            r@ == self@.value,
    {
        self.value.as_str()
    }

    fn conclude(&mut self, outcome: Result<Cert, AcmeError>)
        ensures
            final(self)@ == old(self)@.concluded(outcome),
    {
        self.outcome = Some(outcome);
        self.stage = if self.created {
            OrderStage::DeleteRecord
        } else {
            OrderStage::Finished
        };
        assert(self@ =~= old(self)@.concluded(outcome));
    }

    fn go_to(&mut self, stage: OrderStage)
        ensures
            final(self)@ == old(self)@.at(stage),
    {
        self.stage = stage;
        assert(self@ =~= old(self)@.at(stage));
    }

    /// Goes on from what came of the step.
    pub fn report(&mut self, event: OrderEvent)
        ensures
            old(self)@.leads_to(event, final(self)@),
    {
        match self.stage {
            OrderStage::Finished => {},
            OrderStage::DeleteRecord => match event {
                OrderEvent::Done => {
                    self.go_to(OrderStage::Finished);
                },
                OrderEvent::Failed(_) => {
                    self.go_to(OrderStage::Finished);
                },
                _ => {},
            },
            OrderStage::NextAuthorization => match event {
                OrderEvent::Failed(e) => {
                    self.conclude(Err(e));
                },
                OrderEvent::NoMore => {
                    self.go_to(OrderStage::PollReady);
                },
                OrderEvent::NoChallenge => {
                    let mut message = "no DNS-01 challenge offered for '".to_owned();
                    message.append(self.domain.as_str());
                    message.append("'");
                    let e = AcmeError::Request(message);
                    assert(is_no_challenge(e, self@.domain));
                    self.conclude(Err(e));
                },
                OrderEvent::Challenge(value) => {
                    self.value = value;
                    assert(self@ =~= (OrderView { value: value@, ..old(self)@ }));
                    self.go_to(OrderStage::CreateRecord);
                },
                _ => {},
            },
            OrderStage::CreateRecord => match event {
                OrderEvent::Failed(e) => {
                    self.conclude(Err(e));
                },
                OrderEvent::Done => {
                    self.created = true;
                    assert(self@ =~= (OrderView { created: true, ..old(self)@ }));
                    self.go_to(OrderStage::WaitForPropagation);
                },
                _ => {},
            },
            OrderStage::WaitForPropagation => match event {
                OrderEvent::Failed(e) => {
                    self.conclude(Err(e));
                },
                OrderEvent::Done => {
                    self.go_to(OrderStage::SetReady);
                },
                _ => {},
            },
            OrderStage::SetReady => match event {
                OrderEvent::Failed(e) => {
                    self.conclude(Err(e));
                },
                OrderEvent::Done => {
                    self.go_to(OrderStage::NextAuthorization);
                },
                _ => {},
            },
            OrderStage::PollReady => match event {
                OrderEvent::Failed(e) => {
                    self.conclude(Err(e));
                },
                OrderEvent::Status(ready, shown) => {
                    if ready {
                        self.go_to(OrderStage::Finalize);
                    } else {
                        let mut message = "order did not become ready, status: ".to_owned();
                        message.append(shown.as_str());
                        let e = AcmeError::Request(message);
                        assert(is_not_ready(e, shown@));
                        self.conclude(Err(e));
                    }
                },
                _ => {},
            },
            OrderStage::Finalize => match event {
                OrderEvent::Failed(e) => {
                    self.conclude(Err(e));
                },
                OrderEvent::Text(key) => {
                    self.key_pem = key;
                    assert(self@ =~= (OrderView { key_pem: key@, ..old(self)@ }));
                    self.go_to(OrderStage::Download);
                },
                _ => {},
            },
            OrderStage::Download => match event {
                OrderEvent::Failed(e) => {
                    self.conclude(Err(e));
                },
                OrderEvent::Text(cert_pem) => {
                    let cert = Cert { cert_pem, key_pem: self.key_pem.clone() };
                    assert(cert.cert_pem@ == cert_pem@);
                    self.conclude(Ok(cert));
                },
                _ => {},
            },
        }
    }

    /// How the order ended; nothing before the run is finished.
    pub fn outcome(self) -> (r: Option<Result<Cert, AcmeError>>)
        ensures
            r == if self@.stage == OrderStage::Finished {
                self@.outcome
            } else {
                None
            },
    {
        match self.stage {
            OrderStage::Finished => self.outcome,
            _ => None,
        }
    }
}

/// A chain of runs, each of which an event leads to from the one before.
pub open spec fn is_history(runs: Seq<OrderView>, events: Seq<OrderEvent>, domain: Seq<char>) -> bool {
    &&& runs.len() == events.len() + 1
    &&& runs[0] == OrderView::start(domain)
    &&& forall|i: int| 0 <= i < events.len() ==> (#[trigger] runs[i]).leads_to(events[i], runs[i + 1])
}

/// An order that is finished has an outcome, and if it ever created a record, it has gone through the
/// deletion of the record; an order that created none deletes none.
pub proof fn law_no_record_is_left_behind(runs: Seq<OrderView>, events: Seq<OrderEvent>, domain: Seq<char>, n: int)
    requires
        is_history(runs, events, domain),
        0 <= n < runs.len(),
    ensures
        runs[n].outcome is Some <==> !runs[n].is_open(),
        runs[n].stage == OrderStage::DeleteRecord ==> runs[n].created,
        runs[n].stage == OrderStage::Finished && runs[n].created ==> exists|i: int|
            0 <= i < n && (#[trigger] runs[i]).stage == OrderStage::DeleteRecord,
    decreases n,
{
    if n > 0 {
        law_no_record_is_left_behind(runs, events, domain, n - 1);
        assert(runs[n - 1].leads_to(events[n - 1], runs[n]));
        if runs[n].stage == OrderStage::Finished && runs[n].created {
            if runs[n - 1].stage == OrderStage::Finished {
                let i = choose|i: int| 0 <= i < n - 1 && (#[trigger] runs[i]).stage == OrderStage::DeleteRecord;
                assert(runs[i].stage == OrderStage::DeleteRecord);
            }
        }
    }
}

/// A certificate comes only out of an order that was ready and was finalized.
pub proof fn law_certificates_come_from_the_download(before: OrderView, event: OrderEvent, after: OrderView)
    requires
        before.leads_to(event, after),
        before.outcome is None,
        after.outcome matches Some(Ok(_)),
    ensures
        before.stage == OrderStage::Download,
        event is Text,
{
}

} // verus!
