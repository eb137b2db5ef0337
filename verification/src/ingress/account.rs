//! The account at a server of certificates: read from its file, or created and saved there.
//!
//! The steps are reads and writes of a file and requests to a server. A run says which step is next, is told
//! what came of it, and goes on from there.

use crate::ingress::acme::{AcmeError, AcmeErrorView};
use crate::views::opt_view;
use instant_acme::AccountCredentials;
use vstd::prelude::*;
use vstd::string::*;

verus! {

/// What identifies an account, its key among it: `instant_acme::AccountCredentials`.
#[verifier::external_type_specification]
#[verifier::external_body]
pub struct ExAccountCredentials(AccountCredentials);

/// The credentials that a text in JSON holds, or why it holds none.
pub uninterp spec fn credentials_in(json: Seq<char>) -> Result<AccountCredentials, Seq<char>>;

/// `serde_json::from_str` into `instant_acme::AccountCredentials`: the credentials, or the text of the error,
/// depend on the text alone, and are named by [`credentials_in`].
#[verifier::external_body]
fn read_credentials(json: &str) -> (r: Result<AccountCredentials, String>)
    ensures
        match r {
            Ok(credentials) => credentials_in(json@) == Ok::<AccountCredentials, Seq<char>>(credentials),
            Err(e) => credentials_in(json@) == Err::<AccountCredentials, Seq<char>>(e@),
        },
{
    serde_json::from_str(json).map_err(|e| e.to_string())
}

/// A text in JSON holds these credentials.
pub open spec fn holds(json: Seq<char>, credentials: AccountCredentials) -> bool {
    credentials_in(json) == Ok::<AccountCredentials, Seq<char>>(credentials)
}

/// `serde_json::to_string` of `instant_acme::AccountCredentials`: they are made of texts, a key that is written as
/// a text, and tables of texts, all of which can be written, and are read back from what was written.
#[verifier::external_body]
fn write_credentials(credentials: &AccountCredentials) -> (r: Result<String, String>)
    ensures
        r is Ok,
        holds(r->Ok_0@, *credentials),
{
    serde_json::to_string(credentials).map_err(|e| e.to_string())
}

/// The account that was saved in a file, if the file could be read; a file that makes no sense is an error.
pub open spec fn account_in(saved: Option<Seq<char>>) -> Result<Option<AccountCredentials>, AcmeErrorView> {
    match saved {
        None => Ok(None),
        Some(json) => match credentials_in(json) {
            Ok(credentials) => Ok(Some(credentials)),
            Err(e) => Err(AcmeErrorView::Request("malformed account credentials: "@ + e)),
        },
    }
}

/// What an attempt holds.
pub open spec fn attempted<T>(r: Result<T, AcmeError>) -> Result<T, AcmeErrorView> {
    match r {
        Ok(x) => Ok(x),
        Err(e) => Err(e@),
    }
}

/// The account that was saved in a file, if the file could be read.
pub fn saved_account(saved: Option<String>) -> (r: Result<Option<AccountCredentials>, AcmeError>)
    ensures
        attempted(r) == account_in(opt_view(saved)),
{
    match saved {
        None => Ok(None),
        Some(json) => match read_credentials(json.as_str()) {
            Ok(credentials) => Ok(Some(credentials)),
            Err(e) => {
                let mut message = "malformed account credentials: ".to_owned();
                message.append(e.as_str());
                Err(AcmeError::Request(message))
            },
        },
    }
}

/// The text to save for an account, from what came of writing its credentials down.
pub fn written_account(written: Result<String, String>) -> (r: Result<String, AcmeError>)
    ensures
        match written {
            Ok(json) => r matches Ok(text) && text@ == json@,
            Err(e) => r matches Err(m) && m@ == AcmeErrorView::Request(
                "failed to serialize account credentials: "@ + e@,
            ),
        },
{
    match written {
        Ok(json) => Ok(json),
        Err(e) => {
            let mut message = "failed to serialize account credentials: ".to_owned();
            message.append(e.as_str());
            Err(AcmeError::Request(message))
        },
    }
}

/// What is done next.
#[derive(Debug, Clone, Copy, PartialEq, Eq, Structural)]
pub enum AccountStage {
    /// Read the file of the account.
    ReadFile,
    /// Go on with the account whose credentials were in the file.
    Restore,
    /// Create an account at the server.
    Create,
    /// Save the text of the new account's credentials in the file.
    Save,
    Finished,
}

/// What came of a step.
pub enum AccountEvent {
    /// What the file holds; nothing, if it cannot be read.
    Read(Option<String>),
    Restored,
    /// An account was created, with these credentials.
    Created(AccountCredentials),
    Saved,
    Failed(AcmeError),
}

/// The way to an account.
pub struct AccountRun {
    stage: AccountStage,
    text: String,
    error: Option<AcmeError>,
}

/// What an [`AccountRun`] holds.
#[verifier::ext_equal]
pub struct AccountView {
    pub stage: AccountStage,
    /// The text to save.
    pub text: Seq<char>,
    /// Why there is no account.
    pub error: Option<AcmeErrorView>,
}

impl View for AccountRun {
    type V = AccountView;

    closed spec fn view(&self) -> AccountView {
        AccountView { stage: self.stage, text: self.text@, error: opt_view(self.error) }
    }
}

impl AccountView {
    pub open spec fn start() -> AccountView {
        AccountView { stage: AccountStage::ReadFile, text: Seq::empty(), error: None }
    }

    pub open spec fn at(self, stage: AccountStage) -> AccountView {
        AccountView { stage, ..self }
    }

    pub open spec fn failed(self, error: AcmeErrorView) -> AccountView {
        AccountView { stage: AccountStage::Finished, error: Some(error), ..self }
    }

    /// The run after its file was read.
    pub open spec fn after_reading(self, saved: Option<Seq<char>>) -> AccountView {
        match account_in(saved) {
            Ok(None) => self.at(AccountStage::Create),
            Ok(Some(_)) => self.at(AccountStage::Restore),
            Err(e) => self.failed(e),
        }
    }

    /// The run may be this after an account was created: its credentials are to be saved as a text from which
    /// they are read back.
    pub open spec fn after_creating(self, credentials: AccountCredentials, after: AccountView) -> bool {
        &&& holds(after.text, credentials)
        &&& after == (AccountView { text: after.text, ..self }).at(AccountStage::Save)
    }

    /// What the run may be after an event. An event that a step does not wait for changes nothing.
    pub open spec fn leads_to(self, event: AccountEvent, after: AccountView) -> bool {
        match (self.stage, event) {
            (AccountStage::Finished, _) => after == self,
            (AccountStage::ReadFile, AccountEvent::Read(saved)) => after == self.after_reading(opt_view(saved)),
            (AccountStage::ReadFile, _) => after == self,
            (_, AccountEvent::Failed(e)) => after == self.failed(e@),
            (AccountStage::Restore, AccountEvent::Restored) => after == self.at(AccountStage::Finished),
            (AccountStage::Create, AccountEvent::Created(credentials)) => self.after_creating(credentials, after),
            (AccountStage::Save, AccountEvent::Saved) => after == self.at(AccountStage::Finished),
            _ => after == self,
        }
    }

    /// The credentials of the account to go on with, if an event brings them.
    pub open spec fn restored_by(self, event: AccountEvent) -> Option<AccountCredentials> {
        match (self.stage, event) {
            (AccountStage::ReadFile, AccountEvent::Read(saved)) => match account_in(opt_view(saved)) {
                Ok(found) => found,
                Err(_) => None,
            },
            _ => None,
        }
    }
}

impl AccountRun {
    pub fn new() -> (r: Self)
        ensures
            r@ == AccountView::start(),
    {
        let r = AccountRun { stage: AccountStage::ReadFile, text: String::new(), error: None };
        assert(r@ =~= AccountView::start());
        r
    }

    /// What to do next.
    pub fn stage(&self) -> (r: AccountStage)
        ensures
            r == self@.stage,
    {
        self.stage
    }

    /// The text to save.
    pub fn text(&self) -> (r: &str)
        ensures
            r@ == self@.text,
    {
        self.text.as_str()
    }

    fn go_to(&mut self, stage: AccountStage)
        ensures
            final(self)@ == old(self)@.at(stage),
    {
        self.stage = stage;
        assert(self@ =~= old(self)@.at(stage));
    }

    fn fail(&mut self, error: AcmeError)
        ensures
            final(self)@ == old(self)@.failed(error@),
    {
        self.stage = AccountStage::Finished;
        self.error = Some(error);
        assert(self@ =~= old(self)@.failed(error@));
    }

    fn take_file(&mut self, saved: Option<String>) -> (r: Option<AccountCredentials>)
        ensures
            final(self)@ == old(self)@.after_reading(opt_view(saved)),
            r == match account_in(opt_view(saved)) {
                Ok(found) => found,
                Err(_) => None,
            },
    {
        match saved_account(saved) {
            Ok(Some(credentials)) => {
                self.go_to(AccountStage::Restore);
                Some(credentials)
            },
            Ok(None) => {
                self.go_to(AccountStage::Create);
                None
            },
            Err(e) => {
                self.fail(e);
                None
            },
        }
    }

    fn take_account(&mut self, credentials: AccountCredentials)
        ensures
            old(self)@.after_creating(credentials, final(self)@),
    {
        match written_account(write_credentials(&credentials)) {
            Ok(text) => {
                self.text = text;
                self.stage = AccountStage::Save;
                assert(self@ =~= (AccountView { text: text@, ..old(self)@ }).at(AccountStage::Save));
            },
            Err(e) => {
                self.fail(e);
            },
        }
    }

    /// Goes on from what came of the step. Returns the credentials of the account to restore, once they were read.
    pub fn report(&mut self, event: AccountEvent) -> (r: Option<AccountCredentials>)
        ensures
            old(self)@.leads_to(event, final(self)@),
            r == old(self)@.restored_by(event),
    {
        match self.stage {
            AccountStage::Finished => None,
            AccountStage::ReadFile => match event {
                AccountEvent::Read(saved) => self.take_file(saved),
                _ => None,
            },
            AccountStage::Restore => {
                match event {
                    AccountEvent::Failed(e) => {
                        self.fail(e);
                    },
                    AccountEvent::Restored => {
                        self.go_to(AccountStage::Finished);
                    },
                    _ => {},
                }
                None
            },
            AccountStage::Create => {
                match event {
                    AccountEvent::Failed(e) => {
                        self.fail(e);
                    },
                    AccountEvent::Created(credentials) => {
                        self.take_account(credentials);
                    },
                    _ => {},
                }
                None
            },
            AccountStage::Save => {
                match event {
                    AccountEvent::Failed(e) => {
                        self.fail(e);
                    },
                    AccountEvent::Saved => {
                        self.go_to(AccountStage::Finished);
                    },
                    _ => {},
                }
                None
            },
        }
    }

    /// Whether a finished run has led to an account.
    pub fn result(self) -> (r: Result<(), AcmeError>)
        requires
            self@.stage == AccountStage::Finished,
        ensures
            match r {
                Ok(_) => self@.error is None,
                Err(e) => self@.error == Some(e@),
            },
    {
        match self.error {
            Some(e) => Err(e),
            None => Ok(()),
        }
    }
}

/// A chain of runs, each of which an event leads to from the one before.
pub open spec fn is_history(runs: Seq<AccountView>, events: Seq<AccountEvent>) -> bool {
    &&& runs.len() == events.len() + 1
    &&& runs[0] == AccountView::start()
    &&& forall|i: int| 0 <= i < events.len() ==> (#[trigger] runs[i]).leads_to(events[i], runs[i + 1])
}

/// Where a file can be read, no account is created, whatever the file holds and whatever happens then: a file
/// that makes no sense ends the run with an error, and any other gives its account back.
pub proof fn law_a_saved_account_is_never_replaced(
    runs: Seq<AccountView>,
    events: Seq<AccountEvent>,
    saved: String,
    k: int,
    n: int,
)
    requires
        is_history(runs, events),
        0 <= k < n < runs.len(),
        runs[k].stage == AccountStage::ReadFile,
        events[k] == AccountEvent::Read(Some(saved)),
    ensures
        runs[n].stage != AccountStage::ReadFile,
        runs[n].stage != AccountStage::Create,
        runs[n].stage != AccountStage::Save,
        credentials_in(saved@) matches Ok(credentials) ==> {
            &&& runs[k].restored_by(events[k]) == Some(credentials)
            &&& runs[k + 1].stage == AccountStage::Restore
        },
        credentials_in(saved@) matches Err(e) ==> {
            &&& runs[n].stage == AccountStage::Finished
            &&& runs[n].error == Some(AcmeErrorView::Request("malformed account credentials: "@ + e))
        },
    decreases n,
{
    assert(runs[k].leads_to(events[k], runs[k + 1]));
    if n > k + 1 {
        law_a_saved_account_is_never_replaced(runs, events, saved, k, n - 1);
        assert(runs[n - 1].leads_to(events[n - 1], runs[n]));
    }
}

/// A run that creates an account ends well only after the account was saved.
pub proof fn law_a_new_account_is_saved(runs: Seq<AccountView>, events: Seq<AccountEvent>, k: int, n: int)
    requires
        is_history(runs, events),
        0 <= k < n < runs.len(),
        runs[k].stage == AccountStage::Create,
        runs[n].stage == AccountStage::Finished,
        runs[n].error is None,
    ensures
        exists|i: int|
            k < i < n && (#[trigger] runs[i]).stage == AccountStage::Save && events[i] is Saved && credentials_in(
                runs[i].text,
            ) is Ok,
{
    lemma_no_error_before(runs, events, n);
    lemma_on_the_way(runs, events, k, n);
}

proof fn lemma_no_error_before(runs: Seq<AccountView>, events: Seq<AccountEvent>, n: int)
    requires
        is_history(runs, events),
        0 <= n < runs.len(),
    ensures
        runs[n].stage != AccountStage::Finished ==> runs[n].error is None,
        runs[n].stage == AccountStage::Save ==> credentials_in(runs[n].text) is Ok,
    decreases n,
{
    if n > 0 {
        lemma_no_error_before(runs, events, n - 1);
        assert(runs[n - 1].leads_to(events[n - 1], runs[n]));
    }
}

proof fn lemma_on_the_way(runs: Seq<AccountView>, events: Seq<AccountEvent>, k: int, n: int)
    requires
        is_history(runs, events),
        0 <= k <= n < runs.len(),
        runs[k].stage == AccountStage::Create,
    ensures
        runs[n].stage == AccountStage::Create || runs[n].stage == AccountStage::Save || runs[n].stage
            == AccountStage::Finished,
        n == k ==> runs[n].stage == AccountStage::Create,
        runs[n].stage == AccountStage::Finished && runs[n].error is None ==> exists|i: int|
            k < i < n && (#[trigger] runs[i]).stage == AccountStage::Save && events[i] is Saved && credentials_in(
                runs[i].text,
            ) is Ok,
    decreases n - k,
{
    if n > k {
        lemma_on_the_way(runs, events, k, n - 1);
        lemma_no_error_before(runs, events, n - 1);
        assert(runs[n - 1].leads_to(events[n - 1], runs[n]));
        if runs[n].stage == AccountStage::Finished && runs[n].error is None {
            if runs[n - 1].stage == AccountStage::Finished {
                let i = choose|i: int|
                    k < i < n - 1 && (#[trigger] runs[i]).stage == AccountStage::Save && events[i] is Saved
                        && credentials_in(runs[i].text) is Ok;
                assert(runs[i].stage == AccountStage::Save);
            } else {
                assert(runs[n - 1].stage == AccountStage::Save);
            }
        }
    }
}

/// The next start goes on with the account that was created: what is saved for it brings its credentials back.
pub proof fn law_a_restart_uses_the_same_account(
    before: AccountView,
    credentials: AccountCredentials,
    created: AccountView,
    saved: String,
    next: AccountView,
)
    requires
        before.stage == AccountStage::Create,
        before.leads_to(AccountEvent::Created(credentials), created),
        saved@ == created.text,
        AccountView::start().leads_to(AccountEvent::Read(Some(saved)), next),
    ensures
        created.stage == AccountStage::Save,
        next.stage == AccountStage::Restore,
        AccountView::start().restored_by(AccountEvent::Read(Some(saved))) == Some(credentials),
{
}

} // verus!
