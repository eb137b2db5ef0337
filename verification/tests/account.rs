use keel::ingress::account::{saved_account, written_account, AccountEvent, AccountRun, AccountStage};
use keel::ingress::acme::AcmeError;

/// The key is "key" in base64.
const SAVED: &str =
    r#"{"id":"https://acme.example/acct/1","key_pkcs8":"a2V5","directory":"https://acme.example/directory"}"#;

fn read(text: Option<&str>) -> AccountEvent {
    AccountEvent::Read(text.map(str::to_string))
}

#[test]
fn a_saved_account_is_restored() {
    let mut run = AccountRun::new();
    assert_eq!(run.stage(), AccountStage::ReadFile);
    let credentials = run.report(read(Some(SAVED))).expect("the file holds an account");
    assert_eq!(credentials.private_key().secret_pkcs8_der(), b"key");
    assert_eq!(run.stage(), AccountStage::Restore);
    assert!(run.report(AccountEvent::Created(credentials)).is_none(), "nothing is created");
    assert_eq!(run.stage(), AccountStage::Restore);
    run.report(AccountEvent::Restored);
    assert_eq!(run.stage(), AccountStage::Finished);
    assert_eq!(run.result(), Ok(()));
}

#[test]
fn a_malformed_file_is_an_error_and_no_reason_to_register() {
    for text in ["", "not json", "{}", r#"{"id":"a","key_pkcs8":"!","directory":null}"#] {
        let reason = serde_json::from_str::<instant_acme::AccountCredentials>(text).err().unwrap().to_string();
        let error = AcmeError::Request(format!("malformed account credentials: {reason}"));
        let mut run = AccountRun::new();
        assert!(run.report(read(Some(text))).is_none());
        assert_eq!(run.stage(), AccountStage::Finished);
        run.report(AccountEvent::Saved);
        assert_eq!(run.result(), Err(error.clone()));
        assert_eq!(saved_account(Some(text.to_string())).err(), Some(error));
    }
    assert!(saved_account(None).unwrap().is_none());
    assert!(saved_account(Some(SAVED.to_string())).unwrap().is_some());
}

#[test]
fn a_new_account_is_saved_and_used_again_after_a_restart() {
    let mut run = AccountRun::new();
    assert!(run.report(read(None)).is_none());
    assert_eq!(run.stage(), AccountStage::Create);
    let created = saved_account(Some(SAVED.to_string())).unwrap().unwrap();
    run.report(AccountEvent::Created(created));
    assert_eq!(run.stage(), AccountStage::Save);
    let text = run.text().to_string();
    assert_eq!(text, SAVED);
    run.report(AccountEvent::Saved);
    assert_eq!(run.stage(), AccountStage::Finished);
    assert_eq!(run.result(), Ok(()));

    let mut next = AccountRun::new();
    let restored = next.report(read(Some(&text))).expect("the account was saved");
    assert_eq!(restored.private_key().secret_pkcs8_der(), b"key");
    assert_eq!(next.stage(), AccountStage::Restore);
}

#[test]
fn an_account_of_an_older_file_is_written_down_with_its_urls() {
    let old = r#"{"id":"a","key_pkcs8":"a2V5","urls":{"newNonce":"n","newAccount":"c","newOrder":"o"}}"#;
    let mut run = AccountRun::new();
    run.report(read(None));
    run.report(AccountEvent::Created(saved_account(Some(old.to_string())).unwrap().unwrap()));
    let text = run.text().to_string();
    assert!(text.contains(r#""newOrder":"o""#), "got: {text}");
    let mut next = AccountRun::new();
    assert!(next.report(read(Some(&text))).is_some());
}

#[test]
fn a_step_that_fails_ends_the_way_to_an_account() {
    let failure = || AcmeError::RateLimited("later".to_string());
    let mut run = AccountRun::new();
    run.report(AccountEvent::Failed(failure()));
    assert_eq!(run.stage(), AccountStage::ReadFile, "a file that cannot be read is no failure");
    run.report(read(Some(SAVED)));
    run.report(AccountEvent::Failed(failure()));
    assert_eq!(run.stage(), AccountStage::Finished);
    assert_eq!(run.result(), Err(failure()));

    let mut run = AccountRun::new();
    run.report(read(None));
    run.report(AccountEvent::Failed(failure()));
    assert_eq!(run.result(), Err(failure()));

    let mut run = AccountRun::new();
    run.report(read(None));
    run.report(AccountEvent::Created(saved_account(Some(SAVED.to_string())).unwrap().unwrap()));
    run.report(AccountEvent::Failed(AcmeError::Request("disk full".to_string())));
    assert_eq!(run.stage(), AccountStage::Finished);
    assert_eq!(run.result(), Err(AcmeError::Request("disk full".to_string())));
}

#[test]
fn credentials_that_cannot_be_written_down_are_an_error() {
    assert_eq!(written_account(Ok("{}".to_string())), Ok("{}".to_string()));
    assert_eq!(
        written_account(Err("e".to_string())),
        Err(AcmeError::Request("failed to serialize account credentials: e".to_string()))
    );
}
