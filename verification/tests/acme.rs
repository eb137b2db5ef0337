use keel::ingress::acme::{
    cert_from, challenge_name, classify_acme_error, contact_of, expiry_from, AcmeClient, AcmeError, Cert, FakeAcmeClient,
    FAKE_ISSUANCE_EPOCH_UNIX,
};
use keel::ingress::dns::{DnsError, DnsProvider, FakeDnsProvider};
use keel::ingress::order::{OrderEvent, OrderRun, OrderStage};

fn cert_with_expiry(not_before: i64, not_after: i64) -> String {
    let key_pair = rcgen::KeyPair::generate().unwrap();
    let mut params = rcgen::CertificateParams::new(vec!["example.com".to_string()]).unwrap();
    params.not_before = time::OffsetDateTime::from_unix_timestamp(not_before).unwrap();
    params.not_after = time::OffsetDateTime::from_unix_timestamp(not_after).unwrap();
    params.self_signed(&key_pair).unwrap().pem()
}

#[test]
fn expires_at_unix_parses_the_real_certificates_not_after() {
    let not_after = 1_900_000_000;
    let cert = Cert { cert_pem: cert_with_expiry(1_800_000_000, not_after), key_pem: String::new() };
    assert_eq!(cert.expires_at_unix().unwrap(), not_after);
}

#[test]
fn expires_at_unix_on_unparseable_pem_returns_an_error() {
    let cert = Cert { cert_pem: "not a real certificate".to_string(), key_pem: String::new() };
    assert!(cert.expires_at_unix().is_err());
}

#[test]
fn both_kinds_of_unreadable_certificates_are_told_apart() {
    let no_pem = Cert { cert_pem: "not a real certificate".to_string(), key_pem: String::new() };
    match no_pem.expires_at_unix() {
        Err(AcmeError::Request(m)) => assert!(m.starts_with("failed to parse certificate PEM: "), "got: {m}"),
        other => panic!("got: {other:?}"),
    }
    let no_cert = Cert {
        cert_pem: "-----BEGIN CERTIFICATE-----\nAAAA\n-----END CERTIFICATE-----\n".to_string(),
        key_pem: String::new(),
    };
    match no_cert.expires_at_unix() {
        Err(AcmeError::Request(m)) => {
            assert!(m.starts_with("failed to parse certificate: "), "got: {m}")
        }
        other => panic!("got: {other:?}"),
    }
    assert_eq!(expiry_from(Ok(Ok(7))), Ok(7));
    assert_eq!(
        expiry_from(Ok(Err("x".to_string()))),
        Err(AcmeError::Request("failed to parse certificate: x".to_string()))
    );
    assert_eq!(
        expiry_from(Err("x".to_string())),
        Err(AcmeError::Request("failed to parse certificate PEM: x".to_string()))
    );
}

#[test]
fn an_end_beyond_the_years_of_two_digits_is_read_as_well() {
    for not_after in [1_800_000_001, 2_524_607_999, 2_524_608_000, 253_402_300_799] {
        let cert = Cert { cert_pem: cert_with_expiry(1_800_000_000, not_after), key_pem: String::new() };
        assert_eq!(cert.expires_at_unix(), Ok(not_after));
    }
}

#[test]
fn request_certificate_succeeds_and_drives_the_dns_challenge() {
    let mut dns = FakeDnsProvider::new();
    let mut acme = FakeAcmeClient::new();
    let cert = acme.request_certificate("example.com", "admin@example.com", &mut dns).unwrap();
    let expires_at = cert.expires_at_unix().expect("expected a real, parseable certificate");
    assert_eq!(expires_at, FAKE_ISSUANCE_EPOCH_UNIX + 90 * 24 * 60 * 60);
    assert!(dns.wait_for_propagation("_acme-challenge.example.com", "fake-token").is_err());
}

#[test]
fn request_certificate_can_be_made_to_fail_for_backoff_tests() {
    let mut dns = FakeDnsProvider::new();
    let mut acme = FakeAcmeClient::new();
    acme.set_fail(true);
    assert!(acme.request_certificate("example.com", "admin@example.com", &mut dns).is_err());
}

#[test]
fn request_certificate_surfaces_a_dns_provider_failure() {
    let mut dns = FakeDnsProvider::new();
    dns.set_fail_create(true);
    let mut acme = FakeAcmeClient::new();
    assert!(matches!(
        acme.request_certificate("example.com", "admin@example.com", &mut dns),
        Err(AcmeError::Dns(_))
    ));
}

#[test]
fn a_renewed_certificate_ends_a_day_later() {
    let mut dns = FakeDnsProvider::new();
    let mut acme = FakeAcmeClient::new();
    let first = acme.request_certificate("example.com", "a@b", &mut dns).unwrap().expires_at_unix().unwrap();
    let second = acme.request_certificate("example.com", "a@b", &mut dns).unwrap().expires_at_unix().unwrap();
    assert_eq!(second, first + 86_400);
    acme.set_fail(true);
    assert_eq!(
        acme.request_certificate("example.com", "a@b", &mut dns),
        Err(AcmeError::Request("simulated ACME failure for 'example.com'".to_string()))
    );
    acme.set_fail(false);
    let third = acme.request_certificate("example.com", "a@b", &mut dns).unwrap();
    assert_eq!(third.expires_at_unix(), Ok(second + 86_400));
    assert!(third.key_pem.contains("PRIVATE KEY"));
}

#[test]
fn the_nth_certificate_ends_after_its_days_whatever_failed_before() {
    let mut dns = FakeDnsProvider::new();
    let mut acme = FakeAcmeClient::new();
    for n in 1..=3 {
        dns.set_fail_create(true);
        assert!(acme.request_certificate("example.com", "a@b", &mut dns).is_err());
        dns.set_fail_create(false);
        acme.set_fail(true);
        assert!(acme.request_certificate("example.com", "a@b", &mut dns).is_err());
        acme.set_fail(false);
        let refused = acme.request_certificate("b\u{fc}cher.example", "a@b", &mut dns);
        assert!(matches!(refused, Err(AcmeError::Request(_))), "a name that no certificate can carry");
        let cert = acme.request_certificate("example.com", "a@b", &mut dns).unwrap();
        assert_eq!(cert.expires_at_unix(), Ok(1_800_000_000 + (n + 89) * 86_400));
    }
}

#[test]
fn what_was_signed_decides_what_is_answered() {
    let cert = cert_from(Ok(("cert".to_string(), "key".to_string()))).unwrap();
    assert_eq!((cert.cert_pem.as_str(), cert.key_pem.as_str()), ("cert", "key"));
    assert_eq!(cert_from(Err("no entropy".to_string())), Err(AcmeError::Request("no entropy".to_string())));
}

fn problem_text(kind: &str, detail: &str, status: u16) -> String {
    let json = format!("{{\"type\":\"{kind}\",\"detail\":\"{detail}\",\"status\":{status}}}");
    let problem: instant_acme::Problem = serde_json::from_str(&json).unwrap();
    instant_acme::Error::from(problem).to_string()
}

#[test]
fn convert_acme_error_recognizes_a_rate_limited_problem() {
    let kind = "urn:ietf:params:acme:error:rateLimited";
    let text = problem_text(kind, "too many certificates already issued", 429);
    assert_eq!(classify_acme_error(Some(kind), text.clone()), AcmeError::RateLimited(text));
}

#[test]
fn convert_acme_error_treats_every_other_problem_type_as_a_generic_request_failure() {
    let kind = "urn:ietf:params:acme:error:malformed";
    let text = problem_text(kind, "invalid identifier", 400);
    assert_eq!(classify_acme_error(Some(kind), text.clone()), AcmeError::Request(text.clone()));
    assert_eq!(classify_acme_error(None, text.clone()), AcmeError::Request(text));
}

fn at(run: &mut OrderRun, stage: OrderStage, event: OrderEvent) {
    assert_eq!(run.stage(), stage);
    run.report(event);
}

#[test]
fn an_order_answers_every_challenge_and_ends_with_the_certificate() {
    assert_eq!(challenge_name("example.com"), "_acme-challenge.example.com");
    assert_eq!(contact_of("admin@example.com"), "mailto:admin@example.com");
    let mut run = OrderRun::new("example.com");
    for value in ["one", "two"] {
        at(&mut run, OrderStage::NextAuthorization, OrderEvent::Challenge(value.to_string()));
        assert_eq!(run.value(), value);
        at(&mut run, OrderStage::CreateRecord, OrderEvent::Done);
        at(&mut run, OrderStage::WaitForPropagation, OrderEvent::Done);
        at(&mut run, OrderStage::SetReady, OrderEvent::Done);
    }
    at(&mut run, OrderStage::NextAuthorization, OrderEvent::NoMore);
    at(&mut run, OrderStage::PollReady, OrderEvent::Status(true, "Ready".to_string()));
    at(&mut run, OrderStage::Finalize, OrderEvent::Text("key".to_string()));
    at(&mut run, OrderStage::Download, OrderEvent::Text("cert".to_string()));
    at(&mut run, OrderStage::DeleteRecord, OrderEvent::Failed(AcmeError::Dns(DnsError("gone".to_string()))));
    assert_eq!(run.stage(), OrderStage::Finished);
    assert_eq!(
        run.outcome(),
        Some(Ok(Cert { cert_pem: "cert".to_string(), key_pem: "key".to_string() }))
    );
}

#[test]
fn a_failed_order_deletes_the_record_that_it_created() {
    let mut run = OrderRun::new("example.com");
    at(&mut run, OrderStage::NextAuthorization, OrderEvent::Challenge("one".to_string()));
    at(&mut run, OrderStage::CreateRecord, OrderEvent::Done);
    let timeout = AcmeError::Dns(DnsError("timeout".to_string()));
    at(&mut run, OrderStage::WaitForPropagation, OrderEvent::Failed(timeout.clone()));
    at(&mut run, OrderStage::DeleteRecord, OrderEvent::Done);
    assert_eq!(run.stage(), OrderStage::Finished);
    assert_eq!(run.outcome(), Some(Err(timeout)));

    let mut run = OrderRun::new("example.com");
    at(&mut run, OrderStage::NextAuthorization, OrderEvent::Challenge("one".to_string()));
    let refused = AcmeError::Dns(DnsError("refused".to_string()));
    at(&mut run, OrderStage::CreateRecord, OrderEvent::Failed(refused.clone()));
    assert_eq!(run.stage(), OrderStage::Finished, "there is no record to delete");
    assert_eq!(run.outcome(), Some(Err(refused)));
}

#[test]
fn an_order_has_no_outcome_before_it_is_finished() {
    assert_eq!(OrderRun::new("example.com").outcome(), None);
    let mut run = OrderRun::new("example.com");
    at(&mut run, OrderStage::NextAuthorization, OrderEvent::Challenge("one".to_string()));
    at(&mut run, OrderStage::CreateRecord, OrderEvent::Done);
    at(&mut run, OrderStage::WaitForPropagation, OrderEvent::Failed(AcmeError::Request("x".to_string())));
    assert_eq!(run.stage(), OrderStage::DeleteRecord);
    assert_eq!(run.outcome(), None);
}

#[test]
fn an_order_without_a_challenge_or_that_is_not_ready_says_so() {
    let mut run = OrderRun::new("example.com");
    at(&mut run, OrderStage::NextAuthorization, OrderEvent::NoChallenge);
    let message = "no DNS-01 challenge offered for 'example.com'".to_string();
    assert_eq!(run.outcome(), Some(Err(AcmeError::Request(message))));

    let mut run = OrderRun::new("example.com");
    at(&mut run, OrderStage::NextAuthorization, OrderEvent::NoMore);
    at(&mut run, OrderStage::PollReady, OrderEvent::Status(false, "Invalid".to_string()));
    let message = "order did not become ready, status: Invalid".to_string();
    assert_eq!(run.outcome(), Some(Err(AcmeError::Request(message))));
}

#[test]
fn acme_errors_are_put_in_words() {
    assert_eq!(AcmeError::Dns(DnsError("x".to_string())).message(), "DNS-01 challenge failed: x");
    assert_eq!(AcmeError::Request("x".to_string()).message(), "ACME request failed: x");
    assert_eq!(AcmeError::RateLimited("x".to_string()).message(), "ACME server rate limit exceeded: x");
}
