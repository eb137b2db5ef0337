use keel::dashboard::tls::{
    browser_server_config, certs_found, client_config, client_config_found, crls_found, key_found,
    load_browser_server_config, load_certs, load_client_config, load_crls, load_private_key, load_root_store,
    roots_found, server_config_found, verifier_found, FileRead, KeyDer,
};
use rcgen::{
    BasicConstraints, CertificateParams, CertificateRevocationListParams, IsCa, KeyIdMethod, KeyPair, KeyUsagePurpose,
    SerialNumber,
};

fn contents(text: &str) -> FileRead {
    FileRead::Contents(text.as_bytes().to_vec())
}

#[test]
fn certificates_are_found_among_other_sections() {
    let key = KeyPair::generate().unwrap();
    let params = CertificateParams::new(vec!["example.com".to_string()]).unwrap();
    let cert = params.self_signed(&key).unwrap();
    let pem = format!("{}{}{}", cert.pem(), key.serialize_pem(), cert.pem());
    let found = load_certs("node.crt", contents(&pem)).unwrap();
    assert_eq!(found, vec![cert.der().to_vec(), cert.der().to_vec()]);
    assert_eq!(load_private_key("node.key", contents(&pem)), Ok(KeyDer::Pkcs8(key.serialize_der())));
    assert_eq!(
        load_certs("node.key", contents(&key.serialize_pem())),
        Err("failed to find any PEM-encoded certificates in node.key".to_string())
    );
    assert_eq!(
        load_private_key("node.crt", contents(&cert.pem())),
        Err("no private key found in node.crt".to_string())
    );
    assert_eq!(
        load_crls("node.crt", contents(&cert.pem())),
        Err("failed to find a PEM-encoded CRL in node.crt".to_string())
    );
}

#[test]
fn revocation_lists_are_found() {
    let key = KeyPair::generate().unwrap();
    let mut params = CertificateParams::new(Vec::<String>::new()).unwrap();
    params.is_ca = IsCa::Ca(BasicConstraints::Unconstrained);
    params.key_usages = vec![KeyUsagePurpose::CrlSign, KeyUsagePurpose::KeyCertSign];
    let ca = params.self_signed(&key).unwrap();
    let crl = CertificateRevocationListParams {
        this_update: time::OffsetDateTime::from_unix_timestamp(1_800_000_000).unwrap(),
        next_update: time::OffsetDateTime::from_unix_timestamp(1_900_000_000).unwrap(),
        crl_number: SerialNumber::from(1u64),
        issuing_distribution_point: None,
        revoked_certs: vec![],
        key_identifier_method: KeyIdMethod::Sha256,
    }
    .signed_by(&ca, &key)
    .unwrap();
    let found = load_crls("crl.pem", contents(&crl.pem().unwrap())).unwrap();
    assert_eq!(found, vec![crl.der().to_vec()]);
}

#[test]
fn every_section_of_a_key_names_its_format() {
    let section = |name: &str| contents(&format!("-----BEGIN {name}-----\nAQID\n-----END {name}-----\n"));
    assert_eq!(load_private_key("k", section("RSA PRIVATE KEY")), Ok(KeyDer::Pkcs1(vec![1, 2, 3])));
    assert_eq!(load_private_key("k", section("EC PRIVATE KEY")), Ok(KeyDer::Sec1(vec![1, 2, 3])));
    assert_eq!(load_private_key("k", section("PRIVATE KEY")), Ok(KeyDer::Pkcs8(vec![1, 2, 3])));
}

#[test]
fn a_file_that_cannot_be_used_is_named() {
    let missing = || FileRead::NotOpened("no such file".to_string());
    assert_eq!(
        load_certs("does-not-exist.crt", missing()),
        Err("failed to open certificate file does-not-exist.crt: no such file".to_string())
    );
    assert_eq!(
        load_private_key("does-not-exist.key", missing()),
        Err("failed to open key file does-not-exist.key: no such file".to_string())
    );
    assert_eq!(load_crls("crl.pem", missing()), Err("failed to open CRL file crl.pem: no such file".to_string()));
    let broken = || Err("I/O error".to_string());
    assert_eq!(certs_found("a", broken()), Err("failed to parse certificate file a: I/O error".to_string()));
    assert_eq!(crls_found("a", broken()), Err("failed to parse CRL file a: I/O error".to_string()));
    let broken = Err("I/O error".to_string());
    assert_eq!(key_found("a", broken), Err("failed to parse key file a: I/O error".to_string()));
    let cut = "-----BEGIN CERTIFICATE-----\nAQID\n";
    let message = load_certs("a", contents(cut)).unwrap_err();
    assert!(message.starts_with("failed to parse certificate file a: "), "got: {message}");
}

#[test]
fn what_was_found_decides() {
    let some = || Ok(vec![vec![1]]);
    assert_eq!(certs_found("p", some()), some());
    assert_eq!(crls_found("p", some()), some());
    assert_eq!(key_found("p", Ok(Some(KeyDer::Other(vec![1])))), Ok(KeyDer::Other(vec![1])));
    assert_eq!(certs_found("p", Err("e".to_string())), Err("failed to parse certificate file p: e".to_string()));
    assert_eq!(crls_found("p", Ok(vec![])), Err("failed to find a PEM-encoded CRL in p".to_string()));
    assert_eq!(key_found("p", Ok(None)), Err("no private key found in p".to_string()));
}

fn missing() -> FileRead {
    FileRead::NotOpened("No such file or directory (os error 2)".to_string())
}

struct Fixtures {
    cert: String,
    key: String,
    other_key: String,
    ca: String,
    crl: String,
}

fn fixtures() -> Fixtures {
    let ca_key = KeyPair::generate().unwrap();
    let mut params = CertificateParams::new(Vec::<String>::new()).unwrap();
    params.is_ca = IsCa::Ca(BasicConstraints::Unconstrained);
    params.key_usages = vec![KeyUsagePurpose::CrlSign, KeyUsagePurpose::KeyCertSign];
    let ca = params.self_signed(&ca_key).unwrap();
    let key = KeyPair::generate().unwrap();
    let cert =
        CertificateParams::new(vec!["node.example".to_string()]).unwrap().signed_by(&key, &ca, &ca_key).unwrap();
    let crl = CertificateRevocationListParams {
        this_update: time::OffsetDateTime::from_unix_timestamp(1_800_000_000).unwrap(),
        next_update: time::OffsetDateTime::from_unix_timestamp(1_900_000_000).unwrap(),
        crl_number: SerialNumber::from(1u64),
        issuing_distribution_point: None,
        revoked_certs: vec![],
        key_identifier_method: KeyIdMethod::Sha256,
    }
    .signed_by(&ca, &ca_key)
    .unwrap();
    Fixtures {
        cert: cert.pem(),
        key: key.serialize_pem(),
        other_key: KeyPair::generate().unwrap().serialize_pem(),
        ca: ca.pem(),
        crl: crl.pem().unwrap(),
    }
}

/// A section with bytes that are no certificate, key or revocation list.
fn junk(section: &str) -> FileRead {
    contents(&format!("-----BEGIN {section}-----\nAQID\n-----END {section}-----\n"))
}

#[test]
fn load_client_config_succeeds_with_valid_fixtures() {
    let f = fixtures();
    load_client_config(
        "fixture-client.crt",
        contents(&f.cert),
        "fixture-client.key",
        contents(&f.key),
        "ca.crt",
        contents(&f.ca),
        "crl.pem",
        contents(&f.crl),
    )
    .expect("expected a valid client config");
}

#[test]
fn load_client_config_fails_on_a_missing_cert_file() {
    let f = fixtures();
    let err = load_client_config(
        "does-not-exist.crt",
        missing(),
        "fixture-client.key",
        contents(&f.key),
        "ca.crt",
        contents(&f.ca),
        "crl.pem",
        contents(&f.crl),
    )
    .unwrap_err();
    assert!(err.contains("does-not-exist.crt"), "got: {err}");
}

#[test]
fn load_browser_server_config_succeeds_with_a_bare_cert_and_key_and_no_ca() {
    let f = fixtures();
    load_browser_server_config("fixture-node.crt", contents(&f.cert), "fixture-node.key", contents(&f.key))
        .expect("expected a valid server config with no client-cert verification");
}

#[test]
fn load_browser_server_config_fails_on_a_missing_key_file() {
    let f = fixtures();
    let err = load_browser_server_config("fixture-node.crt", contents(&f.cert), "does-not-exist.key", missing())
        .unwrap_err();
    assert!(err.contains("does-not-exist.key"), "got: {err}");
}

#[test]
fn a_client_is_told_the_first_thing_that_is_missing() {
    let f = fixtures();
    let config = |cert: FileRead, key: FileRead, ca: FileRead, crl: FileRead| {
        load_client_config("c", cert, "k", key, "a", ca, "l", crl).unwrap_err()
    };
    let cert = || contents(&f.cert);
    let key = || contents(&f.key);
    let ca = || contents(&f.ca);
    let gone = "No such file or directory (os error 2)";
    assert_eq!(
        config(missing(), missing(), missing(), missing()),
        format!("failed to open certificate file c: {gone}")
    );
    assert_eq!(config(cert(), missing(), missing(), missing()), format!("failed to open key file k: {gone}"));
    assert_eq!(config(cert(), key(), missing(), missing()), format!("failed to open certificate file a: {gone}"));
    assert_eq!(config(cert(), key(), ca(), missing()), format!("failed to open CRL file l: {gone}"));
    let message = config(cert(), key(), junk("CERTIFICATE"), missing());
    assert!(message.starts_with("failed to add CA certificate from a: "), "got: {message}");
    let message = config(cert(), contents(&f.other_key), ca(), junk("X509 CRL"));
    assert!(message.starts_with("failed to build server certificate verifier: "), "got: {message}");
    let message = config(cert(), contents(&f.other_key), ca(), contents(&f.crl));
    assert!(message.starts_with("failed to build TLS client config: "), "got: {message}");
}

#[test]
fn the_first_authority_that_cannot_be_trusted_is_told() {
    let f = fixtures();
    let roots = load_root_store("ca.crt", contents(&format!("{}{}", f.ca, f.ca))).unwrap();
    assert_eq!(roots.len(), 2);
    let ca = load_certs("ca.crt", contents(&f.ca)).unwrap().remove(0);
    let alone = roots_found("a", Ok(vec![vec![1, 2, 3]])).unwrap_err();
    assert_eq!(roots_found("a", Ok(vec![ca.clone(), vec![1, 2, 3], vec![]])).unwrap_err(), alone);
    assert_eq!(roots_found("a", Ok(vec![ca, vec![]])).is_err(), true);
    assert_eq!(roots_found("a", Err("none".to_string())).unwrap_err(), "none");
    assert_eq!(roots_found("a", Ok(vec![])).unwrap().len(), 0);
}

#[test]
fn a_server_for_browsers_is_told_the_first_thing_that_is_missing() {
    let f = fixtures();
    let config = |cert: FileRead, key: FileRead| load_browser_server_config("c", cert, "k", key).unwrap_err();
    let gone = "No such file or directory (os error 2)";
    assert_eq!(config(missing(), missing()), format!("failed to open certificate file c: {gone}"));
    assert_eq!(config(contents(&f.cert), missing()), format!("failed to open key file k: {gone}"));
    for key in [contents(&f.other_key), junk("PRIVATE KEY"), junk("EC PRIVATE KEY"), junk("RSA PRIVATE KEY")] {
        let message = config(contents(&f.cert), key);
        assert!(message.starts_with("failed to build TLS server config: "), "got: {message}");
    }
}

#[test]
fn what_was_built_decides() {
    let f = fixtures();
    let built = browser_server_config(
        load_certs("c", contents(&f.cert)),
        load_private_key("k", contents(&f.key)),
    );
    assert!(server_config_found(built).is_ok());
    let reason = || "e".to_string();
    assert_eq!(server_config_found(Err(reason())).unwrap_err(), "failed to build TLS server config: e");
    assert_eq!(client_config_found(Err(reason())).unwrap_err(), "failed to build TLS client config: e");
    assert_eq!(verifier_found(Err(reason())).unwrap_err(), "failed to build server certificate verifier: e");
    let no_authority = client_config(
        load_certs("c", contents(&f.cert)),
        load_private_key("k", contents(&f.key)),
        roots_found("a", Ok(vec![])),
        load_crls("l", contents(&f.crl)),
    );
    assert_eq!(
        no_authority.unwrap_err(),
        "failed to build server certificate verifier: no root trust anchors were provided"
    );
    assert_eq!(browser_server_config(Err(reason()), Err("f".to_string())).unwrap_err(), "e");
}
