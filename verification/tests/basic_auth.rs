use base64::engine::general_purpose::STANDARD;
use base64::Engine;
use keel::dashboard::basic_auth::{check, check_decoded};

fn header_for(user: &str, password: &str) -> String {
    format!("Basic {}", STANDARD.encode(format!("{user}:{password}")))
}

#[test]
fn correct_credentials_pass() {
    assert!(check(Some(&header_for("admin", "hunter2")), "admin", "hunter2"));
}

#[test]
fn wrong_password_fails() {
    assert!(!check(Some(&header_for("admin", "wrong")), "admin", "hunter2"));
}

#[test]
fn wrong_user_fails() {
    assert!(!check(Some(&header_for("someone-else", "hunter2")), "admin", "hunter2"));
}

#[test]
fn missing_header_fails() {
    assert!(!check(None, "admin", "hunter2"));
}

#[test]
fn non_basic_scheme_fails() {
    assert!(!check(Some("Bearer sometoken"), "admin", "hunter2"));
}

#[test]
fn malformed_base64_fails() {
    assert!(!check(Some("Basic not-valid-base64!!"), "admin", "hunter2"));
}

#[test]
fn missing_colon_separator_fails() {
    assert!(!check(Some(&format!("Basic {}", STANDARD.encode("no-colon-here"))), "admin", "hunter2"));
}
