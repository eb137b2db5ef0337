use keel::dashboard::args::{parse_args_from, ArgsError};
use keel::decimal::{number_error, parse_unsigned, NumberError};

fn args(strs: &[&str]) -> Vec<String> {
    strs.iter().map(|s| s.to_string()).collect()
}

fn full_args() -> Vec<&'static str> {
    vec![
        "--control-plane-addr", "10.0.0.1:7620",
        "--tls-ca-file", "/etc/keel/ca.crt",
        "--tls-cert-file", "/etc/keel/dashboard.crt",
        "--tls-key-file", "/etc/keel/dashboard.key",
        "--tls-crl-file", "/etc/keel/crl.pem",
        "--dashboard-tls-cert-file", "/etc/keel/dashboard-browser.crt",
        "--dashboard-tls-key-file", "/etc/keel/dashboard-browser.key",
    ]
}

#[test]
fn parses_all_required_flags_and_applies_defaults() {
    let config = parse_args_from(args(&full_args())).unwrap();
    assert_eq!(config.control_plane_addr, Some("10.0.0.1:7620".to_string()));
    assert_eq!(config.listen_addr, "0.0.0.0:8443");
    assert_eq!(config.poll_interval_secs, 5);
}

#[test]
fn parses_a_custom_poll_interval() {
    let mut full = full_args();
    full.extend(["--poll-interval-secs", "10"]);
    let config = parse_args_from(args(&full)).unwrap();
    assert_eq!(config.poll_interval_secs, 10);
}

#[test]
#[should_panic(expected = "--control-plane-addr, --tls-ca-file, --tls-cert-file, --tls-key-file, and --tls-crl-file are all required")]
fn missing_control_plane_tls_flag_panics() {
    if let Err(e) = parse_args_from(args(&["--tls-ca-file", "/etc/keel/ca.crt"])) {
        panic!("{}", e.message());
    }
}

#[test]
#[should_panic(expected = "--dashboard-tls-cert-file and --dashboard-tls-key-file are required")]
fn missing_dashboard_tls_flag_panics() {
    let mut partial: Vec<&str> = full_args().into_iter().take(10).collect();
    partial.retain(|f| *f != "--dashboard-tls-cert-file" && *f != "/etc/keel/dashboard-browser.crt");
    if let Err(e) = parse_args_from(args(&partial)) {
        panic!("{}", e.message());
    }
}

#[test]
fn every_mistake_on_the_command_line_is_told() {
    assert_eq!(parse_args_from(args(&["--listen-addr"])), Err(ArgsError::MissingValue("--listen-addr".to_string())));
    assert_eq!(parse_args_from(args(&["--nope", "x"])), Err(ArgsError::UnknownFlag("--nope".to_string())));
    assert_eq!(
        parse_args_from(args(&["--poll-interval-secs", "soon"])),
        Err(ArgsError::InvalidPollInterval("soon".to_string(), NumberError::InvalidDigit))
    );
    assert_eq!(ArgsError::MissingValue("--x".to_string()).message(), "missing value for --x");
    assert_eq!(ArgsError::UnknownFlag("--x".to_string()).message(), "unknown flag: --x");
    let reason = "soon".parse::<u64>().unwrap_err();
    assert_eq!(
        parse_args_from(args(&["--poll-interval-secs", "soon"])).unwrap_err().message(),
        format!("invalid --poll-interval-secs 'soon': {reason}")
    );
}

#[test]
fn numbers_and_their_errors_are_those_of_the_standard_library() {
    let max = "18446744073709551615";
    let texts = [
        "", "+", "-", "0", "+7", "-7", "007", "1_0", " 1", "12x", "x12", max, "18446744073709551616",
        "99999999999999999999x", "1844674407370955161x", "184467440737095516150",
    ];
    for text in texts {
        let expected = text.parse::<u64>();
        assert_eq!(parse_unsigned(text, u64::MAX), expected.clone().ok(), "{text}");
        let error = number_error(text, u64::MAX).map(|e| e.message().to_string());
        assert_eq!(error, expected.err().map(|e| e.to_string()), "{text}");
    }
    assert_eq!(parse_unsigned("256", 255), None);
    assert_eq!(number_error("256", 255), Some(NumberError::TooLarge));
}

#[test]
fn a_flag_that_is_given_twice_counts_the_second_time() {
    let mut full = full_args();
    full.extend(["--listen-addr", "a:1", "--listen-addr", "b:2", "--poll-interval-secs", "0"]);
    let config = parse_args_from(args(&full)).unwrap();
    assert_eq!(config.listen_addr, "b:2");
    assert_eq!(config.poll_interval_secs, 0);
}
