//! What the command line, requests and responses say, told by their parts.

use crate::dashboard::args::{ArgsErrorView, ConfigView};
use crate::dashboard::basic_auth::granted;
use crate::dashboard::http::{
    content_length, host_of, is_last_colon, ok_body, reason_of, request_step, request_text_of, response_head_text,
    response_of, route_of, same_but_case, value_of, HeaderView, ParsedRequestView, RequestHeadView, RequestStepView,
    ResponseHeadView, Route,
};
use crate::decimal::{decimal, law_errors_tell_numbers_apart, number_error_of, unsigned_of};
use crate::text::{text_of, trimmed};
use vstd::prelude::*;
use vstd::utf8::{decode_utf8, valid_utf8};

verus! {

/// A flag stands at a place of a command line with a value behind it: flags stand at every other place.
pub open spec fn flag_at(args: Seq<Seq<char>>, flag: Seq<char>, k: int) -> bool {
    0 <= k && k % 2 == 0 && k + 1 < args.len() && args[k] == flag
}

/// The last time that a flag is given.
pub open spec fn is_last_time(args: Seq<Seq<char>>, flag: Seq<char>, k: int) -> bool {
    flag_at(args, flag, k) && forall|j: int| j > k ==> !#[trigger] flag_at(args, flag, j)
}

/// What a command line says of a flag: the value that it is given last, or nothing.
pub open spec fn is_given(args: Seq<Seq<char>>, flag: Seq<char>, value: Option<Seq<char>>) -> bool {
    match value {
        Some(v) => exists|k: int| #[trigger] is_last_time(args, flag, k) && args[k + 1] == v,
        None => forall|k: int| !#[trigger] flag_at(args, flag, k),
    }
}

/// A flag that there is.
pub open spec fn is_known_flag(flag: Seq<char>) -> bool {
    flag == "--control-plane-addr"@ || flag == "--tls-ca-file"@ || flag == "--tls-cert-file"@ || flag == "--tls-key-file"@ || flag == "--tls-crl-file"@ || flag == "--dashboard-tls-cert-file"@ || flag == "--dashboard-tls-key-file"@ || flag == "--listen-addr"@ || flag == "--poll-interval-secs"@
}

/// The flag at a place and its value are no error.
pub open spec fn is_fine(args: Seq<Seq<char>>, k: int) -> bool {
    &&& is_known_flag(args[k])
    &&& args[k] == "--poll-interval-secs"@ ==> unsigned_of(args[k + 1], u64::MAX as nat) is Some
}

/// All flags before a place, and their values, are no error.
pub open spec fn fine_before(args: Seq<Seq<char>>, n: int) -> bool {
    forall|k: int| 0 <= k < n && k % 2 == 0 ==> #[trigger] is_fine(args, k)
}

/// What a configuration says of a flag that has no default.
pub open spec fn setting(c: ConfigView, flag: Seq<char>) -> Option<Seq<char>> {
    if flag == "--control-plane-addr"@ {
        c.control_plane_addr
    } else if flag == "--tls-ca-file"@ {
        c.tls_ca_file
    } else if flag == "--tls-cert-file"@ {
        c.tls_cert_file
    } else if flag == "--tls-key-file"@ {
        c.tls_key_file
    } else if flag == "--tls-crl-file"@ {
        c.tls_crl_file
    } else if flag == "--dashboard-tls-cert-file"@ {
        c.dashboard_tls_cert_file
    } else if flag == "--dashboard-tls-key-file"@ {
        c.dashboard_tls_key_file
    } else {
        None
    }
}

proof fn lemma_flags_differ()
    ensures
        "--control-plane-addr"@ != "--tls-ca-file"@,
        "--control-plane-addr"@ != "--tls-cert-file"@,
        "--control-plane-addr"@ != "--tls-key-file"@,
        "--control-plane-addr"@ != "--tls-crl-file"@,
        "--control-plane-addr"@ != "--dashboard-tls-cert-file"@,
        "--control-plane-addr"@ != "--dashboard-tls-key-file"@,
        "--control-plane-addr"@ != "--listen-addr"@,
        "--control-plane-addr"@ != "--poll-interval-secs"@,
        "--tls-ca-file"@ != "--tls-cert-file"@,
        "--tls-ca-file"@ != "--tls-key-file"@,
        "--tls-ca-file"@ != "--tls-crl-file"@,
        "--tls-ca-file"@ != "--dashboard-tls-cert-file"@,
        "--tls-ca-file"@ != "--dashboard-tls-key-file"@,
        "--tls-ca-file"@ != "--listen-addr"@,
        "--tls-ca-file"@ != "--poll-interval-secs"@,
        "--tls-cert-file"@ != "--tls-key-file"@,
        "--tls-cert-file"@ != "--tls-crl-file"@,
        "--tls-cert-file"@ != "--dashboard-tls-cert-file"@,
        "--tls-cert-file"@ != "--dashboard-tls-key-file"@,
        "--tls-cert-file"@ != "--listen-addr"@,
        "--tls-cert-file"@ != "--poll-interval-secs"@,
        "--tls-key-file"@ != "--tls-crl-file"@,
        "--tls-key-file"@ != "--dashboard-tls-cert-file"@,
        "--tls-key-file"@ != "--dashboard-tls-key-file"@,
        "--tls-key-file"@ != "--listen-addr"@,
        "--tls-key-file"@ != "--poll-interval-secs"@,
        "--tls-crl-file"@ != "--dashboard-tls-cert-file"@,
        "--tls-crl-file"@ != "--dashboard-tls-key-file"@,
        "--tls-crl-file"@ != "--listen-addr"@,
        "--tls-crl-file"@ != "--poll-interval-secs"@,
        "--dashboard-tls-cert-file"@ != "--dashboard-tls-key-file"@,
        "--dashboard-tls-cert-file"@ != "--listen-addr"@,
        "--dashboard-tls-cert-file"@ != "--poll-interval-secs"@,
        "--dashboard-tls-key-file"@ != "--listen-addr"@,
        "--dashboard-tls-key-file"@ != "--poll-interval-secs"@,
        "--listen-addr"@ != "--poll-interval-secs"@,
{
    reveal_strlit("--control-plane-addr");
    assert("--control-plane-addr"@.len() == 20);
    reveal_strlit("--tls-ca-file");
    assert("--tls-ca-file"@.len() == 13);
    reveal_strlit("--tls-cert-file");
    assert("--tls-cert-file"@.len() == 15);
    reveal_strlit("--tls-key-file");
    assert("--tls-key-file"@.len() == 14);
    reveal_strlit("--tls-crl-file");
    assert("--tls-crl-file"@.len() == 14);
    reveal_strlit("--dashboard-tls-cert-file");
    assert("--dashboard-tls-cert-file"@.len() == 25);
    reveal_strlit("--dashboard-tls-key-file");
    assert("--dashboard-tls-key-file"@.len() == 24);
    reveal_strlit("--listen-addr");
    assert("--listen-addr"@.len() == 13);
    reveal_strlit("--poll-interval-secs");
    assert("--poll-interval-secs"@.len() == 20);
    assert("--control-plane-addr"@[2] != "--poll-interval-secs"@[2]);
    assert("--tls-ca-file"@[2] != "--listen-addr"@[2]);
    assert("--tls-key-file"@[6] != "--tls-crl-file"@[6]);
}

proof fn lemma_with(c: ConfigView, flag: Seq<char>, value: Seq<char>, other: Seq<char>)
    ensures
        c.with(flag, value) matches Ok(d) ==> {
            &&& is_known_flag(flag)
            &&& flag == "--poll-interval-secs"@ ==> unsigned_of(value, u64::MAX as nat) == Some(
                d.poll_interval_secs as nat,
            )
            &&& flag != "--poll-interval-secs"@ ==> d.poll_interval_secs == c.poll_interval_secs
            &&& flag == "--listen-addr"@ ==> d.listen_addr == value
            &&& flag != "--listen-addr"@ ==> d.listen_addr == c.listen_addr
            &&& flag != other ==> setting(d, other) == setting(c, other)
            &&& is_known_flag(flag) && flag != "--poll-interval-secs"@ && flag != "--listen-addr"@ ==> setting(d, flag)
                == Some(value)
        },
        c.with(flag, value) matches Err(e) ==> if is_known_flag(flag) {
            &&& flag == "--poll-interval-secs"@
            &&& unsigned_of(value, u64::MAX as nat) is None
            &&& number_error_of(value, u64::MAX as nat) is Some
            &&& e == ArgsErrorView::InvalidPollInterval(value, number_error_of(value, u64::MAX as nat)->0)
        } else {
            e == ArgsErrorView::UnknownFlag(flag)
        },
{
    law_errors_tell_numbers_apart(value, u64::MAX as nat);
    lemma_flags_differ();
}

/// What a command line makes of a configuration, flag by flag.
spec fn is_made_of(c: ConfigView, args: Seq<Seq<char>>, d: ConfigView, flag: Seq<char>) -> bool {
    &&& is_given(args, flag, None) ==> setting(d, flag) == setting(c, flag)
    &&& !is_given(args, flag, None) && is_known_flag(flag) && flag != "--poll-interval-secs"@ && flag
        != "--listen-addr"@ ==> setting(d, flag) is Some && is_given(args, flag, setting(d, flag))
}

proof fn lemma_given_behind(args: Seq<Seq<char>>, flag: Seq<char>, value: Seq<char>)
    requires
        args.len() >= 2,
        is_given(args.skip(2), flag, Some(value)),
    ensures
        is_given(args, flag, Some(value)),
{
    let rest = args.skip(2);
    let k = choose|k: int| #[trigger] is_last_time(rest, flag, k) && rest[k + 1] == value;
    assert(flag_at(args, flag, k + 2));
    assert forall|j: int| j > k + 2 implies !#[trigger] flag_at(args, flag, j) by {
        if flag_at(args, flag, j) {
            assert(flag_at(rest, flag, j - 2));
        }
    }
    assert(is_last_time(args, flag, k + 2));
}

proof fn lemma_given_first(args: Seq<Seq<char>>, flag: Seq<char>)
    requires
        args.len() >= 2,
        is_given(args.skip(2), flag, None),
    ensures
        args[0] == flag ==> is_given(args, flag, Some(args[1])),
        args[0] != flag ==> is_given(args, flag, None),
{
    let rest = args.skip(2);
    assert forall|j: int| j > 0 implies !#[trigger] flag_at(args, flag, j) by {
        if flag_at(args, flag, j) {
            assert(flag_at(rest, flag, j - 2));
        }
    }
    if args[0] == flag {
        assert(is_last_time(args, flag, 0));
    } else {
        assert forall|j: int| !#[trigger] flag_at(args, flag, j) by {}
    }
}

proof fn lemma_fine_behind(args: Seq<Seq<char>>, n: int)
    requires
        args.len() >= 2,
        fine_before(args.skip(2), n),
        is_fine(args, 0),
        n % 2 == 0,
        0 <= n <= args.skip(2).len(),
    ensures
        fine_before(args, n + 2),
{
    assert forall|k: int| 0 <= k < n + 2 && k % 2 == 0 implies #[trigger] is_fine(args, k) by {
        if k > 0 {
            let rest = args.skip(2);
            assert(is_fine(rest, k - 2));
            assert(rest[k - 2] == args[k] && rest[k - 1] == args[k + 1]);
        }
    }
}

/// The place of the first error of a command line: a flag with its value, or a flag without one.
pub open spec fn is_first_error(args: Seq<Seq<char>>, k: int, e: ArgsErrorView) -> bool {
    &&& 0 <= k < args.len() && k % 2 == 0
    &&& fine_before(args, k)
    &&& k + 1 == args.len() ==> e == ArgsErrorView::MissingValue(args[k])
    &&& k + 1 < args.len() ==> !is_fine(args, k)
    &&& k + 1 < args.len() && !is_known_flag(args[k]) ==> e == ArgsErrorView::UnknownFlag(args[k])
    &&& k + 1 < args.len() && is_known_flag(args[k]) ==> number_error_of(args[k + 1], u64::MAX as nat) is Some && e
        == ArgsErrorView::InvalidPollInterval(args[k + 1], number_error_of(args[k + 1], u64::MAX as nat)->0)
}

proof fn lemma_with_all(c: ConfigView, args: Seq<Seq<char>>, flag: Seq<char>)
    ensures
        c.with_all(args) matches Ok(d) ==> {
            &&& args.len() % 2 == 0
            &&& fine_before(args, args.len() as int)
            &&& is_made_of(c, args, d, flag)
            &&& is_given(args, "--listen-addr"@, None) ==> d.listen_addr == c.listen_addr
            &&& !is_given(args, "--listen-addr"@, None) ==> is_given(args, "--listen-addr"@, Some(d.listen_addr))
            &&& is_given(args, "--poll-interval-secs"@, None) ==> d.poll_interval_secs == c.poll_interval_secs
            &&& !is_given(args, "--poll-interval-secs"@, None) ==> is_interval(args, d.poll_interval_secs)
        },
        c.with_all(args) matches Err(e) ==> exists|k: int| #[trigger] is_first_error(args, k, e),
    decreases args.len(),
{
    let listen = "--listen-addr"@;
    let poll = "--poll-interval-secs"@;
    if args.len() == 0 {
    } else if args.len() == 1 {
        assert(is_first_error(args, 0, ArgsErrorView::MissingValue(args[0])));
    } else {
        let rest = args.skip(2);
        lemma_with(c, args[0], args[1], flag);
        match c.with(args[0], args[1]) {
            Err(e) => {
                assert(is_first_error(args, 0, e));
            },
            Ok(next) => {
                lemma_with_all(next, rest, flag);
                assert(is_fine(args, 0));
                match next.with_all(rest) {
                    Err(e) => {
                        let k = choose|k: int| #[trigger] is_first_error(rest, k, e);
                        lemma_fine_behind(args, k);
                        assert(rest[k] == args[k + 2]);
                        if k + 1 < rest.len() {
                            assert(rest[k + 1] == args[k + 3]);
                            assert(is_fine(rest, k) == is_fine(args, k + 2));
                        }
                        assert(is_first_error(args, k + 2, e));
                    },
                    Ok(d) => {
                        lemma_fine_behind(args, rest.len() as int);
                        lemma_step_given(args, flag);
                        lemma_step_given(args, listen);
                        lemma_step_given(args, poll);
                        if !is_given(rest, poll, None) {
                            let v = choose|v: Seq<char>| #[trigger]
                                is_given(rest, poll, Some(v)) && unsigned_of(v, u64::MAX as nat) == Some(
                                    d.poll_interval_secs as nat,
                                );
                            lemma_given_behind(args, poll, v);
                        }
                    },
                }
            },
        }
    }
}

/// A number of seconds is the one that a command line gives last.
pub open spec fn is_interval(args: Seq<Seq<char>>, secs: u64) -> bool {
    exists|v: Seq<char>| #[trigger]
        is_given(args, "--poll-interval-secs"@, Some(v)) && unsigned_of(v, u64::MAX as nat) == Some(secs as nat)
}

proof fn lemma_step_given(args: Seq<Seq<char>>, flag: Seq<char>)
    requires
        args.len() >= 2,
    ensures
        is_given(args, flag, None) ==> is_given(args.skip(2), flag, None) && args[0] != flag,
        is_given(args.skip(2), flag, None) && args[0] != flag ==> is_given(args, flag, None),
        is_given(args.skip(2), flag, None) && args[0] == flag ==> is_given(args, flag, Some(args[1])) && !is_given(
            args,
            flag,
            None,
        ),
        forall|v: Seq<char>| #[trigger] is_given(args.skip(2), flag, Some(v)) ==> is_given(args, flag, Some(v)),
{
    let rest = args.skip(2);
    if is_given(args, flag, None) {
        assert forall|k: int| !#[trigger] flag_at(rest, flag, k) by {
            if flag_at(rest, flag, k) {
                assert(flag_at(args, flag, k + 2));
            }
        }
        assert(!flag_at(args, flag, 0));
    }
    if is_given(rest, flag, None) {
        lemma_given_first(args, flag);
        if args[0] == flag {
            assert(flag_at(args, flag, 0));
        }
    }
    assert forall|v: Seq<char>| #[trigger] is_given(rest, flag, Some(v)) implies is_given(args, flag, Some(v)) by {
        lemma_given_behind(args, flag, v);
    }
}

/// What a command line says. Every flag has the value that it is given last, and those with a default have that if they
/// are not given. The first flag that is unknown, has no value, or has a value that is no number where one is needed, is
/// told; after that, what is missing.
pub proof fn law_command_lines(args: Seq<Seq<char>>)
    ensures
        ConfigView::parsed(args) matches Ok(config) ==> {
            &&& args.len() % 2 == 0
            &&& fine_before(args, args.len() as int)
            &&& is_given(args, "--control-plane-addr"@, config.control_plane_addr)
            &&& is_given(args, "--tls-ca-file"@, config.tls_ca_file)
            &&& is_given(args, "--tls-cert-file"@, config.tls_cert_file)
            &&& is_given(args, "--tls-key-file"@, config.tls_key_file)
            &&& is_given(args, "--tls-crl-file"@, config.tls_crl_file)
            &&& is_given(args, "--dashboard-tls-cert-file"@, config.dashboard_tls_cert_file)
            &&& is_given(args, "--dashboard-tls-key-file"@, config.dashboard_tls_key_file)
            &&& config.control_plane_addr is Some && config.tls_ca_file is Some && config.tls_cert_file is Some
                && config.tls_key_file is Some && config.tls_crl_file is Some
            &&& config.dashboard_tls_cert_file is Some && config.dashboard_tls_key_file is Some
            &&& is_given(args, "--listen-addr"@, None) ==> config.listen_addr == "0.0.0.0:8443"@
            &&& !is_given(args, "--listen-addr"@, None) ==> is_given(
                args,
                "--listen-addr"@,
                Some(config.listen_addr),
            )
            &&& is_given(args, "--poll-interval-secs"@, None) ==> config.poll_interval_secs == 5
            &&& !is_given(args, "--poll-interval-secs"@, None) ==> is_interval(args, config.poll_interval_secs)
        },
        ConfigView::parsed(args) matches Err(e) ==> match e {
            ArgsErrorView::ControlPlaneFlags => args.len() % 2 == 0 && fine_before(args, args.len() as int) && (is_given(
                args,
                "--control-plane-addr"@,
                None,
            ) || is_given(args, "--tls-ca-file"@, None) || is_given(args, "--tls-cert-file"@, None) || is_given(
                args,
                "--tls-key-file"@,
                None,
            ) || is_given(args, "--tls-crl-file"@, None)),
            ArgsErrorView::DashboardFlags => args.len() % 2 == 0 && fine_before(args, args.len() as int) && !is_given(
                args,
                "--control-plane-addr"@,
                None,
            ) && !is_given(args, "--tls-ca-file"@, None) && !is_given(args, "--tls-cert-file"@, None) && !is_given(
                args,
                "--tls-key-file"@,
                None,
            ) && !is_given(args, "--tls-crl-file"@, None) && (is_given(args, "--dashboard-tls-cert-file"@, None)
                || is_given(args, "--dashboard-tls-key-file"@, None)),
            _ => exists|k: int| #[trigger] is_first_error(args, k, e),
        },
{
    let c = ConfigView::defaults();
    lemma_with_all(c, args, "--control-plane-addr"@);
    lemma_with_all(c, args, "--tls-ca-file"@);
    lemma_with_all(c, args, "--tls-cert-file"@);
    lemma_with_all(c, args, "--tls-key-file"@);
    lemma_with_all(c, args, "--tls-crl-file"@);
    lemma_with_all(c, args, "--dashboard-tls-cert-file"@);
    lemma_with_all(c, args, "--dashboard-tls-key-file"@);
    lemma_flags_differ();
}

/// The first header of a name stands at a place; the case of a name does not matter.
pub open spec fn is_first_header(headers: Seq<HeaderView>, name: Seq<char>, k: int) -> bool {
    &&& 0 <= k < headers.len()
    &&& same_but_case(headers[k].name, name)
    &&& forall|j: int| 0 <= j < k ==> !same_but_case((#[trigger] headers[j]).name, name)
}

proof fn lemma_value_of(headers: Seq<HeaderView>, name: Seq<char>)
    ensures
        match value_of(headers, name) {
            Some(value) => exists|k: int| #[trigger] is_first_header(headers, name, k) && headers[k].value == value,
            None => forall|k: int| !#[trigger] is_first_header(headers, name, k),
        },
    decreases headers.len(),
{
    if headers.len() > 0 {
        let rest = headers.skip(1);
        if same_but_case(headers[0].name, name) {
            assert(is_first_header(headers, name, 0));
        } else {
            lemma_value_of(rest, name);
            match value_of(rest, name) {
                Some(value) => {
                    let k = choose|k: int| #[trigger] is_first_header(rest, name, k) && rest[k].value == value;
                    assert forall|j: int| 0 <= j < k + 1 implies !same_but_case((#[trigger] headers[j]).name, name) by {
                        if j > 0 {
                            assert(rest[j - 1] == headers[j]);
                        }
                    }
                    assert(is_first_header(headers, name, k + 1));
                },
                None => {
                    assert forall|k: int| !#[trigger] is_first_header(headers, name, k) by {
                        if is_first_header(headers, name, k) {
                            assert forall|j: int| 0 <= j < k - 1 implies !same_but_case(
                                (#[trigger] rest[j]).name,
                                name,
                            ) by {
                                assert(headers[j + 1] == rest[j]);
                            }
                            assert(is_first_header(rest, name, k - 1));
                        }
                    }
                },
            }
        }
    }
}

/// The length that a response says its body has: the number in its first `Content-Length` header, if that is text and a
/// number, with white space around it or without.
pub open spec fn says_length(headers: Seq<HeaderView>, n: nat) -> bool {
    exists|k: int| #[trigger]
        is_first_header(headers, "content-length"@, k) && valid_utf8(headers[k].value) && unsigned_of(
            trimmed(decode_utf8(headers[k].value)),
            usize::MAX as nat,
        ) == Some(n)
}

/// A response is taken exactly if its head is whole and its body is as long as it says. Its status and its body are then
/// what it holds, whatever they are; otherwise it is told what is wrong.
pub proof fn law_responses(head: ResponseHeadView, bytes: Seq<u8>)
    requires
        head matches ResponseHeadView::Complete { len, .. } ==> len <= bytes.len(),
    ensures
        match response_of(head, bytes) {
            Ok((status, body)) => head matches ResponseHeadView::Complete { code, headers, len } && says_length(
                headers,
                (bytes.len() - len) as nat,
            ) && (code is Some ==> status == code->0) && (code is None ==> status == 0) && body == text_of(
                bytes.skip(len as int),
            ),
            Err(e) => match head {
                ResponseHeadView::Malformed(reason) => e == "malformed response: "@ + reason,
                ResponseHeadView::Partial => e == "incomplete response from server"@,
                ResponseHeadView::Complete { code, headers, len } => {
                    &&& !says_length(headers, (bytes.len() - len) as nat)
                    &&& (forall|n: nat| !#[trigger] says_length(headers, n)) ==> e
                        == "response missing Content-Length header"@
                    &&& forall|n: nat| #[trigger]
                        says_length(headers, n) ==> e == "truncated response: expected "@ + decimal(n)
                            + " bytes, got "@ + decimal((bytes.len() - len) as nat)
                },
            },
        },
{
    if let ResponseHeadView::Complete { code, headers, len } = head {
        let name = "content-length"@;
        lemma_value_of(headers, name);
        assert forall|j: int, k: int|
            #[trigger] is_first_header(headers, name, j) && #[trigger] is_first_header(headers, name, k) implies j
            == k by {
            if j < k {
                assert(!same_but_case(headers[j].name, name));
            } else if k < j {
                assert(!same_but_case(headers[k].name, name));
            }
        }
        assert forall|n: nat| #[trigger] says_length(headers, n) <==> content_length(headers) == Some(n) by {
            if says_length(headers, n) {
                let k = choose|k: int| #[trigger]
                    is_first_header(headers, name, k) && valid_utf8(headers[k].value) && unsigned_of(
                        trimmed(decode_utf8(headers[k].value)),
                        usize::MAX as nat,
                    ) == Some(n);
            }
            if content_length(headers) == Some(n) {
                let value = value_of(headers, name)->0;
                let k = choose|k: int| #[trigger] is_first_header(headers, name, k) && headers[k].value == value;
                assert(is_first_header(headers, name, k));
            }
        }
        let rest = (bytes.len() - len) as nat;
        assert(says_length(headers, rest) <==> content_length(headers) == Some(rest));
        if let Some(n) = content_length(headers) {
            assert(says_length(headers, n));
        }
    }
}

/// A request whose head is whole is answered, with its method, its path and the text of its first `Authorization` header
/// if it has one. One that is not whole is read on, unless it has ended or is too long; one that makes no sense is
/// dropped.
pub proof fn law_requests(head: RequestHeadView, len: nat, ended: bool)
    ensures
        match request_step(head, len, ended) {
            RequestStepView::Answer(request) => head matches RequestHeadView::Complete { method, path, headers } && {
                &&& method is Some ==> request.method == method->0
                &&& method is None ==> request.method.len() == 0
                &&& path is Some ==> request.path == path->0
                &&& path is None ==> request.path.len() == 0
                &&& request.authorization matches Some(text) ==> exists|k: int| #[trigger]
                    is_first_header(headers, "authorization"@, k) && valid_utf8(headers[k].value) && text
                        == decode_utf8(headers[k].value)
                &&& request.authorization is None ==> forall|k: int| #[trigger]
                    is_first_header(headers, "authorization"@, k) ==> !valid_utf8(headers[k].value)
            },
            RequestStepView::ReadOn => head is Partial && len < 65536 && !ended,
            RequestStepView::Drop => head is Malformed || (head is Partial && (len >= 65536 || ended)),
        },
{
    if let RequestHeadView::Complete { method, path, headers } = head {
        let name = "authorization"@;
        lemma_value_of(headers, name);
        assert forall|j: int, k: int|
            #[trigger] is_first_header(headers, name, j) && #[trigger] is_first_header(headers, name, k) implies j
            == k by {
            if j < k {
                assert(!same_but_case(headers[j].name, name));
            } else if k < j {
                assert(!same_but_case(headers[k].name, name));
            }
        }
        if let Some(value) = value_of(headers, name) {
            let k = choose|k: int| #[trigger] is_first_header(headers, name, k) && headers[k].value == value;
            assert(is_first_header(headers, name, k));
        }
    }
}

/// What a request is answered with: the page or the snapshot, if it asks for that by its method and path and may see it.
pub proof fn law_routes(request: ParsedRequestView, credentials: Option<(Seq<char>, Seq<char>)>)
    ensures
        ({
            let let_in = match credentials {
                Some((user, password)) => granted(request.authorization, user, password),
                None => true,
            };
            let route = route_of(request, credentials);
            &&& route == Route::Page <==> let_in && request.method == "GET"@ && request.path == "/"@
            &&& route == Route::Snapshot <==> let_in && request.method == "GET"@ && request.path == "/api/snapshot"@
            &&& route == Route::Unauthorized <==> !let_in
        }),
{
    reveal_strlit("/");
    reveal_strlit("/api/snapshot");
    assert("/"@.len() == 1);
    assert("/api/snapshot"@.len() == 13);
}

/// A body is taken exactly if its status says that all went well, and as it is.
pub proof fn law_bodies(path: Seq<char>, status: u16, body: Seq<char>)
    ensures
        ok_body(path, status, body) is Ok <==> status / 100 == 2,
        ok_body(path, status, body) matches Ok(taken) ==> taken == body,
        ok_body(path, status, body) matches Err(e) ==> e == "GET "@ + path + " returned status "@ + decimal(
            status as nat,
        ) + ": "@ + body,
{
}

/// The host of an address with a port is what stands before the colon of the port; one without a colon is a host.
pub proof fn law_hosts(host: Seq<char>, port: Seq<char>)
    requires
        !port.contains(':'),
    ensures
        host_of(host + seq![':'] + port) == host,
        host_of(port) == port,
{
    let addr = host + seq![':'] + port;
    let k = host.len() as int;
    assert forall|j: int| k < j < addr.len() implies addr[j] != ':' by {
        assert(addr[j] == port[j - k - 1]);
    }
    assert(is_last_colon(addr, k));
    let i = choose|i: int| is_last_colon(addr, i);
    assert(i == k);
    assert(addr.take(k) =~= host);
    assert forall|i: int| !#[trigger] is_last_colon(port, i) by {}
}

/// The head of a response has the status with its words, the length and the type of the body, each in a line of its own, and
/// ends with an empty line.
pub proof fn law_heads_of_responses(status: u16, content_type: Seq<char>, len: nat)
    ensures
        response_head_text(status, content_type, len) == "HTTP/1.1 "@ + decimal(status as nat) + " "@ + reason_of(status)
            + "\r\n"@ + "Content-Length: "@ + decimal(len) + "\r\n"@ + "Content-Type: "@ + content_type + "\r\n"@
            + "Connection: close\r\n"@ + "\r\n"@,
        reason_of(200) == "OK"@,
        reason_of(404) == "Not Found"@,
        reason_of(500) == "Internal Server Error"@,
        status != 200 && status != 404 && status != 500 ==> reason_of(status) == "Unknown"@,
{
    reveal_strlit("\r\n");
    reveal_strlit("\r\nContent-Length: ");
    reveal_strlit("Content-Length: ");
    reveal_strlit("\r\nContent-Type: ");
    reveal_strlit("Content-Type: ");
    reveal_strlit("\r\nConnection: close\r\n\r\n");
    reveal_strlit("Connection: close\r\n");
    assert("\r\nContent-Length: "@ =~= "\r\n"@ + "Content-Length: "@);
    assert("\r\nContent-Type: "@ =~= "\r\n"@ + "Content-Type: "@);
    assert("\r\nConnection: close\r\n\r\n"@ =~= "\r\n"@ + "Connection: close\r\n"@ + "\r\n"@);
    let a = "HTTP/1.1 "@ + decimal(status as nat) + " "@ + reason_of(status);
    assert(a + ("\r\n"@ + "Content-Length: "@) =~= a + "\r\n"@ + "Content-Length: "@);
    let b = a + "\r\n"@ + "Content-Length: "@ + decimal(len);
    assert(b + ("\r\n"@ + "Content-Type: "@) =~= b + "\r\n"@ + "Content-Type: "@);
    let c = b + "\r\n"@ + "Content-Type: "@ + content_type;
    assert(c + ("\r\n"@ + "Connection: close\r\n"@ + "\r\n"@) =~= c + "\r\n"@ + "Connection: close\r\n"@ + "\r\n"@);
}

/// A request names its method and its path, and says that it has no body.
pub proof fn law_texts_of_requests(method: Seq<char>, path: Seq<char>)
    ensures
        request_text_of(method, path) == method + " "@ + path + " HTTP/1.1\r\n"@ + "Host: localhost\r\n"@
            + "Content-Length: 0\r\n"@ + "\r\n"@,
{
    reveal_strlit(" HTTP/1.1\r\nHost: localhost\r\nContent-Length: 0\r\n\r\n");
    reveal_strlit(" HTTP/1.1\r\n");
    reveal_strlit("Host: localhost\r\n");
    reveal_strlit("Content-Length: 0\r\n");
    reveal_strlit("\r\n");
    let rest = " HTTP/1.1\r\nHost: localhost\r\nContent-Length: 0\r\n\r\n"@;
    assert(rest =~= " HTTP/1.1\r\n"@ + "Host: localhost\r\n"@ + "Content-Length: 0\r\n"@ + "\r\n"@);
    let a = method + " "@ + path;
    assert(a + (" HTTP/1.1\r\n"@ + "Host: localhost\r\n"@ + "Content-Length: 0\r\n"@ + "\r\n"@) =~= a
        + " HTTP/1.1\r\n"@ + "Host: localhost\r\n"@ + "Content-Length: 0\r\n"@ + "\r\n"@);
}

} // verus!
