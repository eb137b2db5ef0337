use base64::engine::general_purpose::STANDARD;
use base64::Engine;
use keel::dashboard::control_plane_client::Fetch;
use keel::dashboard::html::render;
use keel::dashboard::http::{
    expect_ok, host_of_addr, json_response, not_found, page, parse_response, read_request, read_response,
    reason_phrase, request_text, response_header, route, step_for, unauthorized, Header, ParsedRequest, RequestHead,
    RequestStep, Response, ResponseHead, Route, MAX_MESSAGE_BYTES,
};
use keel::dashboard::snapshot::Snapshot;

fn parsed(text: &str) -> ParsedRequest {
    match read_request(text.as_bytes(), false) {
        RequestStep::Answer(request) => request,
        RequestStep::ReadOn => panic!("the request is not complete"),
        RequestStep::Drop => panic!("the request is malformed"),
    }
}

fn answer(request: &ParsedRequest, credentials: Option<(&str, &str)>) -> (u16, String) {
    let response: Response = match route(request, credentials) {
        Route::Page => page(render(&Snapshot::default(), 0)),
        Route::Snapshot => json_response(Some(b"{\"nodes\":[]}".to_vec())),
        Route::NotFound => not_found(),
        Route::Unauthorized => unauthorized(),
    };
    let mut bytes = response_header(response.status, response.content_type, response.body.len()).into_bytes();
    bytes.extend(response.body);
    parse_response(&bytes).unwrap()
}

fn request(path: &str) -> (u16, String) {
    answer(&parsed(&request_text("GET", path)), None)
}

#[test]
fn a_request_gets_the_dashboard_html() {
    let (status, body) = request("/");
    assert_eq!(status, 200);
    assert!(body.contains("keel dashboard"), "got: {body}");
}

#[test]
fn the_snapshot_is_served_as_it_was_serialized() {
    let (status, body) = request("/api/snapshot");
    assert_eq!(status, 200);
    assert_eq!(body, "{\"nodes\":[]}");
}

#[test]
fn an_unknown_path_is_404() {
    let (status, body) = request("/nope");
    assert_eq!(status, 404);
    assert_eq!(body, "not found");
    assert_eq!(answer(&parsed(&request_text("POST", "/")), None).0, 404);
}

#[test]
fn json_response_returns_a_clean_500_on_a_genuine_serialization_error() {
    let Response { status, content_type, body } = json_response(None);
    assert_eq!(status, 500);
    assert_eq!(content_type, "text/plain");
    assert_eq!(body, b"failed to serialize snapshot");
}

#[test]
fn nothing_is_served_without_the_credentials_that_are_asked_for() {
    let credentials = Some(("admin", "hunter2"));
    let with = |user: &str, password: &str, path: &str| {
        let auth = STANDARD.encode(format!("{user}:{password}"));
        parsed(&format!("GET {path} HTTP/1.1\r\nHost: localhost\r\nAUTHORIZATION: Basic {auth}\r\n\r\n"))
    };
    assert_eq!(answer(&with("admin", "wrongpassword", "/"), credentials), (401, "unauthorized".to_string()));
    assert_eq!(answer(&parsed(&request_text("GET", "/nope")), credentials).0, 401);
    assert_eq!(answer(&with("admin", "hunter2", "/"), credentials).0, 200);
    assert_eq!(answer(&with("admin", "hunter2", "/api/snapshot"), credentials).0, 200);
    assert_eq!(answer(&with("admin", "hunter2", "/nope"), credentials).0, 404);
}

#[test]
fn a_request_is_read_until_it_is_complete_malformed_or_too_long() {
    let text = request_text("GET", "/nodes");
    assert_eq!(text, "GET /nodes HTTP/1.1\r\nHost: localhost\r\nContent-Length: 0\r\n\r\n");
    assert!(matches!(read_request(b"", false), RequestStep::ReadOn));
    assert!(matches!(read_request(&text.as_bytes()[..20], false), RequestStep::ReadOn));
    assert!(matches!(read_request(&text.as_bytes()[..20], true), RequestStep::Drop));
    assert!(matches!(read_request(b"\x00\x01\x02 not http", false), RequestStep::Drop));
    let request = parsed(&text);
    assert_eq!((request.method.as_str(), request.path.as_str()), ("GET", "/nodes"));
    assert_eq!(request.authorization, None);
    assert!(matches!(step_for(RequestHead::Partial, MAX_MESSAGE_BYTES - 1, false), RequestStep::ReadOn));
    assert!(matches!(step_for(RequestHead::Partial, MAX_MESSAGE_BYTES, false), RequestStep::Drop));
    assert!(matches!(step_for(RequestHead::Malformed, 1, false), RequestStep::Drop));
    let many = (0..17).map(|i| format!("H{i}: x\r\n")).collect::<String>();
    let crowded = format!("GET / HTTP/1.1\r\n{many}\r\n");
    assert!(matches!(read_request(crowded.as_bytes(), false), RequestStep::Drop), "more headers than are read");
}

#[test]
fn a_response_must_be_complete_and_as_long_as_it_says() {
    let ok = b"HTTP/1.1 200 OK\r\ncontent-LENGTH:  3 \r\n\r\nabc";
    assert_eq!(parse_response(ok), Ok((200, "abc".to_string())));
    assert_eq!(parse_response(b"HTTP/1.1 200 OK\r\n"), Err("incomplete response from server".to_string()));
    assert_eq!(
        parse_response(b"HTTP/1.1 200 OK\r\n\r\nabc"),
        Err("response missing Content-Length header".to_string())
    );
    assert_eq!(
        parse_response(b"HTTP/1.1 200 OK\r\nContent-Length: 5\r\n\r\nabc"),
        Err("truncated response: expected 5 bytes, got 3".to_string())
    );
    assert_eq!(
        parse_response(b"HTTP/1.1 200 OK\r\nContent-Length: -1\r\n\r\n"),
        Err("response missing Content-Length header".to_string())
    );
    let malformed = parse_response(b"nonsense\r\n\r\n").unwrap_err();
    assert!(malformed.starts_with("malformed response: "), "got: {malformed}");
}

#[test]
fn a_body_that_is_no_text_is_mended() {
    let mut bytes = b"HTTP/1.1 503 Sorry\r\nContent-Length: 4\r\n\r\n".to_vec();
    bytes.extend([b'a', 0xff, 0xc3, 0xa9]);
    assert_eq!(parse_response(&bytes), Ok((503, "a\u{fffd}\u{e9}".to_string())));
}

#[test]
fn a_head_decides_what_a_response_says() {
    let length = |value: &[u8]| vec![Header { name: "Content-Length".to_string(), value: value.to_vec() }];
    let head = ResponseHead::Complete { code: None, headers: length(b"1"), len: 2 };
    assert_eq!(read_response(head, b"xxy"), Ok((0, "y".to_string())));
    let head = ResponseHead::Complete { code: Some(200), headers: length(&[0xff]), len: 0 };
    assert_eq!(read_response(head, b""), Err("response missing Content-Length header".to_string()));
    let head = ResponseHead::Malformed("bad".to_string());
    assert_eq!(read_response(head, b""), Err("malformed response: bad".to_string()));
}

#[test]
fn only_a_good_status_counts() {
    assert_eq!(expect_ok("/nodes", 200, "x".to_string()), Ok("x".to_string()));
    assert_eq!(expect_ok("/nodes", 299, "x".to_string()), Ok("x".to_string()));
    for status in [199, 300, 404] {
        assert_eq!(
            expect_ok("/nodes", status, "gone".to_string()),
            Err(format!("GET /nodes returned status {status}: gone"))
        );
    }
}

#[test]
fn every_request_has_its_path() {
    assert_eq!(Fetch::Nodes.path(), "/nodes");
    assert_eq!(Fetch::Jails("node-1").path(), "/nodes/node-1/jails");
    assert_eq!(Fetch::Volumes("node-1").path(), "/nodes/node-1/volumes");
    assert_eq!(Fetch::Services.path(), "/services");
    assert_eq!(Fetch::Service("web").path(), "/services/web");
}

#[test]
fn a_status_goes_with_its_words() {
    let words: Vec<&str> = [200, 404, 500, 401, 0].into_iter().map(reason_phrase).collect();
    assert_eq!(words, vec!["OK", "Not Found", "Internal Server Error", "Unknown", "Unknown"]);
    assert_eq!(
        response_header(404, "text/plain", 9),
        "HTTP/1.1 404 Not Found\r\nContent-Length: 9\r\nContent-Type: text/plain\r\nConnection: close\r\n\r\n"
    );
}

#[test]
fn the_host_stands_before_the_last_colon() {
    assert_eq!(host_of_addr("192.168.64.4:7621"), "192.168.64.4");
    assert_eq!(host_of_addr("not-an-ip:7620"), "not-an-ip");
    assert_eq!(host_of_addr("::1:7620"), "::1");
    assert_eq!(host_of_addr("bare"), "bare");
    assert_eq!(host_of_addr(""), "");
}
