//! Requests and responses, on both sides of the dashboard.

use crate::dashboard::basic_auth::{check, granted};
use crate::decimal::{decimal, parse_unsigned, push_decimal, unsigned_of};
use crate::text::{chars_of, from_utf8, from_utf8_lossy, same, text_of, trim, trimmed};
use crate::views::opt_view;
use vstd::prelude::*;
use vstd::string::*;
use vstd::utf8::{decode_utf8, valid_utf8};

verus! {

/// The most bytes of a request that are read.
pub const MAX_MESSAGE_BYTES: usize = 65536;

/// A header of a message.
#[derive(Debug, Clone, PartialEq, Eq)]
pub struct Header {
    pub name: String,
    pub value: Vec<u8>,
}

/// What a [`Header`] holds.
#[verifier::ext_equal]
pub struct HeaderView {
    pub name: Seq<char>,
    pub value: Seq<u8>,
}

impl View for Header {
    type V = HeaderView;

    open spec fn view(&self) -> HeaderView {
        HeaderView { name: self.name@, value: self.value@ }
    }
}

/// What there is of a request in some bytes.
#[derive(Debug, Clone, PartialEq, Eq)]
pub enum RequestHead {
    Complete { method: Option<String>, path: Option<String>, headers: Vec<Header> },
    Partial,
    Malformed,
}

/// What a [`RequestHead`] holds.
#[verifier::ext_equal]
pub enum RequestHeadView {
    Complete { method: Option<Seq<char>>, path: Option<Seq<char>>, headers: Seq<HeaderView> },
    Partial,
    Malformed,
}

impl View for RequestHead {
    type V = RequestHeadView;

    open spec fn view(&self) -> RequestHeadView {
        match self {
            RequestHead::Complete { method, path, headers } => RequestHeadView::Complete {
                method: opt_view(*method),
                path: opt_view(*path),
                headers: crate::views::views(headers@),
            },
            RequestHead::Partial => RequestHeadView::Partial,
            RequestHead::Malformed => RequestHeadView::Malformed,
        }
    }
}

/// What there is of a response in some bytes.
#[derive(Debug, Clone, PartialEq, Eq)]
pub enum ResponseHead {
    /// The status, the headers, and how many bytes all of that takes.
    Complete { code: Option<u16>, headers: Vec<Header>, len: usize },
    Partial,
    /// What is wrong with it.
    Malformed(String),
}

/// What a [`ResponseHead`] holds.
#[verifier::ext_equal]
pub enum ResponseHeadView {
    Complete { code: Option<u16>, headers: Seq<HeaderView>, len: usize },
    Partial,
    Malformed(Seq<char>),
}

impl View for ResponseHead {
    type V = ResponseHeadView;

    open spec fn view(&self) -> ResponseHeadView {
        match self {
            ResponseHead::Complete { code, headers, len } => ResponseHeadView::Complete {
                code: *code,
                headers: crate::views::views(headers@),
                len: *len,
            },
            ResponseHead::Partial => ResponseHeadView::Partial,
            ResponseHead::Malformed(reason) => ResponseHeadView::Malformed(reason@),
        }
    }
}

/// The head of a request with sixteen headers at most, as `httparse` finds it in some bytes.
pub uninterp spec fn request_head(bytes: Seq<u8>) -> RequestHeadView;

/// The head of a response with sixteen headers at most, as `httparse` finds it in some bytes.
pub uninterp spec fn response_head(bytes: Seq<u8>) -> ResponseHeadView;

/// `httparse::Request::parse` with room for sixteen headers: the parts that it finds depend on the bytes
/// alone, and are named. What a well-formed head is, is not stated.
#[verifier::external_body]
fn parse_request_head(bytes: &[u8]) -> (r: RequestHead)
    ensures
        r@ == request_head(bytes@),
{
    let mut headers = [httparse::EMPTY_HEADER; 16];
    let mut request = httparse::Request::new(&mut headers);
    match request.parse(bytes) {
        Ok(httparse::Status::Complete(_)) => RequestHead::Complete {
            method: request.method.map(|m| m.to_string()),
            path: request.path.map(|p| p.to_string()),
            headers: request.headers.iter().map(|h| Header { name: h.name.to_string(), value: h.value.to_vec() }).collect(),
        },
        Ok(httparse::Status::Partial) => RequestHead::Partial,
        Err(_) => RequestHead::Malformed,
    }
}

/// `httparse::Response::parse` with room for sixteen headers: the parts that it finds, or its error as a
/// text, depend on the bytes alone, and are named. A head is not longer than the bytes that it is found in.
#[verifier::external_body]
fn parse_response_head(bytes: &[u8]) -> (r: ResponseHead)
    ensures
        r@ == response_head(bytes@),
        r matches ResponseHead::Complete { len, .. } ==> len <= bytes@.len(),
{
    let mut headers = [httparse::EMPTY_HEADER; 16];
    let mut response = httparse::Response::new(&mut headers);
    match response.parse(bytes) {
        Ok(httparse::Status::Complete(len)) => ResponseHead::Complete {
            code: response.code,
            headers: response.headers.iter().map(|h| Header { name: h.name.to_string(), value: h.value.to_vec() }).collect(),
            len,
        },
        Ok(httparse::Status::Partial) => ResponseHead::Partial,
        Err(e) => ResponseHead::Malformed(e.to_string()),
    }
}

/// A character without regard to case, in the ASCII range.
pub open spec fn lower(c: char) -> char {
    if 65 <= c as int <= 90 {
        (c as int + 32) as char
    } else {
        c
    }
}

/// Two texts are the same but for the case of their ASCII letters.
pub open spec fn same_but_case(a: Seq<char>, b: Seq<char>) -> bool {
    a.len() == b.len() && forall|i: int| 0 <= i < a.len() ==> lower(#[trigger] a[i]) == lower(b[i])
}

fn lower_char(c: char) -> (r: char)
    ensures
        r == lower(c),
{
    if 'A' <= c && c <= 'Z' {
        (c as u8 + 32) as char
    } else {
        c
    }
}

fn is_same_but_case(a: &str, b: &str) -> (r: bool)
    ensures
        r == same_but_case(a@, b@),
{
    let x = chars_of(a);
    let y = chars_of(b);
    if x.len() != y.len() {
        return false;
    }
    let mut i: usize = 0;
    while i < x.len()
        invariant
            x@ == a@,
            y@ == b@,
            i <= x@.len() == y@.len(),
            forall|j: int| 0 <= j < i ==> lower(#[trigger] x@[j]) == lower(y@[j]),
        decreases x.len() - i,
    {
        if lower_char(x[i]) != lower_char(y[i]) {
            return false;
        }
        i = i + 1;
    }
    true
}

/// The value of the first header of a name, from a place on.
pub open spec fn value_of(headers: Seq<HeaderView>, name: Seq<char>) -> Option<Seq<u8>>
    decreases headers.len(),
{
    if headers.len() == 0 {
        None
    } else if same_but_case(headers[0].name, name) {
        Some(headers[0].value)
    } else {
        value_of(headers.skip(1), name)
    }
}

fn find_header<'a>(headers: &'a Vec<Header>, name: &str) -> (r: Option<&'a Vec<u8>>)
    ensures
        match r {
            Some(v) => value_of(crate::views::views(headers@), name@) == Some(v@),
            None => value_of(crate::views::views(headers@), name@) is None,
        },
{
    let ghost all = crate::views::views(headers@);
    let mut i: usize = 0;
    assert(all.skip(0) =~= all);
    while i < headers.len()
        invariant
            all == crate::views::views(headers@),
            i <= headers@.len(),
            value_of(all, name@) == value_of(all.skip(i as int), name@),
        decreases headers.len() - i,
    {
        assert(all.skip(i as int)[0] == headers@[i as int]@);
        assert(all.skip(i as int).skip(1) =~= all.skip(i + 1));
        if is_same_but_case(headers[i].name.as_str(), name) {
            return Some(&headers[i].value);
        }
        i = i + 1;
    }
    None
}

/// The number in a `Content-Length` header.
pub open spec fn content_length(headers: Seq<HeaderView>) -> Option<nat> {
    match value_of(headers, "content-length"@) {
        None => None,
        Some(value) => if valid_utf8(value) {
            unsigned_of(trimmed(decode_utf8(value)), usize::MAX as nat)
        } else {
            None
        },
    }
}

/// What a response says: its status and body, or why it is no use.
pub open spec fn response_of(head: ResponseHeadView, bytes: Seq<u8>) -> Result<(u16, Seq<char>), Seq<char>> {
    match head {
        ResponseHeadView::Malformed(reason) => Err("malformed response: "@ + reason),
        ResponseHeadView::Partial => Err("incomplete response from server"@),
        ResponseHeadView::Complete { code, headers, len } => match content_length(headers) {
            None => Err("response missing Content-Length header"@),
            Some(expected) => {
                let actual = (bytes.len() - len) as nat;
                if actual != expected {
                    Err("truncated response: expected "@ + decimal(expected) + " bytes, got "@ + decimal(actual))
                } else {
                    Ok(
                        (
                            match code {
                                Some(c) => c,
                                None => 0,
                            },
                            text_of(bytes.skip(len as int)),
                        ),
                    )
                }
            },
        },
    }
}

/// A result by what it holds.
pub open spec fn response_view(r: Result<(u16, String), String>) -> Result<(u16, Seq<char>), Seq<char>> {
    match r {
        Ok((status, body)) => Ok((status, body@)),
        Err(reason) => Err(reason@),
    }
}

fn copy_bytes(value: &Vec<u8>) -> (r: Vec<u8>)
    ensures
        r@ == value@,
{
    let mut out: Vec<u8> = Vec::new();
    let mut i: usize = 0;
    while i < value.len()
        invariant
            i <= value@.len(),
            out@ == value@.take(i as int),
        decreases value.len() - i,
    {
        out.push(value[i]);
        i = i + 1;
        assert(value@.take(i as int) =~= value@.take(i - 1).push(value@[i - 1]));
    }
    assert(value@.take(i as int) =~= value@);
    out
}

fn get_content_length(headers: &Vec<Header>) -> (r: Option<usize>)
    ensures
        match r {
            Some(n) => content_length(crate::views::views(headers@)) == Some(n as nat),
            None => content_length(crate::views::views(headers@)) is None,
        },
{
    match find_header(headers, "content-length") {
        None => None,
        Some(value) => match from_utf8(copy_bytes(value)) {
            Err(_) => None,
            Ok(text) => {
                let v = chars_of(text.as_str());
                let n: usize = v.len();
                let number = trim(&v, 0, n);
                assert(v@.subrange(0, n as int) =~= text@);
                match parse_unsigned(number.as_str(), usize::MAX as u64) {
                    Some(n) => Some(n as usize),
                    None => None,
                }
            },
        },
    }
}

/// What a response says, from the head that was found in it.
pub fn read_response(head: ResponseHead, bytes: &[u8]) -> (r: Result<(u16, String), String>)
    requires
        head matches ResponseHead::Complete { len, .. } ==> len <= bytes@.len(),
    ensures
        response_view(r) == response_of(head@, bytes@),
{
    match head {
        ResponseHead::Malformed(reason) => {
            let mut message = "malformed response: ".to_owned();
            message.append(reason.as_str());
            Err(message)
        },
        ResponseHead::Partial => Err("incomplete response from server".to_owned()),
        ResponseHead::Complete { code, headers, len } => {
            let expected = match get_content_length(&headers) {
                Some(n) => n,
                None => {
                    return Err("response missing Content-Length header".to_owned());
                },
            };
            let actual: usize = bytes.len() - len;
            if actual != expected {
                let mut message = "truncated response: expected ".to_owned();
                push_decimal(&mut message, expected as u64);
                message.append(" bytes, got ");
                push_decimal(&mut message, actual as u64);
                return Err(message);
            }
            let body = vstd::slice::slice_subrange(bytes, len, bytes.len());
            assert(body@ =~= bytes@.skip(len as int));
            let status: u16 = match code {
                Some(c) => c,
                None => 0,
            };
            Ok((status, from_utf8_lossy(body)))
        },
    }
}

/// What a response says: its status and its body. A response that is not as long as it says is refused.
pub fn parse_response(response: &[u8]) -> (r: Result<(u16, String), String>)
    ensures
        response_view(r) == response_of(response_head(response@), response@),
{
    read_response(parse_response_head(response), response)
}

/// What to do about a request that has been read so far.
#[derive(Debug, Clone, PartialEq, Eq)]
pub enum RequestStep {
    /// Read more.
    ReadOn,
    /// Close the connection.
    Drop,
    Answer(ParsedRequest),
}

/// A request that can be answered.
#[derive(Debug, Clone, PartialEq, Eq)]
pub struct ParsedRequest {
    pub method: String,
    pub path: String,
    /// The value of the `Authorization` header, if there is one and it is text.
    pub authorization: Option<String>,
}

/// What a [`ParsedRequest`] holds.
#[verifier::ext_equal]
pub struct ParsedRequestView {
    pub method: Seq<char>,
    pub path: Seq<char>,
    pub authorization: Option<Seq<char>>,
}

impl View for ParsedRequest {
    type V = ParsedRequestView;

    open spec fn view(&self) -> ParsedRequestView {
        ParsedRequestView {
            method: self.method@,
            path: self.path@,
            authorization: opt_view(self.authorization),
        }
    }
}

/// What a [`RequestStep`] holds.
#[verifier::ext_equal]
pub enum RequestStepView {
    ReadOn,
    Drop,
    Answer(ParsedRequestView),
}

impl View for RequestStep {
    type V = RequestStepView;

    open spec fn view(&self) -> RequestStepView {
        match self {
            RequestStep::ReadOn => RequestStepView::ReadOn,
            RequestStep::Drop => RequestStepView::Drop,
            RequestStep::Answer(request) => RequestStepView::Answer(request@),
        }
    }
}

/// A text, or the empty one.
pub open spec fn or_empty(o: Option<Seq<char>>) -> Seq<char> {
    match o {
        Some(s) => s,
        None => Seq::empty(),
    }
}

/// What to do about a request of which so many bytes with this head have been read; `ended` says that no
/// more will come.
pub open spec fn request_step(head: RequestHeadView, len: nat, ended: bool) -> RequestStepView {
    match head {
        RequestHeadView::Complete { method, path, headers } => RequestStepView::Answer(
            ParsedRequestView {
                method: or_empty(method),
                path: or_empty(path),
                authorization: match value_of(headers, "authorization"@) {
                    Some(value) => if valid_utf8(value) {
                        Some(decode_utf8(value))
                    } else {
                        None
                    },
                    None => None,
                },
            },
        ),
        RequestHeadView::Partial => if len >= MAX_MESSAGE_BYTES || ended {
            RequestStepView::Drop
        } else {
            RequestStepView::ReadOn
        },
        RequestHeadView::Malformed => RequestStepView::Drop,
    }
}

fn text_or_empty(o: Option<String>) -> (r: String)
    ensures
        r@ == or_empty(opt_view(o)),
{
    match o {
        Some(s) => s,
        None => {
            let empty = String::new();
            assert(empty@ =~= Seq::empty());
            empty
        },
    }
}

/// What to do about a request of which `len` bytes with this head have been read.
pub fn step_for(head: RequestHead, len: usize, ended: bool) -> (r: RequestStep)
    ensures
        r@ == request_step(head@, len as nat, ended),
{
    match head {
        RequestHead::Complete { method, path, headers } => {
            let authorization = match find_header(&headers, "authorization") {
                Some(value) => match from_utf8(copy_bytes(value)) {
                    Ok(text) => Some(text),
                    Err(_) => None,
                },
                None => None,
            };
            RequestStep::Answer(
                ParsedRequest { method: text_or_empty(method), path: text_or_empty(path), authorization },
            )
        },
        RequestHead::Partial => if len >= MAX_MESSAGE_BYTES || ended {
            RequestStep::Drop
        } else {
            RequestStep::ReadOn
        },
        RequestHead::Malformed => RequestStep::Drop,
    }
}

/// What to do about the bytes of a request that have been read so far; `ended` says that no more will come.
pub fn read_request(bytes: &[u8], ended: bool) -> (r: RequestStep)
    ensures
        r@ == request_step(request_head(bytes@), bytes@.len(), ended),
{
    step_for(parse_request_head(bytes), bytes.len(), ended)
}

/// What a request asks for.
#[derive(Debug, Clone, Copy, PartialEq, Eq, Structural)]
pub enum Route {
    /// The page.
    Page,
    /// The snapshot as JSON.
    Snapshot,
    NotFound,
    /// The credentials are missing or wrong.
    Unauthorized,
}

/// What a request asks for; where credentials are asked of it, they come first.
pub open spec fn route_of(request: ParsedRequestView, credentials: Option<(Seq<char>, Seq<char>)>) -> Route {
    if credentials matches Some((user, password)) && !granted(request.authorization, user, password) {
        Route::Unauthorized
    } else if request.method == "GET"@ && request.path == "/"@ {
        Route::Page
    } else if request.method == "GET"@ && request.path == "/api/snapshot"@ {
        Route::Snapshot
    } else {
        Route::NotFound
    }
}

/// Where credentials are asked for, nothing is served without them: not even that a page does not exist is
/// told. With them, or where none are asked for, the answer depends on the method and the path alone.
pub proof fn law_nothing_is_served_without_credentials(
    request: ParsedRequestView,
    user: Seq<char>,
    password: Seq<char>,
)
    ensures
        !granted(request.authorization, user, password) <==> route_of(request, Some((user, password)))
            == Route::Unauthorized,
        granted(request.authorization, user, password) ==> route_of(request, Some((user, password))) == route_of(
            request,
            None,
        ),
{
}

/// What a request asks for. With `credentials`, a request without them is not let in.
pub fn route(request: &ParsedRequest, credentials: Option<(&str, &str)>) -> (r: Route)
    ensures
        r == route_of(
            request@,
            match credentials {
                Some((user, password)) => Some((user@, password@)),
                None => None,
            },
        ),
{
    if let Some((user, password)) = credentials {
        let header = match &request.authorization {
            Some(value) => Some(value.as_str()),
            None => None,
        };
        if !check(header, user, password) {
            return Route::Unauthorized;
        }
    }
    if same(request.method.as_str(), "GET") {
        if same(request.path.as_str(), "/") {
            return Route::Page;
        }
        if same(request.path.as_str(), "/api/snapshot") {
            return Route::Snapshot;
        }
    }
    Route::NotFound
}

/// The words that go with a status.
pub open spec fn reason_of(status: u16) -> Seq<char> {
    if status == 200 {
        "OK"@
    } else if status == 404 {
        "Not Found"@
    } else if status == 500 {
        "Internal Server Error"@
    } else {
        "Unknown"@
    }
}

/// The words that go with a status.
pub fn reason_phrase(status: u16) -> (r: &'static str)
    ensures
        r@ == reason_of(status),
{
    if status == 200 {
        "OK"
    } else if status == 404 {
        "Not Found"
    } else if status == 500 {
        "Internal Server Error"
    } else {
        "Unknown"
    }
}

/// The head of a response with a body of so many bytes.
pub open spec fn response_head_text(status: u16, content_type: Seq<char>, len: nat) -> Seq<char> {
    "HTTP/1.1 "@ + decimal(status as nat) + " "@ + reason_of(status) + "\r\nContent-Length: "@ + decimal(len)
        + "\r\nContent-Type: "@ + content_type + "\r\nConnection: close\r\n\r\n"@
}

/// The head of a response with a body of `len` bytes.
pub fn response_header(status: u16, content_type: &str, len: usize) -> (r: String)
    ensures
        r@ == response_head_text(status, content_type@, len as nat),
{
    let mut out = "HTTP/1.1 ".to_owned();
    push_decimal(&mut out, status as u64);
    out.append(" ");
    out.append(reason_phrase(status));
    out.append("\r\nContent-Length: ");
    push_decimal(&mut out, len as u64);
    out.append("\r\nContent-Type: ");
    out.append(content_type);
    out.append("\r\nConnection: close\r\n\r\n");
    out
}

/// A response: its status, the type of its body and its body.
pub struct Response {
    pub status: u16,
    pub content_type: &'static str,
    pub body: Vec<u8>,
}

/// The response with a serialized value, or the one that says that it could not be serialized.
pub fn json_response(serialized: Option<Vec<u8>>) -> (r: Response)
    ensures
        match serialized {
            Some(body) => r.status == 200 && r.content_type@ == "application/json"@ && r.body@ == body@,
            None => r.status == 500 && r.content_type@ == "text/plain"@ && r.body@ == vstd::utf8::encode_utf8(
                "failed to serialize snapshot"@,
            ),
        },
{
    match serialized {
        Some(body) => Response { status: 200, content_type: "application/json", body },
        None => Response {
            status: 500,
            content_type: "text/plain",
            body: "failed to serialize snapshot".as_bytes_vec(),
        },
    }
}

/// The response to a request for what is not there.
pub fn not_found() -> (r: Response)
    ensures
        r.status == 404,
        r.content_type@ == "text/plain"@,
        r.body@ == vstd::utf8::encode_utf8("not found"@),
{
    Response { status: 404, content_type: "text/plain", body: "not found".as_bytes_vec() }
}

/// The response with a page.
pub fn page(html: String) -> (r: Response)
    ensures
        r.status == 200,
        r.content_type@ == "text/html"@,
        r.body@ == vstd::utf8::encode_utf8(html@),
{
    Response { status: 200, content_type: "text/html", body: html.as_str().as_bytes_vec() }
}

/// The response to a request without credentials.
pub fn unauthorized() -> (r: Response)
    ensures
        r.status == 401,
        r.content_type@ == "text/plain"@,
        r.body@ == vstd::utf8::encode_utf8("unauthorized"@),
{
    Response { status: 401, content_type: "text/plain", body: "unauthorized".as_bytes_vec() }
}

/// The text of a request without a body.
pub open spec fn request_text_of(method: Seq<char>, path: Seq<char>) -> Seq<char> {
    method + " "@ + path + " HTTP/1.1\r\nHost: localhost\r\nContent-Length: 0\r\n\r\n"@
}

/// The text of a request without a body.
pub fn request_text(method: &str, path: &str) -> (r: String)
    ensures
        r@ == request_text_of(method@, path@),
{
    let mut out = method.to_owned();
    out.append(" ");
    out.append(path);
    out.append(" HTTP/1.1\r\nHost: localhost\r\nContent-Length: 0\r\n\r\n");
    out
}

/// The body of a response whose status says that all went well.
pub open spec fn ok_body(path: Seq<char>, status: u16, body: Seq<char>) -> Result<Seq<char>, Seq<char>> {
    if 200 <= status < 300 {
        Ok(body)
    } else {
        Err("GET "@ + path + " returned status "@ + decimal(status as nat) + ": "@ + body)
    }
}

/// The body of a response to a request for `path`, if its status says that all went well.
pub fn expect_ok(path: &str, status: u16, body: String) -> (r: Result<String, String>)
    ensures
        match r {
            Ok(b) => ok_body(path@, status, body@) == Ok::<Seq<char>, Seq<char>>(b@),
            Err(e) => ok_body(path@, status, body@) == Err::<Seq<char>, Seq<char>>(e@),
        },
{
    if 200 <= status && status < 300 {
        Ok(body)
    } else {
        let mut message = "GET ".to_owned();
        message.append(path);
        message.append(" returned status ");
        push_decimal(&mut message, status as u64);
        message.append(": ");
        message.append(body.as_str());
        Err(message)
    }
}

/// The host in an address: what stands before its last colon, or all of it if it has none.
pub open spec fn host_of(addr: Seq<char>) -> Seq<char> {
    if exists|i: int| is_last_colon(addr, i) {
        addr.take(choose|i: int| is_last_colon(addr, i))
    } else {
        addr
    }
}

pub open spec fn is_last_colon(s: Seq<char>, i: int) -> bool {
    &&& 0 <= i < s.len()
    &&& s[i] == ':'
    &&& forall|j: int| i < j < s.len() ==> s[j] != ':'
}

/// The host in an address, without the port.
pub fn host_of_addr(addr: &str) -> (r: String)
    ensures
        r@ == host_of(addr@),
{
    let v = chars_of(addr);
    let mut i: usize = v.len();
    while i > 0
        invariant
            v@ == addr@,
            i <= v@.len(),
            forall|j: int| i <= j < v@.len() ==> v@[j] != ':',
        decreases i,
    {
        if v[i - 1] == ':' {
            assert(is_last_colon(addr@, i - 1));
            let ghost k = choose|k: int| is_last_colon(addr@, k);
            assert(k == i - 1);
            let host = crate::text::string_of(&v, 0, i - 1);
            assert(host@ =~= addr@.take(i - 1));
            return host;
        }
        i = i - 1;
    }
    addr.to_owned()
}

} // verus!
