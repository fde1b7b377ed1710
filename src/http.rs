use vstd::prelude::*;
use vstd::string::StringExecFns;
use vstd::utf8::{decode_utf8, encode_utf8, valid_utf8};

use crate::headers::{find_key, insert_entry, lookup, Entry, HeaderMap};
use crate::text::{
    decimal, decimal_text, fields, find_char, join, join_with, lines, lowercase_of, non_empty, split_at_colon,
    split_colon, split_fields, split_lines, to_lower, to_upper, trim, trim_text, uppercase_of,
    views,
};

verus! {

/// The request methods this server knows.
#[derive(Clone, Copy, Debug, PartialEq, Eq, Structural)]
pub enum HTTPMethod {
    GET,
    POST,
    PUT,
    DELETE,
    HEAD,
    CONNECT,
    OPTIONS,
    TRACE,
    PATCH,
}

/// The response statuses this server sends.
#[derive(Clone, Copy, Debug, PartialEq, Eq, Structural)]
pub enum HTTPResponseStatus {
    OK,
    NotFound,
    Created,
    ImATeapot,
}

/// The status line of `s`, with its line end.
pub open spec fn status_line(s: HTTPResponseStatus) -> Seq<char> {
    match s {
        HTTPResponseStatus::OK => "HTTP/1.1 200 OK\r\n"@,
        HTTPResponseStatus::NotFound => "HTTP/1.1 404 Not Found\r\n"@,
        HTTPResponseStatus::Created => "HTTP/1.1 201 Created\r\n"@,
        HTTPResponseStatus::ImATeapot => "HTTP/1.1 418 I'm a teapot\r\n"@,
    }
}

impl HTTPResponseStatus {
    pub fn as_str(&self) -> (r: &'static str)
        ensures
            r@ == status_line(*self),
    {
        match self {
            HTTPResponseStatus::OK => "HTTP/1.1 200 OK\r\n",
            HTTPResponseStatus::NotFound => "HTTP/1.1 404 Not Found\r\n",
            HTTPResponseStatus::Created => "HTTP/1.1 201 Created\r\n",
            HTTPResponseStatus::ImATeapot => "HTTP/1.1 418 I'm a teapot\r\n",
        }
    }
}

/// A response as values: status, header entries if any, body if any.
pub struct ResponseView {
    pub status: HTTPResponseStatus,
    pub headers: Option<Seq<Entry>>,
    pub body: Option<Seq<char>>,
}

pub struct HTTPResponse {
    pub status: HTTPResponseStatus,
    pub header: Option<HeaderMap>,
    pub body: Option<String>,
}

impl View for HTTPResponse {
    type V = ResponseView;

    open spec fn view(&self) -> ResponseView {
        ResponseView {
            status: self.status,
            headers: match self.header {
                Some(h) => Some(h@),
                None => None,
            },
            body: match self.body {
                Some(b) => Some(b@),
                None => None,
            },
        }
    }
}

/// The header lines of `es`, each `key: value` and a line end.
pub open spec fn header_lines(es: Seq<Entry>) -> Seq<char>
    decreases es.len(),
{
    if es.len() == 0 {
        seq![]
    } else {
        header_lines(es.drop_last()) + es.last().0 + ": "@ + es.last().1 + "\r\n"@
    }
}

/// The bytes on the wire (as characters) for `r`: status line, header lines, a blank
/// line, then the body and a line end where there is a body.
pub open spec fn serialize(r: ResponseView) -> Seq<char> {
    status_line(r.status) + match r.headers {
        Some(es) => header_lines(es),
        None => seq![],
    } + "\r\n"@ + match r.body {
        Some(b) => b + "\r\n"@,
        None => seq![],
    }
}

/// A response with no header block and no body.
pub open spec fn bare_response(s: HTTPResponseStatus) -> ResponseView {
    ResponseView { status: s, headers: None, body: None }
}

/// The length of `s` in UTF-8 bytes, as `str::len` gives it for a string held in memory.
pub open spec fn byte_len(s: Seq<char>) -> usize {
    encode_utf8(s).len() as usize
}

/// A `200` response that carries `body`, with its content type and its length in
/// UTF-8 bytes.
pub open spec fn content_response(body: Seq<char>, content_type: Seq<char>) -> ResponseView {
    ResponseView {
        status: HTTPResponseStatus::OK,
        headers: Some(
            seq![
                ("Content-Type"@, content_type),
                ("Content-Length"@, decimal(byte_len(body) as nat)),
            ],
        ),
        body: Some(body),
    }
}

/// A response is framed when a body comes with headers that give its content type and
/// its length in UTF-8 bytes.
pub open spec fn framed(r: ResponseView) -> bool {
    r.body matches Some(b) ==> (r.headers matches Some(es) && lookup(es, "Content-Length"@)
        == Some(decimal(byte_len(b) as nat)) && lookup(es, "Content-Type"@) is Some)
}

/// Every response that the constructors build is framed.
pub proof fn lemma_responses_framed()
    ensures
        forall|body: Seq<char>, content_type: Seq<char>|
            #[trigger] framed(content_response(body, content_type)),
        forall|s: HTTPResponseStatus| #[trigger] framed(bare_response(s)),
{
    reveal_strlit("Content-Type");
    reveal_strlit("Content-Length");
    assert("Content-Type"@.len() != "Content-Length"@.len());
    assert forall|body: Seq<char>, content_type: Seq<char>|
        #[trigger] framed(content_response(body, content_type)) by {
        let es = content_response(body, content_type).headers.unwrap();
        assert(es[0].0 != "Content-Length"@);
        assert(find_key(es, "Content-Length"@, 1) == 1);
        assert(find_key(es, "Content-Length"@, 0) == 1);
        assert(find_key(es, "Content-Type"@, 0) == 0);
    }
}

impl HTTPResponse {
    /// Writes the response out for the wire.
    pub fn to_string(&self) -> (r: String)
        ensures
            r@ == serialize(self@),
    {
        let mut out = String::from_str(self.status.as_str());
        let ghost head = out@;
        if let Some(h) = &self.header {
            let n = h.len();
            let mut i: usize = 0;
            while i < n
                invariant
                    n == h@.len(),
                    i <= n,
                    out@ == head + header_lines(h@.subrange(0, i as int)),
                decreases n - i,
            {
                let (k, v) = h.entry(i);
                out.append(k.as_str());
                out.append(": ");
                out.append(v.as_str());
                out.append("\r\n");
                assert(h@.subrange(0, i + 1).drop_last() == h@.subrange(0, i as int));
                i = i + 1;
            }
            assert(h@.subrange(0, n as int) == h@);
        }
        out.append("\r\n");
        if let Some(b) = &self.body {
            out.append(b.as_str());
            out.append("\r\n");
        }
        out
    }
}

/// A response of status `status` with neither headers nor body.
pub fn make_http_empty(status: HTTPResponseStatus) -> (r: HTTPResponse)
    ensures
        r@ == bare_response(status),
{
    HTTPResponse { status, header: None, body: None }
}

pub fn make_http_404_not_found() -> (r: HTTPResponse)
    ensures
        r@ == bare_response(HTTPResponseStatus::NotFound),
{
    make_http_empty(HTTPResponseStatus::NotFound)
}

pub fn make_http_201_created() -> (r: HTTPResponse)
    ensures
        r@ == bare_response(HTTPResponseStatus::Created),
{
    make_http_empty(HTTPResponseStatus::Created)
}

fn make_http_200_content(content: String, content_type: &str) -> (r: HTTPResponse)
    ensures
        r@ == content_response(content@, content_type@),
        r.header matches Some(h) && h.wf(),
{
    let mut header = HeaderMap::new();
    let type_key = String::from_str("Content-Type");
    let length_key = String::from_str("Content-Length");
    proof {
        reveal_strlit("Content-Type");
        reveal_strlit("Content-Length");
        assert(type_key@.len() != length_key@.len());
    }
    let ghost tk = type_key@;
    let ghost lk = length_key@;
    header.insert(type_key, String::from_str(content_type));
    let ghost h1 = header@;
    assert(h1 == seq![(tk, content_type@)]);
    let length = decimal_text(content.as_str().len());
    assert(tk != lk);
    assert(find_key(h1, lk, 1) == 1);
    assert(find_key(h1, lk, 0) == 1);
    header.insert(length_key, length);
    let r = HTTPResponse { status: HTTPResponseStatus::OK, header: Some(header), body: Some(content) };
    assert(r@.headers == content_response(content@, content_type@).headers);
    r
}

/// A `200` response carrying `content` as plain text.
pub fn make_http_200_return_text(content: String) -> (r: HTTPResponse)
    ensures
        r@ == content_response(content@, "text/plain"@),
{
    make_http_200_content(content, "text/plain")
}

/// A `200` response carrying `content` as the bytes of a file.
pub fn make_http_200_return_file(content: String) -> (r: HTTPResponse)
    ensures
        r@ == content_response(content@, "application/octet-stream"@),
{
    make_http_200_content(content, "application/octet-stream")
}


/// Why a request could not be read.
#[derive(Clone, Copy, Debug, PartialEq, Eq, Structural)]
pub enum ParseError {
    /// The bytes are not UTF-8.
    Encoding,
    /// There is no line at all.
    EmptyRequest,
    /// The start line lacks a method, a path or a version.
    MalformedStartLine,
    /// The method is none of those this server knows.
    UnsupportedMethod,
    /// A header line holds no `:`.
    MalformedHeader,
}

/// The method named by `s`, which is already upper case.
pub open spec fn method_named(s: Seq<char>) -> Option<HTTPMethod> {
    if s == "GET"@ {
        Some(HTTPMethod::GET)
    } else if s == "POST"@ {
        Some(HTTPMethod::POST)
    } else if s == "PUT"@ {
        Some(HTTPMethod::PUT)
    } else if s == "DELETE"@ {
        Some(HTTPMethod::DELETE)
    } else if s == "HEAD"@ {
        Some(HTTPMethod::HEAD)
    } else if s == "CONNECT"@ {
        Some(HTTPMethod::CONNECT)
    } else if s == "OPTIONS"@ {
        Some(HTTPMethod::OPTIONS)
    } else if s == "TRACE"@ {
        Some(HTTPMethod::TRACE)
    } else if s == "PATCH"@ {
        Some(HTTPMethod::PATCH)
    } else {
        None
    }
}

/// The method for a token: it is matched upper-cased.
pub open spec fn method_of_token(token: Seq<char>) -> Option<HTTPMethod> {
    method_named(uppercase_of(token))
}

/// Reads an upper-case method name.
pub fn method_from_upper(name: &String) -> (r: Result<HTTPMethod, ParseError>)
    ensures
        match method_named(name@) {
            Some(m) => r == Ok::<HTTPMethod, ParseError>(m),
            None => r == Err::<HTTPMethod, ParseError>(ParseError::UnsupportedMethod),
        },
{
    if *name == String::from_str("GET") {
        Ok(HTTPMethod::GET)
    } else if *name == String::from_str("POST") {
        Ok(HTTPMethod::POST)
    } else if *name == String::from_str("PUT") {
        Ok(HTTPMethod::PUT)
    } else if *name == String::from_str("DELETE") {
        Ok(HTTPMethod::DELETE)
    } else if *name == String::from_str("HEAD") {
        Ok(HTTPMethod::HEAD)
    } else if *name == String::from_str("CONNECT") {
        Ok(HTTPMethod::CONNECT)
    } else if *name == String::from_str("OPTIONS") {
        Ok(HTTPMethod::OPTIONS)
    } else if *name == String::from_str("TRACE") {
        Ok(HTTPMethod::TRACE)
    } else if *name == String::from_str("PATCH") {
        Ok(HTTPMethod::PATCH)
    } else {
        Err(ParseError::UnsupportedMethod)
    }
}

/// Reads a method token, in any case.
pub fn parse_http_method(method: &str) -> (r: Result<HTTPMethod, ParseError>)
    ensures
        match method_of_token(method@) {
            Some(m) => r == Ok::<HTTPMethod, ParseError>(m),
            None => r == Err::<HTTPMethod, ParseError>(ParseError::UnsupportedMethod),
        },
{
    let upper = to_upper(method);
    method_from_upper(&upper)
}

/// A request as values.
pub struct RequestView {
    pub method: HTTPMethod,
    pub path: Seq<char>,
    pub version: Seq<char>,
    pub headers: Seq<Entry>,
    pub body: Option<Seq<char>>,
}

pub struct HTTPRequest {
    pub method: HTTPMethod,
    pub path: String,
    pub version: String,
    pub header: HeaderMap,
    pub body: Option<String>,
}

impl View for HTTPRequest {
    type V = RequestView;

    open spec fn view(&self) -> RequestView {
        RequestView {
            method: self.method,
            path: self.path@,
            version: self.version@,
            headers: self.header@,
            body: match self.body {
                Some(b) => Some(b@),
                None => None,
            },
        }
    }
}

/// The header entry that a header line gives: the key trimmed and lower-cased, the
/// value trimmed; `None` where the line holds no `:`.
pub open spec fn header_entry(line: Seq<char>) -> Option<Entry> {
    match split_colon(line) {
        Some((k, v)) => Some((lowercase_of(trim(k)), trim(v))),
        None => None,
    }
}

/// Index of the first empty line of `ls` at or after `i`, or the count of lines.
pub open spec fn header_end(ls: Seq<Seq<char>>, i: int) -> int
    decreases ls.len() - i,
{
    if 0 <= i < ls.len() && ls[i].len() > 0 {
        header_end(ls, i + 1)
    } else {
        i
    }
}

/// The entries `es` with those of the header lines of `ls` from `i` on added in turn,
/// up to the first empty line; `None` where one of those lines holds no `:`.
pub open spec fn headers_scan(ls: Seq<Seq<char>>, i: int, es: Seq<Entry>) -> Option<Seq<Entry>>
    decreases ls.len() - i,
{
    if 0 <= i < ls.len() && ls[i].len() > 0 {
        match header_entry(ls[i]) {
            Some(e) => headers_scan(ls, i + 1, insert_entry(es, e.0, e.1)),
            None => None,
        }
    } else {
        Some(es)
    }
}

/// The lines after the blank line that ends the headers.
pub open spec fn body_lines(ls: Seq<Seq<char>>) -> Seq<Seq<char>> {
    let e = header_end(ls, 1);
    if e < ls.len() {
        ls.subrange(e + 1, ls.len() as int)
    } else {
        seq![]
    }
}

/// The body: the non-empty body lines joined by CRLF, where that is not empty.
pub open spec fn body_of(ls: Seq<Seq<char>>) -> Option<Seq<char>> {
    let b = join(non_empty(body_lines(ls)), "\r\n"@);
    if b.len() > 0 {
        Some(b)
    } else {
        None
    }
}

/// What a request text means, or why it is rejected.
pub open spec fn parse_request(t: Seq<char>) -> Result<RequestView, ParseError> {
    let ls = lines(t);
    if ls.len() == 0 {
        Err(ParseError::EmptyRequest)
    } else {
        let ws = fields(ls[0], false);
        if ws.len() < 3 {
            Err(ParseError::MalformedStartLine)
        } else {
            match method_of_token(ws[0]) {
                None => Err(ParseError::UnsupportedMethod),
                Some(m) => match headers_scan(ls, 1, seq![]) {
                    None => Err(ParseError::MalformedHeader),
                    Some(hs) => Ok(
                        RequestView {
                            method: m,
                            path: ws[1],
                            version: ws[2],
                            headers: hs,
                            body: body_of(ls),
                        },
                    ),
                },
            }
        }
    }
}

pub open spec fn request_result_view(r: Result<HTTPRequest, ParseError>) -> Result<
    RequestView,
    ParseError,
> {
    match r {
        Ok(q) => Ok(q@),
        Err(e) => Err(e),
    }
}

/// Reads a request from its text.
pub fn parse_http_request(request: &str) -> (r: Result<HTTPRequest, ParseError>)
    ensures
        request_result_view(r) == parse_request(request@),
        r matches Ok(q) ==> q.header.wf(),
{
    let ls = split_lines(request);
    let ghost l = views(ls@);
    let n = ls.len();
    if n == 0 {
        return Err(ParseError::EmptyRequest);
    }
    let ws = split_fields(ls[0].as_str(), false);
    assert(views(ws@) == fields(l[0], false));
    if ws.len() < 3 {
        return Err(ParseError::MalformedStartLine);
    }
    assert(ws[0]@ == views(ws@)[0]);
    let method = match parse_http_method(ws[0].as_str()) {
        Ok(m) => m,
        Err(e) => {
            return Err(e);
        },
    };
    assert(ws[1]@ == views(ws@)[1]);
    assert(ws[2]@ == views(ws@)[2]);
    let mut headers = HeaderMap::new();
    let mut i: usize = 1;
    while i < n && !ls[i].as_str().is_empty()
        invariant
            l == views(ls@),
            l == lines(request@),
            n == l.len(),
            1 <= i <= n,
            views(ws@) == fields(l[0], false),
            ws.len() >= 3,
            method_of_token(views(ws@)[0]) == Some(method),
            headers.wf(),
            headers_scan(l, 1, seq![]) == headers_scan(l, i as int, headers@),
            header_end(l, 1) == header_end(l, i as int),
        decreases n - i,
    {
        assert(ls[i as int]@ == l[i as int]);
        match split_at_colon(ls[i].as_str()) {
            Some((k, v)) => {
                let key = to_lower(trim_text(k.as_str()).as_str());
                let value = trim_text(v.as_str());
                headers.insert(key, value);
            },
            None => {
                assert(header_entry(l[i as int]) is None);
                assert(headers_scan(l, i as int, headers@) is None);
                return Err(ParseError::MalformedHeader);
            },
        }
        i = i + 1;
    }
    assert(header_end(l, i as int) == i);
    let start: usize = if i < n {
        i + 1
    } else {
        n
    };
    assert(body_lines(l) == l.subrange(start as int, n as int));
    let mut kept: Vec<String> = Vec::new();
    let mut j: usize = start;
    while j < n
        invariant
            l == views(ls@),
            n == l.len(),
            start <= j <= n,
            views(kept@) == non_empty(l.subrange(start as int, j as int)),
        decreases n - j,
    {
        assert(l.subrange(start as int, j + 1).drop_last() == l.subrange(start as int, j as int));
        assert(ls[j as int]@ == l[j as int]);
        if !ls[j].as_str().is_empty() {
            assert(views(kept@.push(ls[j as int])) == views(kept@).push(ls[j as int]@));
            kept.push(ls[j].clone());
        }
        j = j + 1;
    }
    assert(l.subrange(start as int, n as int) == body_lines(l));
    let joined = join_with(&kept, "\r\n");
    let body = if joined.as_str().is_empty() {
        None
    } else {
        Some(joined)
    };
    Ok(
        HTTPRequest {
            method,
            path: ws[1].clone(),
            version: ws[2].clone(),
            header: headers,
            body,
        },
    )
}


/// Relies on std::str::from_utf8: it accepts exactly the well-formed UTF-8 byte
/// sequences, and the text then holds the characters that they encode.
#[verifier::external_body]
fn decode_text(bytes: &[u8]) -> (r: Option<String>)
    ensures
        r is Some <==> valid_utf8(bytes@),
        r matches Some(s) ==> s@ == decode_utf8(bytes@),
{
    match std::str::from_utf8(bytes) {
        Ok(s) => Some(s.to_string()),
        Err(_) => None,
    }
}

/// What request bytes mean: UTF-8 text read as a request.
pub open spec fn parse_request_bytes(raw: Seq<u8>) -> Result<RequestView, ParseError> {
    if valid_utf8(raw) {
        parse_request(decode_utf8(raw))
    } else {
        Err(ParseError::Encoding)
    }
}

/// Reads a request from the bytes received.
pub fn parse_http_bytes(raw: &[u8]) -> (r: Result<HTTPRequest, ParseError>)
    ensures
        request_result_view(r) == parse_request_bytes(raw@),
        r matches Ok(q) ==> q.header.wf(),
{
    match decode_text(raw) {
        Some(text) => parse_http_request(text.as_str()),
        None => Err(ParseError::Encoding),
    }
}


proof fn lemma_colon_after_key(k: Seq<char>, v: Seq<char>, i: int)
    requires
        0 <= i <= k.len(),
        !k.contains(':'),
    ensures
        find_char(k + seq![':'] + v, ':', i) == k.len(),
    decreases k.len() - i,
{
    let s = k + seq![':'] + v;
    if i < k.len() {
        assert(s[i] == k[i]);
        lemma_colon_after_key(k, v, i + 1);
    } else {
        assert(s[i] == ':');
    }
}

/// A header line `key:value`, whose key holds no `:`, splits into that key and value.
pub proof fn lemma_header_line_splits(k: Seq<char>, v: Seq<char>)
    requires
        !k.contains(':'),
    ensures
        split_colon(k + seq![':'] + v) == Some((k, v)),
{
    let s = k + seq![':'] + v;
    lemma_colon_after_key(k, v, 0);
    assert(s.subrange(0, k.len() as int) == k);
    assert(s.subrange(k.len() as int + 1, s.len() as int) == v);
}

/// Header keys are case-insensitive: two header lines with the same value whose keys
/// differ only in what lower-casing removes give the identical entry.
pub proof fn lemma_header_key_case_insensitive(k1: Seq<char>, k2: Seq<char>, v: Seq<char>)
    requires
        !k1.contains(':'),
        !k2.contains(':'),
        lowercase_of(trim(k1)) == lowercase_of(trim(k2)),
    ensures
        header_entry(k1 + seq![':'] + v) == header_entry(k2 + seq![':'] + v),
        header_entry(k1 + seq![':'] + v) == Some((lowercase_of(trim(k1)), trim(v))),
{
    lemma_header_line_splits(k1, v);
    lemma_header_line_splits(k2, v);
}

/// Serializing is deterministic: a response, or any response with the same contents,
/// is written out to the same characters each time.
pub proof fn lemma_serialize_repeatable(a: HTTPResponse, b: HTTPResponse)
    requires
        a@ == b@,
    ensures
        serialize(a@) == serialize(b@),
{
}

} // verus!
