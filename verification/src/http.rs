//! The HTTP data model: methods, versions, status codes, content types and
//! encodings as closed enums, requests and responses with byte-string bodies
//! and ordered header tables, and the protocol-level error taxonomy.

use vstd::prelude::*;

use crate::bytes::{dec_digits, push_all, usize_to_dec};
use crate::table::{assoc_upsert, ByteTable};
use crate::tokens::{
    tok_content_length, tok_content_length_vec, tok_content_type, tok_content_type_vec, tok_get,
    tok_gzip, tok_http11, tok_invalid_method, tok_invalid_method_vec, tok_invalid_status_line,
    tok_invalid_status_line_vec, tok_invalid_version, tok_invalid_version_vec, tok_post,
    tok_status_created, tok_status_not_found, tok_status_ok, tok_status_server_error,
    tok_text_plain, tok_text_plain_vec,
};

verus! {

/// A request method. Anything but these two is a parse error, not a variant.
#[derive(Clone, Copy, PartialEq, Eq, Structural, Debug)]
pub enum HttpMethod {
    Get,
    Post,
}

/// The protocol version; only HTTP/1.1 is valid.
#[derive(Clone, Copy, PartialEq, Eq, Structural, Debug)]
pub enum HttpVersion {
    Http1_1,
}

/// The closed set of response status codes.
#[derive(Clone, Copy, PartialEq, Eq, Structural, Debug)]
pub enum StatusCode {
    Success,
    Created,
    NotFound,
    ServerError,
}

/// The closed set of content types that handlers produce.
#[derive(Clone, Copy, PartialEq, Eq, Structural, Debug)]
pub enum ContentType {
    TextPlain,
    ApplicationOctetStream,
}

/// The closed set of transfer encodings the negotiator understands.
#[derive(Clone, Copy, PartialEq, Eq, Structural, Debug)]
pub enum ContentEncoding {
    Gzip,
}

/// A protocol-level parse error, carrying the offending raw token.
#[derive(Debug)]
pub enum HttpException {
    InvalidMethod(Vec<u8>),
    InvalidVersion(Vec<u8>),
    InvalidStatusLine(Vec<u8>),
}

/// The spec-level shape of an [`HttpException`].
#[verifier::ext_equal]
pub enum HttpExceptionView {
    InvalidMethod(Seq<u8>),
    InvalidVersion(Seq<u8>),
    InvalidStatusLine(Seq<u8>),
}

impl View for HttpException {
    type V = HttpExceptionView;

    open spec fn view(&self) -> HttpExceptionView {
        match self {
            HttpException::InvalidMethod(t) => HttpExceptionView::InvalidMethod(t@),
            HttpException::InvalidVersion(t) => HttpExceptionView::InvalidVersion(t@),
            HttpException::InvalidStatusLine(t) => HttpExceptionView::InvalidStatusLine(t@),
        }
    }
}

/// The diagnostic text written back to the peer for a parse error.
pub open spec fn exception_message(e: HttpExceptionView) -> Seq<u8> {
    match e {
        HttpExceptionView::InvalidMethod(t) => tok_invalid_method() + t,
        HttpExceptionView::InvalidVersion(t) => tok_invalid_version() + t,
        HttpExceptionView::InvalidStatusLine(t) => tok_invalid_status_line() + t,
    }
}

impl HttpException {
    /// The diagnostic text for this error, prefix plus the raw token.
    pub fn message(&self) -> (v: Vec<u8>)
        ensures
            v@ == exception_message(self@),
    {
        match self {
            HttpException::InvalidMethod(t) => {
                let mut v = tok_invalid_method_vec();
                push_all(&mut v, t);
                v
            },
            HttpException::InvalidVersion(t) => {
                let mut v = tok_invalid_version_vec();
                push_all(&mut v, t);
                v
            },
            HttpException::InvalidStatusLine(t) => {
                let mut v = tok_invalid_status_line_vec();
                push_all(&mut v, t);
                v
            },
        }
    }
}

/// The wire form of a method token.
pub open spec fn method_bytes(m: HttpMethod) -> Seq<u8> {
    match m {
        HttpMethod::Get => tok_get(),
        HttpMethod::Post => tok_post(),
    }
}

/// The wire form of a version token.
pub open spec fn version_bytes(v: HttpVersion) -> Seq<u8> {
    match v {
        HttpVersion::Http1_1 => tok_http11(),
    }
}

/// The wire form of a status code, number and reason phrase.
pub open spec fn status_bytes(s: StatusCode) -> Seq<u8> {
    match s {
        StatusCode::Success => tok_status_ok(),
        StatusCode::Created => tok_status_created(),
        StatusCode::NotFound => tok_status_not_found(),
        StatusCode::ServerError => tok_status_server_error(),
    }
}

/// The wire form of a content type.
pub open spec fn content_type_bytes(t: ContentType) -> Seq<u8> {
    match t {
        ContentType::TextPlain => crate::tokens::tok_text_plain(),
        ContentType::ApplicationOctetStream => crate::tokens::tok_octet_stream(),
    }
}

/// The wire form of a content encoding token.
pub open spec fn encoding_bytes(e: ContentEncoding) -> Seq<u8> {
    match e {
        ContentEncoding::Gzip => tok_gzip(),
    }
}

impl HttpVersion {
    pub fn to_bytes(&self) -> (v: Vec<u8>)
        ensures
            v@ == version_bytes(*self),
    {
        match self {
            HttpVersion::Http1_1 => crate::tokens::tok_http11_vec(),
        }
    }
}

impl StatusCode {
    pub fn to_bytes(&self) -> (v: Vec<u8>)
        ensures
            v@ == status_bytes(*self),
    {
        match self {
            StatusCode::Success => crate::tokens::tok_status_ok_vec(),
            StatusCode::Created => crate::tokens::tok_status_created_vec(),
            StatusCode::NotFound => crate::tokens::tok_status_not_found_vec(),
            StatusCode::ServerError => crate::tokens::tok_status_server_error_vec(),
        }
    }
}

impl ContentType {
    pub fn to_bytes(&self) -> (v: Vec<u8>)
        ensures
            v@ == content_type_bytes(*self),
    {
        match self {
            ContentType::TextPlain => tok_text_plain_vec(),
            ContentType::ApplicationOctetStream => crate::tokens::tok_octet_stream_vec(),
        }
    }
}

impl ContentEncoding {
    pub fn to_bytes(&self) -> (v: Vec<u8>)
        ensures
            v@ == encoding_bytes(*self),
    {
        match self {
            ContentEncoding::Gzip => crate::tokens::tok_gzip_vec(),
        }
    }
}

impl HttpMethod {
    pub fn to_bytes(&self) -> (v: Vec<u8>)
        ensures
            v@ == method_bytes(*self),
    {
        match self {
            HttpMethod::Get => crate::tokens::tok_get_vec(),
            HttpMethod::Post => crate::tokens::tok_post_vec(),
        }
    }

    /// Reads a method token: exactly `GET` or `POST`, anything else is an
    /// [`HttpException::InvalidMethod`] carrying the token.
    pub fn parse_method(raw_method: &Vec<u8>) -> (r: Result<HttpMethod, HttpException>)
        ensures
            match r {
                Ok(m) => raw_method@ == method_bytes(m),
                Err(e) => {
                    &&& raw_method@ != tok_get()
                    &&& raw_method@ != tok_post()
                    &&& e@ == HttpExceptionView::InvalidMethod(raw_method@)
                },
            },
    {
        if crate::bytes::vec_u8_eq(raw_method, &crate::tokens::tok_get_vec()) {
            Ok(HttpMethod::Get)
        } else if crate::bytes::vec_u8_eq(raw_method, &crate::tokens::tok_post_vec()) {
            Ok(HttpMethod::Post)
        } else {
            Err(HttpException::InvalidMethod(crate::bytes::clone_bytes(raw_method)))
        }
    }
}

impl HttpVersion {
    /// Reads a version token: exactly `HTTP/1.1`, anything else is an
    /// [`HttpException::InvalidVersion`] carrying the token.
    pub fn parse_version(raw_version: &Vec<u8>) -> (r: Result<HttpVersion, HttpException>)
        ensures
            match r {
                Ok(v) => raw_version@ == version_bytes(v),
                Err(e) => {
                    &&& raw_version@ != tok_http11()
                    &&& e@ == HttpExceptionView::InvalidVersion(raw_version@)
                },
            },
    {
        if crate::bytes::vec_u8_eq(raw_version, &crate::tokens::tok_http11_vec()) {
            Ok(HttpVersion::Http1_1)
        } else {
            Err(HttpException::InvalidVersion(crate::bytes::clone_bytes(raw_version)))
        }
    }
}

/// A parsed request.
pub struct Request {
    pub http_method: HttpMethod,
    pub request_target: Vec<u8>,
    pub http_version: HttpVersion,
    pub headers: ByteTable,
    pub body: Vec<u8>,
}

/// The spec-level shape of a [`Request`].
#[verifier::ext_equal]
pub struct RequestView {
    pub method: HttpMethod,
    pub target: Seq<u8>,
    pub version: HttpVersion,
    pub headers: Seq<(Seq<u8>, Seq<u8>)>,
    pub body: Seq<u8>,
}

impl View for Request {
    type V = RequestView;

    open spec fn view(&self) -> RequestView {
        RequestView {
            method: self.http_method,
            target: self.request_target@,
            version: self.http_version,
            headers: self.headers@,
            body: self.body@,
        }
    }
}

impl Request {
    /// Well-formed: no header name occurs twice.
    pub open spec fn wf(&self) -> bool {
        self.headers.wf()
    }

    pub fn new(
        http_method: HttpMethod,
        request_target: Vec<u8>,
        http_version: HttpVersion,
        headers: ByteTable,
        body: Vec<u8>,
    ) -> (r: Request)
        ensures
            r@ == (RequestView {
                method: http_method,
                target: request_target@,
                version: http_version,
                headers: headers@,
                body: body@,
            }),
            headers.wf() ==> r.wf(),
    {
        Request { http_method, request_target, http_version, headers, body }
    }
}

/// A response under construction.
pub struct Response {
    pub http_version: HttpVersion,
    pub status_code: StatusCode,
    pub headers: ByteTable,
    pub body: Vec<u8>,
}

/// The spec-level shape of a [`Response`].
#[verifier::ext_equal]
pub struct ResponseView {
    pub version: HttpVersion,
    pub status: StatusCode,
    pub headers: Seq<(Seq<u8>, Seq<u8>)>,
    pub body: Seq<u8>,
}

impl View for Response {
    type V = ResponseView;

    open spec fn view(&self) -> ResponseView {
        ResponseView {
            version: self.http_version,
            status: self.status_code,
            headers: self.headers@,
            body: self.body@,
        }
    }
}

/// The header table after [`Response::success`]: `Content-Type: text/plain`
/// and a `Content-Length` equal to the body's byte length.
pub open spec fn success_headers(hs: Seq<(Seq<u8>, Seq<u8>)>, body: Seq<u8>) -> Seq<
    (Seq<u8>, Seq<u8>),
> {
    assoc_upsert(
        assoc_upsert(hs, tok_content_type(), tok_text_plain()),
        tok_content_length(),
        dec_digits(body.len() as int),
    )
}

impl Response {
    /// Well-formed: no header name occurs twice.
    pub open spec fn wf(&self) -> bool {
        self.headers.wf()
    }

    /// A response with the given status line fields and body, and no headers.
    pub fn new(http_version: HttpVersion, status_code: StatusCode, body: Vec<u8>) -> (r: Response)
        ensures
            r@ == (ResponseView {
                version: http_version,
                status: status_code,
                headers: Seq::<(Seq<u8>, Seq<u8>)>::empty(),
                body: body@,
            }),
            r.wf(),
    {
        Response { http_version, status_code, body, headers: ByteTable::new() }
    }

    /// Replaces the status line fields and the body; the headers stay.
    pub fn update(&mut self, http_version: HttpVersion, status_code: StatusCode, body: Vec<u8>)
        ensures
            final(self)@ == (ResponseView {
                version: http_version,
                status: status_code,
                headers: old(self)@.headers,
                body: body@,
            }),
            old(self).wf() ==> final(self).wf(),
    {
        self.http_version = http_version;
        self.status_code = status_code;
        self.body = body;
    }

    /// The default response: 404 Not Found, empty body, no headers.
    pub fn new_404() -> (r: Response)
        ensures
            r@ == (ResponseView {
                version: HttpVersion::Http1_1,
                status: StatusCode::NotFound,
                headers: Seq::<(Seq<u8>, Seq<u8>)>::empty(),
                body: Seq::<u8>::empty(),
            }),
            r.wf(),
    {
        let r = Response::new(HttpVersion::Http1_1, StatusCode::NotFound, Vec::new());
        proof {
            assert(r@.body =~= Seq::<u8>::empty());
        }
        r
    }

    /// Sets `header_name` to `header_value`, overwriting an existing value.
    pub fn add_header(&mut self, header_name: Vec<u8>, header_value: Vec<u8>)
        requires
            old(self).wf(),
        ensures
            final(self)@ == (ResponseView {
                headers: assoc_upsert(old(self)@.headers, header_name@, header_value@),
                ..old(self)@
            }),
            final(self).wf(),
    {
        self.headers.set(header_name, header_value);
    }

    /// Makes `self` a 200 response with the given body, `Content-Type:
    /// text/plain` and a `Content-Length` reflecting the body.
    pub fn success(&mut self, body: Vec<u8>)
        requires
            old(self).wf(),
        ensures
            final(self)@ == (ResponseView {
                version: old(self)@.version,
                status: StatusCode::Success,
                headers: success_headers(old(self)@.headers, body@),
                body: body@,
            }),
            final(self).wf(),
    {
        self.body = body;
        self.status_code = StatusCode::Success;
        self.add_header(tok_content_type_vec(), tok_text_plain_vec());
        let n = self.body.len();
        self.add_header(tok_content_length_vec(), usize_to_dec(n));
    }
}

} // verus!
