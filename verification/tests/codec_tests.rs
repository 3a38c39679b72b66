use httpd_core::codec::{encode_request, encode_response, parse_request};
use httpd_core::http::{
    HttpException, HttpMethod, HttpVersion, Request, Response, StatusCode,
};
use httpd_core::table::ByteTable;

fn simple_request(target: &str, headers: &[(&str, &str)], body: &[u8]) -> Request {
    let mut table = ByteTable::new();
    for (k, v) in headers {
        table.set(k.as_bytes().to_vec(), v.as_bytes().to_vec());
    }
    Request::new(
        HttpMethod::Get,
        target.as_bytes().to_vec(),
        HttpVersion::Http1_1,
        table,
        body.to_vec(),
    )
}

#[test]
fn parse_simple_get() {
    let input = b"GET /echo/abc HTTP/1.1\r\nHost: localhost\r\n\r\n".to_vec();
    let req = parse_request(&input).unwrap();
    assert!(matches!(req.http_method, HttpMethod::Get));
    assert_eq!(req.request_target, b"/echo/abc".to_vec());
    assert!(matches!(req.http_version, HttpVersion::Http1_1));
    assert_eq!(req.headers.get(&b"Host".to_vec()), Some(b"localhost".to_vec()));
    assert_eq!(req.body, Vec::<u8>::new());
}

#[test]
fn parse_post_with_body() {
    let input = b"POST /files/a.txt HTTP/1.1\r\nContent-Length: 4\r\n\r\ndata".to_vec();
    let req = parse_request(&input).unwrap();
    assert!(matches!(req.http_method, HttpMethod::Post));
    assert_eq!(req.request_target, b"/files/a.txt".to_vec());
    assert_eq!(req.body, b"data".to_vec());
}

#[test]
fn parse_body_truncated_is_zero_filled() {
    let input = b"POST /files/a.txt HTTP/1.1\r\nContent-Length: 6\r\n\r\nda".to_vec();
    let req = parse_request(&input).unwrap();
    assert_eq!(req.body, vec![b'd', b'a', 0, 0, 0, 0]);
}

#[test]
fn parse_missing_content_length_means_empty_body() {
    let input = b"POST /files/a.txt HTTP/1.1\r\n\r\nleftover".to_vec();
    let req = parse_request(&input).unwrap();
    assert_eq!(req.body, Vec::<u8>::new());
}

#[test]
fn parse_unparseable_content_length_means_empty_body() {
    let input = b"POST /x HTTP/1.1\r\nContent-Length: many\r\n\r\npayload".to_vec();
    let req = parse_request(&input).unwrap();
    assert_eq!(req.body, Vec::<u8>::new());
}

#[test]
fn parse_content_length_with_leading_plus() {
    let input = b"POST /x HTTP/1.1\r\nContent-Length: +4\r\n\r\ndata".to_vec();
    let req = parse_request(&input).unwrap();
    assert_eq!(req.body, b"data".to_vec());
}

#[test]
fn parse_overflowing_content_length_means_empty_body() {
    let input = b"POST /x HTTP/1.1\r\nContent-Length: 99999999999999999999999999\r\n\r\nbody".to_vec();
    let req = parse_request(&input).unwrap();
    assert_eq!(req.body, Vec::<u8>::new());
}

#[test]
fn parse_malformed_status_line_two_tokens() {
    let input = b"GET /x\r\n\r\n".to_vec();
    match parse_request(&input) {
        Err(HttpException::InvalidStatusLine(line)) => {
            assert_eq!(line, b"GET /x".to_vec());
        }
        _ => panic!("expected InvalidStatusLine"),
    }
}

#[test]
fn parse_malformed_status_line_four_tokens() {
    let input = b"GET /x HTTP/1.1 extra\r\n\r\n".to_vec();
    match parse_request(&input) {
        Err(HttpException::InvalidStatusLine(line)) => {
            assert_eq!(line, b"GET /x HTTP/1.1 extra".to_vec());
        }
        _ => panic!("expected InvalidStatusLine"),
    }
}

#[test]
fn parse_invalid_method() {
    let input = b"PUT /x HTTP/1.1\r\n\r\n".to_vec();
    match parse_request(&input) {
        Err(HttpException::InvalidMethod(tok)) => {
            assert_eq!(tok, b"PUT".to_vec());
        }
        _ => panic!("expected InvalidMethod"),
    }
}

#[test]
fn parse_lowercase_method_is_invalid() {
    let input = b"get /x HTTP/1.1\r\n\r\n".to_vec();
    assert!(matches!(
        parse_request(&input),
        Err(HttpException::InvalidMethod(_))
    ));
}

#[test]
fn parse_invalid_version() {
    let input = b"GET /x HTTP/1.0\r\n\r\n".to_vec();
    match parse_request(&input) {
        Err(HttpException::InvalidVersion(tok)) => {
            assert_eq!(tok, b"HTTP/1.0".to_vec());
        }
        _ => panic!("expected InvalidVersion"),
    }
}

#[test]
fn parse_method_error_takes_precedence_over_version() {
    let input = b"PUT /x HTTP/1.0\r\n\r\n".to_vec();
    assert!(matches!(
        parse_request(&input),
        Err(HttpException::InvalidMethod(_))
    ));
}

#[test]
fn parse_empty_input_is_invalid_status_line() {
    let input = Vec::new();
    match parse_request(&input) {
        Err(HttpException::InvalidStatusLine(line)) => {
            assert_eq!(line, Vec::<u8>::new());
        }
        _ => panic!("expected InvalidStatusLine"),
    }
}

#[test]
fn parse_header_without_colon_is_skipped() {
    let input = b"GET / HTTP/1.1\r\njunk line\r\nHost: h\r\n\r\n".to_vec();
    let req = parse_request(&input).unwrap();
    assert_eq!(req.headers.len(), 1);
    assert_eq!(req.headers.get(&b"Host".to_vec()), Some(b"h".to_vec()));
}

#[test]
fn parse_header_trims_whitespace() {
    let input = b"GET / HTTP/1.1\r\n  Host  :   space.example   \r\n\r\n".to_vec();
    let req = parse_request(&input).unwrap();
    assert_eq!(req.headers.get(&b"Host".to_vec()), Some(b"space.example".to_vec()));
}

#[test]
fn parse_repeated_header_last_writer_wins() {
    let input = b"GET / HTTP/1.1\r\nX-K: one\r\nX-K: two\r\n\r\n".to_vec();
    let req = parse_request(&input).unwrap();
    assert_eq!(req.headers.len(), 1);
    assert_eq!(req.headers.get(&b"X-K".to_vec()), Some(b"two".to_vec()));
}

#[test]
fn parse_header_value_keeps_inner_colons() {
    let input = b"GET / HTTP/1.1\r\nHost: a:b:c\r\n\r\n".to_vec();
    let req = parse_request(&input).unwrap();
    assert_eq!(req.headers.get(&b"Host".to_vec()), Some(b"a:b:c".to_vec()));
}

#[test]
fn encode_request_exact_bytes() {
    let req = simple_request("/echo/hi", &[("Host", "h")], b"");
    let wire = encode_request(&req);
    assert_eq!(wire, b"GET /echo/hi HTTP/1.1\r\nHost: h\r\n\r\n".to_vec());
}

#[test]
fn round_trip_request_with_headers_and_body() {
    let mut table = ByteTable::new();
    table.set(b"Host".to_vec(), b"localhost".to_vec());
    table.set(b"Content-Length".to_vec(), b"4".to_vec());
    let req = Request::new(
        HttpMethod::Post,
        b"/files/f.bin".to_vec(),
        HttpVersion::Http1_1,
        table,
        b"\x00\x01\xffd".to_vec(),
    );
    let wire = encode_request(&req);
    let back = parse_request(&wire).unwrap();
    assert!(matches!(back.http_method, HttpMethod::Post));
    assert_eq!(back.request_target, req.request_target);
    assert_eq!(back.body, req.body);
    assert_eq!(back.headers.len(), 2);
    assert_eq!(back.headers.get(&b"Host".to_vec()), Some(b"localhost".to_vec()));
    assert_eq!(back.headers.get(&b"Content-Length".to_vec()), Some(b"4".to_vec()));
}

#[test]
fn round_trip_keeps_normalized_accept_encoding() {
    let mut table = ByteTable::new();
    table.set(b"Accept-Encoding".to_vec(), b"gzip".to_vec());
    let req = Request::new(
        HttpMethod::Get,
        b"/echo/x".to_vec(),
        HttpVersion::Http1_1,
        table,
        Vec::new(),
    );
    let wire = encode_request(&req);
    let back = parse_request(&wire).unwrap();
    assert_eq!(
        back.headers.get(&b"Accept-Encoding".to_vec()),
        Some(b"gzip".to_vec())
    );
}

#[test]
fn encode_response_exact_bytes() {
    let mut resp = Response::new_404();
    resp.success(b"abc".to_vec());
    let wire = encode_response(&resp);
    assert_eq!(
        wire,
        b"HTTP/1.1 200 OK\r\nContent-Type: text/plain\r\nContent-Length: 3\r\n\r\nabc".to_vec()
    );
}

#[test]
fn encode_response_404_exact_bytes() {
    let resp = Response::new_404();
    let wire = encode_response(&resp);
    assert_eq!(wire, b"HTTP/1.1 404 Not Found\r\n\r\n".to_vec());
}

#[test]
fn enum_tokens_serialize_exactly() {
    assert_eq!(HttpMethod::Get.to_bytes(), b"GET".to_vec());
    assert_eq!(HttpMethod::Post.to_bytes(), b"POST".to_vec());
    assert_eq!(HttpVersion::Http1_1.to_bytes(), b"HTTP/1.1".to_vec());
    assert_eq!(
        httpd_core::http::ContentType::TextPlain.to_bytes(),
        b"text/plain".to_vec()
    );
    assert_eq!(
        httpd_core::http::ContentType::ApplicationOctetStream.to_bytes(),
        b"application/octet-stream".to_vec()
    );
    assert_eq!(
        httpd_core::http::ContentEncoding::Gzip.to_bytes(),
        b"gzip".to_vec()
    );
}

#[test]
fn status_codes_serialize_exactly() {
    assert_eq!(StatusCode::Success.to_bytes(), b"200 OK".to_vec());
    assert_eq!(StatusCode::Created.to_bytes(), b"201 Created".to_vec());
    assert_eq!(StatusCode::NotFound.to_bytes(), b"404 Not Found".to_vec());
    assert_eq!(StatusCode::ServerError.to_bytes(), b"500 Server Error".to_vec());
}

#[test]
fn exception_messages_carry_the_token() {
    let e = HttpException::InvalidStatusLine(b"GET /x".to_vec());
    assert_eq!(e.message(), b"Invalid Status Line: GET /x".to_vec());
    let e = HttpException::InvalidMethod(b"PUT".to_vec());
    assert_eq!(e.message(), b"Invalid Method: PUT".to_vec());
    let e = HttpException::InvalidVersion(b"HTTP/1.0".to_vec());
    assert_eq!(e.message(), b"Invalid Version: HTTP/1.0".to_vec());
}

#[test]
fn parse_method_exact_tokens_only() {
    assert!(matches!(
        HttpMethod::parse_method(&b"GET".to_vec()),
        Ok(HttpMethod::Get)
    ));
    assert!(matches!(
        HttpMethod::parse_method(&b"POST".to_vec()),
        Ok(HttpMethod::Post)
    ));
    assert!(matches!(
        HttpMethod::parse_method(&b"Get".to_vec()),
        Err(HttpException::InvalidMethod(_))
    ));
}

#[test]
fn parse_version_exact_token_only() {
    assert!(matches!(
        HttpVersion::parse_version(&b"HTTP/1.1".to_vec()),
        Ok(HttpVersion::Http1_1)
    ));
    assert!(matches!(
        HttpVersion::parse_version(&b"HTTP/2".to_vec()),
        Err(HttpException::InvalidVersion(_))
    ));
}

#[test]
fn stringify_headers_keeps_insertion_order() {
    let mut table = ByteTable::new();
    table.set(b"B".to_vec(), b"2".to_vec());
    table.set(b"A".to_vec(), b"1".to_vec());
    table.set(b"B".to_vec(), b"3".to_vec());
    let s = httpd_core::codec::stringify_headers(&table);
    assert_eq!(s, b"B: 3\r\nA: 1\r\n".to_vec());
}
