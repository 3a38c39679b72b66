use std::io::Write;

use httpd_core::http::{ContentEncoding, HttpMethod, HttpVersion, Request, StatusCode};
use httpd_core::router::{handle_request, Config, MemStorage};
use httpd_core::server::handle_connection;
use httpd_core::table::ByteTable;

fn gzip_reference(data: &[u8]) -> Vec<u8> {
    let mut enc = flate2::write::GzEncoder::new(Vec::new(), flate2::Compression::default());
    enc.write_all(data).unwrap();
    enc.finish().unwrap()
}

fn gunzip(data: &[u8]) -> Vec<u8> {
    let mut out = Vec::new();
    let mut dec = flate2::read::GzDecoder::new(data);
    std::io::Read::read_to_end(&mut dec, &mut out).unwrap();
    out
}

fn request(method: HttpMethod, target: &str, headers: &[(&str, &str)], body: &[u8]) -> Request {
    let mut table = ByteTable::new();
    for (k, v) in headers {
        table.set(k.as_bytes().to_vec(), v.as_bytes().to_vec());
    }
    Request::new(
        method,
        target.as_bytes().to_vec(),
        HttpVersion::Http1_1,
        table,
        body.to_vec(),
    )
}

#[test]
fn parse_content_encoding_recognizes_gzip() {
    let r = ContentEncoding::parse_content_encoding(&b"gzip".to_vec()).unwrap();
    assert_eq!(r.len(), 1);
    assert!(matches!(r[0], ContentEncoding::Gzip));
}

#[test]
fn parse_content_encoding_filters_unknown_tokens() {
    let r = ContentEncoding::parse_content_encoding(&b" br , gzip , deflate ".to_vec()).unwrap();
    assert_eq!(r.len(), 1);
    assert!(matches!(r[0], ContentEncoding::Gzip));
}

#[test]
fn parse_content_encoding_keeps_repeats_in_order() {
    let r = ContentEncoding::parse_content_encoding(&b"gzip, bogus, gzip".to_vec()).unwrap();
    assert_eq!(r.len(), 2);
}

#[test]
fn parse_content_encoding_none_when_nothing_recognized() {
    assert!(ContentEncoding::parse_content_encoding(&b"br, deflate".to_vec()).is_none());
    assert!(ContentEncoding::parse_content_encoding(&b"".to_vec()).is_none());
    assert!(ContentEncoding::parse_content_encoding(&b"gzipx".to_vec()).is_none());
}

#[test]
fn validate_headers_rewrites_to_canonical_list() {
    let mut req = request(
        HttpMethod::Get,
        "/echo/x",
        &[("Accept-Encoding", "br, gzip, gzip ,deflate")],
        b"",
    );
    req.validate_headers();
    assert_eq!(
        req.headers.get(&b"Accept-Encoding".to_vec()),
        Some(b"gzip, gzip".to_vec())
    );
}

#[test]
fn validate_headers_removes_unrecognized_list() {
    let mut req = request(
        HttpMethod::Get,
        "/echo/x",
        &[("Accept-Encoding", "bogus"), ("Host", "h")],
        b"",
    );
    req.validate_headers();
    assert_eq!(req.headers.get(&b"Accept-Encoding".to_vec()), None);
    assert_eq!(req.headers.get(&b"Host".to_vec()), Some(b"h".to_vec()));
}

#[test]
fn gzip_encoding_compresses_the_echo_body() {
    let req = request(HttpMethod::Get, "/echo/abc", &[("Accept-Encoding", "gzip")], b"");
    let mut storage = MemStorage::new();
    let resp = handle_request(req, Config { directory: None }, &mut storage);
    assert!(matches!(resp.status_code, StatusCode::Success));
    let expected = gzip_reference(b"abc");
    assert_eq!(resp.body, expected);
    assert_ne!(resp.body, b"abc".to_vec());
    assert_eq!(gunzip(&resp.body), b"abc".to_vec());
    assert_eq!(
        resp.headers.get(&b"Content-Encoding".to_vec()),
        Some(b"gzip".to_vec())
    );
    assert_eq!(
        resp.headers.get(&b"Content-Length".to_vec()),
        Some(format!("{}", expected.len()).into_bytes())
    );
}

#[test]
fn repeated_gzip_tokens_record_a_single_content_encoding() {
    // normalization keeps the repeated client list, but the response
    // records only the encoding that was applied
    let mut req = request(
        HttpMethod::Get,
        "/echo/abc",
        &[("Accept-Encoding", "gzip, bogus, gzip")],
        b"",
    );
    req.validate_headers();
    assert_eq!(
        req.headers.get(&b"Accept-Encoding".to_vec()),
        Some(b"gzip, gzip".to_vec())
    );
    let mut storage = MemStorage::new();
    let resp = handle_request(req, Config { directory: None }, &mut storage);
    assert_eq!(
        resp.headers.get(&b"Content-Encoding".to_vec()),
        Some(b"gzip".to_vec())
    );
    assert_eq!(resp.body, gzip_reference(b"abc"));
}

#[test]
fn unsupported_encoding_equals_no_header_at_all() {
    let with_bogus = b"GET /echo/abc HTTP/1.1\r\nAccept-Encoding: bogus\r\n\r\n".to_vec();
    let without = b"GET /echo/abc HTTP/1.1\r\n\r\n".to_vec();
    let mut s1 = MemStorage::new();
    let mut s2 = MemStorage::new();
    let out1 = handle_connection(&with_bogus, Config { directory: None }, &mut s1);
    let out2 = handle_connection(&without, Config { directory: None }, &mut s2);
    assert_eq!(out1, out2);
    assert_eq!(
        out1,
        b"HTTP/1.1 200 OK\r\nContent-Type: text/plain\r\nContent-Length: 3\r\n\r\nabc".to_vec()
    );
}

#[test]
fn gzip_over_the_wire() {
    let input = b"GET /echo/abc HTTP/1.1\r\nAccept-Encoding: gzip\r\n\r\n".to_vec();
    let mut storage = MemStorage::new();
    let out = handle_connection(&input, Config { directory: None }, &mut storage);
    let compressed = gzip_reference(b"abc");
    let mut expected = format!(
        "HTTP/1.1 200 OK\r\nContent-Type: text/plain\r\nContent-Length: {}\r\nContent-Encoding: gzip\r\n\r\n",
        compressed.len()
    )
    .into_bytes();
    expected.extend_from_slice(&compressed);
    assert_eq!(out, expected);
}

#[test]
fn malformed_request_writes_the_diagnostic_text() {
    let input = b"GET /x\r\n\r\n".to_vec();
    let mut storage = MemStorage::new();
    let out = handle_connection(&input, Config { directory: None }, &mut storage);
    assert_eq!(out, b"Invalid Status Line: GET /x".to_vec());
}

#[test]
fn connection_post_then_get_over_the_wire() {
    let cfg = Config { directory: None };
    let mut storage = MemStorage::new();
    let post = b"POST /files/new.txt HTTP/1.1\r\nContent-Length: 4\r\n\r\ndata".to_vec();
    let out = handle_connection(&post, cfg.clone(), &mut storage);
    assert_eq!(out, b"HTTP/1.1 201 Created\r\n\r\n".to_vec());
    let get = b"GET /files/new.txt HTTP/1.1\r\n\r\n".to_vec();
    let out = handle_connection(&get, cfg, &mut storage);
    assert_eq!(
        out,
        b"HTTP/1.1 200 OK\r\nContent-Type: application/octet-stream\r\nContent-Length: 4\r\n\r\ndata"
            .to_vec()
    );
}

#[test]
fn gzip_applies_even_to_an_empty_body() {
    let input = b"GET / HTTP/1.1\r\nAccept-Encoding: gzip\r\n\r\n".to_vec();
    let mut storage = MemStorage::new();
    let out = handle_connection(&input, Config { directory: None }, &mut storage);
    let compressed = gzip_reference(b"");
    let mut expected = format!(
        "HTTP/1.1 200 OK\r\nContent-Length: {}\r\nContent-Encoding: gzip\r\n\r\n",
        compressed.len()
    )
    .into_bytes();
    expected.extend_from_slice(&compressed);
    assert_eq!(out, expected);
}
