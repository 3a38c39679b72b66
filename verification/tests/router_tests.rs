use httpd_core::http::{HttpMethod, HttpVersion, Request, StatusCode};
use httpd_core::router::{handle_request, route_of, MemStorage, Route};
use httpd_core::table::ByteTable;

fn no_dir() -> httpd_core::router::Config {
    httpd_core::router::Config { directory: None }
}

fn request(method: HttpMethod, target: &str, headers: &[(&str, &str)], body: &[u8]) -> Request {
    let mut table = ByteTable::new();
    for (k, v) in headers {
        table.set(k.as_bytes().to_vec(), v.as_bytes().to_vec());
    }
    Request::new(
        method,
        target.as_bytes().to_vec(),
        HttpVersion::Http1_1,
        table,
        body.to_vec(),
    )
}

#[test]
fn echo_returns_the_value() {
    let req = request(HttpMethod::Get, "/echo/abc", &[], b"");
    let mut storage = MemStorage::new();
    let resp = handle_request(req, no_dir(), &mut storage);
    assert!(matches!(resp.status_code, StatusCode::Success));
    assert_eq!(resp.body, b"abc".to_vec());
    assert_eq!(
        resp.headers.get(&b"Content-Type".to_vec()),
        Some(b"text/plain".to_vec())
    );
    assert_eq!(
        resp.headers.get(&b"Content-Length".to_vec()),
        Some(b"3".to_vec())
    );
}

#[test]
fn echo_trailing_slash_matches_identically() {
    let req = request(HttpMethod::Get, "/echo/abc/", &[], b"");
    let mut storage = MemStorage::new();
    let resp = handle_request(req, no_dir(), &mut storage);
    assert!(matches!(resp.status_code, StatusCode::Success));
    assert_eq!(resp.body, b"abc".to_vec());
}

#[test]
fn user_agent_reflects_the_header() {
    let req = request(HttpMethod::Get, "/user-agent", &[("User-Agent", "foo")], b"");
    let mut storage = MemStorage::new();
    let resp = handle_request(req, no_dir(), &mut storage);
    assert!(matches!(resp.status_code, StatusCode::Success));
    assert_eq!(resp.body, b"foo".to_vec());
    assert_eq!(
        resp.headers.get(&b"Content-Type".to_vec()),
        Some(b"text/plain".to_vec())
    );
}

#[test]
fn user_agent_missing_header_gives_empty_body() {
    let req = request(HttpMethod::Get, "/user-agent", &[], b"");
    let mut storage = MemStorage::new();
    let resp = handle_request(req, no_dir(), &mut storage);
    assert!(matches!(resp.status_code, StatusCode::Success));
    assert_eq!(resp.body, Vec::<u8>::new());
    assert_eq!(
        resp.headers.get(&b"Content-Length".to_vec()),
        Some(b"0".to_vec())
    );
}

#[test]
fn root_returns_200_with_no_headers() {
    let req = request(HttpMethod::Get, "/", &[], b"");
    let mut storage = MemStorage::new();
    let resp = handle_request(req, no_dir(), &mut storage);
    assert!(matches!(resp.status_code, StatusCode::Success));
    assert_eq!(resp.body, Vec::<u8>::new());
    assert_eq!(resp.headers.len(), 0);
}

#[test]
fn file_read_found() {
    let mut storage = MemStorage::new();
    storage.write(b"report.txt".to_vec(), b"C".to_vec());
    let req = request(HttpMethod::Get, "/files/report.txt", &[], b"");
    let resp = handle_request(req, no_dir(), &mut storage);
    assert!(matches!(resp.status_code, StatusCode::Success));
    assert_eq!(resp.body, b"C".to_vec());
    assert_eq!(
        resp.headers.get(&b"Content-Type".to_vec()),
        Some(b"application/octet-stream".to_vec())
    );
    assert_eq!(
        resp.headers.get(&b"Content-Length".to_vec()),
        Some(b"1".to_vec())
    );
}

#[test]
fn file_read_missing_is_bare_404() {
    let mut storage = MemStorage::new();
    let req = request(HttpMethod::Get, "/files/missing.txt", &[], b"");
    let resp = handle_request(req, no_dir(), &mut storage);
    assert!(matches!(resp.status_code, StatusCode::NotFound));
    assert_eq!(resp.body, Vec::<u8>::new());
    assert_eq!(resp.headers.len(), 0);
}

#[test]
fn file_write_then_read_round_trips() {
    let mut storage = MemStorage::new();
    let post = request(HttpMethod::Post, "/files/new.txt", &[], b"data");
    let resp = handle_request(post, no_dir(), &mut storage);
    assert!(matches!(resp.status_code, StatusCode::Created));
    assert_eq!(resp.body, Vec::<u8>::new());
    assert_eq!(resp.headers.len(), 0);
    assert_eq!(storage.read(&b"new.txt".to_vec()), Some(b"data".to_vec()));

    let get = request(HttpMethod::Get, "/files/new.txt", &[], b"");
    let resp = handle_request(get, no_dir(), &mut storage);
    assert!(matches!(resp.status_code, StatusCode::Success));
    assert_eq!(resp.body, b"data".to_vec());
}

#[test]
fn file_routes_use_the_directory_prefix() {
    let config = httpd_core::router::Config {
        directory: Some(b"/tmp/srv/".to_vec()),
    };
    let mut storage = MemStorage::new();
    let post = request(HttpMethod::Post, "/files/f.txt", &[], b"x");
    handle_request(post, config.clone(), &mut storage);
    assert_eq!(storage.read(&b"/tmp/srv/f.txt".to_vec()), Some(b"x".to_vec()));

    let get = request(HttpMethod::Get, "/files/f.txt", &[], b"");
    let resp = handle_request(get, config, &mut storage);
    assert!(matches!(resp.status_code, StatusCode::Success));
    assert_eq!(resp.body, b"x".to_vec());
}

#[test]
fn unmatched_routes_give_bare_404() {
    let cases: Vec<(HttpMethod, &str)> = vec![
        (HttpMethod::Get, "/unknown/x/y/z"),
        (HttpMethod::Post, "/echo/x"),
        (HttpMethod::Post, "/"),
        (HttpMethod::Get, "/echo"),
        (HttpMethod::Get, "/echo/a/b"),
        (HttpMethod::Get, "/user-agent/extra"),
        (HttpMethod::Post, "/user-agent"),
    ];
    for (method, target) in cases {
        let req = request(method, target, &[], b"");
        let mut storage = MemStorage::new();
        let resp = handle_request(req, no_dir(), &mut storage);
        assert!(matches!(resp.status_code, StatusCode::NotFound), "{}", target);
        assert_eq!(resp.body, Vec::<u8>::new());
        assert_eq!(resp.headers.len(), 0);
    }
}

#[test]
fn route_of_classifies_targets() {
    let cfg = no_dir();
    assert!(matches!(
        route_of(HttpMethod::Get, &b"/".to_vec(), &cfg),
        Route::Root
    ));
    assert!(matches!(
        route_of(HttpMethod::Get, &b"//".to_vec(), &cfg),
        Route::Root
    ));
    assert!(matches!(
        route_of(HttpMethod::Get, &b"/user-agent".to_vec(), &cfg),
        Route::UserAgent
    ));
    match route_of(HttpMethod::Get, &b"/echo/xyz".to_vec(), &cfg) {
        Route::Echo(v) => assert_eq!(v, b"xyz".to_vec()),
        _ => panic!("expected Echo"),
    }
    match route_of(HttpMethod::Get, &b"/files/a.txt".to_vec(), &cfg) {
        Route::FileRead(p) => assert_eq!(p, b"a.txt".to_vec()),
        _ => panic!("expected FileRead"),
    }
    match route_of(HttpMethod::Post, &b"/files/a.txt".to_vec(), &cfg) {
        Route::FileWrite(p) => assert_eq!(p, b"a.txt".to_vec()),
        _ => panic!("expected FileWrite"),
    }
    assert!(matches!(
        route_of(HttpMethod::Post, &b"/echo/x".to_vec(), &cfg),
        Route::NotFound
    ));
}

#[test]
fn file_write_response_for_failure_is_500() {
    let resp = httpd_core::router::response_for_file_write(false);
    assert!(matches!(resp.status_code, StatusCode::ServerError));
    assert_eq!(resp.body, Vec::<u8>::new());
    assert_eq!(resp.headers.len(), 0);
}
