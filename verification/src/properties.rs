//! The laws of the route table and the negotiation pipeline, stated over
//! the same spec functions that the executable functions are pinned to.

use vstd::prelude::*;

use crate::bytes::dec_digits;
use crate::http::{ContentEncoding, HttpMethod, RequestView, StatusCode};
use crate::negotiate::{
    gzip_of, normalize_request, spec_encodings, spec_negotiate,
};
use crate::router::{
    resp_404, resp_created, resp_file, resp_ok_empty, spec_handle, spec_handle_route, spec_route,
    spec_segments, user_agent_of, RouteView,
};
use crate::table::{
    assoc_find, assoc_remove, assoc_upsert, lemma_find_remove_same, lemma_find_upsert_other,
    lemma_find_upsert_same,
};
use crate::tokens::{
    tok_accept_encoding, tok_content_encoding, tok_content_length, tok_content_type, tok_echo,
    tok_files, tok_octet_stream, tok_text_plain, tok_user_agent_seg,
};

verus! {

/// `echo` holds no slash.
proof fn lemma_echo_slash_free(i: int)
    requires
        0 <= i < tok_echo().len(),
    ensures
        tok_echo()[i] != 47,
{
    if i == 0 {
        assert(tok_echo()[0] == 101);
    } else if i == 1 {
        assert(tok_echo()[1] == 99);
    } else if i == 2 {
        assert(tok_echo()[2] == 104);
    } else {
        assert(tok_echo()[3] == 111);
    }
}

/// `files` holds no slash.
proof fn lemma_files_slash_free(i: int)
    requires
        0 <= i < tok_files().len(),
    ensures
        tok_files()[i] != 47,
{
    if i == 0 {
        assert(tok_files()[0] == 102);
    } else if i == 1 {
        assert(tok_files()[1] == 105);
    } else if i == 2 {
        assert(tok_files()[2] == 108);
    } else if i == 3 {
        assert(tok_files()[3] == 101);
    } else {
        assert(tok_files()[4] == 115);
    }
}

/// `user-agent` holds no slash.
proof fn lemma_user_agent_seg_slash_free(i: int)
    requires
        0 <= i < tok_user_agent_seg().len(),
    ensures
        tok_user_agent_seg()[i] != 47,
{
    if i == 0 {
        assert(tok_user_agent_seg()[0] == 117);
    } else if i == 1 {
        assert(tok_user_agent_seg()[1] == 115);
    } else if i == 2 {
        assert(tok_user_agent_seg()[2] == 101);
    } else if i == 3 {
        assert(tok_user_agent_seg()[3] == 114);
    } else if i == 4 {
        assert(tok_user_agent_seg()[4] == 45);
    } else if i == 5 {
        assert(tok_user_agent_seg()[5] == 97);
    } else if i == 6 {
        assert(tok_user_agent_seg()[6] == 103);
    } else if i == 7 {
        assert(tok_user_agent_seg()[7] == 101);
    } else if i == 8 {
        assert(tok_user_agent_seg()[8] == 110);
    } else {
        assert(tok_user_agent_seg()[9] == 116);
    }
}

/// `/` alone has no segments.
pub proof fn lemma_segments_root()
    ensures
        spec_segments(seq![47u8]) == Seq::<Seq<u8>>::empty(),
{
    let s = seq![47u8];
    assert(s[0] == 47);
    crate::bytes::lemma_first_index_of_unique(s, 47, 0);
    assert(s.take(0) =~= Seq::<u8>::empty());
    assert(s.skip(1) =~= Seq::<u8>::empty());
    assert(spec_segments(Seq::<u8>::empty()) == Seq::<Seq<u8>>::empty());
}

/// `/<a>` has the single segment `a` when `a` is non-empty and slash-free.
pub proof fn lemma_segments_one(a: Seq<u8>)
    requires
        a.len() > 0,
        forall|i: int| 0 <= i < a.len() ==> a[i] != 47,
    ensures
        spec_segments(seq![47u8] + a) == seq![a],
{
    let s = seq![47u8] + a;
    assert(s[0] == 47);
    crate::bytes::lemma_first_index_of_unique(s, 47, 0);
    assert(s.take(0) =~= Seq::<u8>::empty());
    assert(s.skip(1) =~= a);
    crate::bytes::lemma_first_index_of_unique(a, 47, a.len() as int);
    assert(spec_segments(a) == seq![a]);
}

/// `/<a>/<b>` has the segments `a`, `b` when both are non-empty and
/// slash-free.
pub proof fn lemma_segments_two(a: Seq<u8>, b: Seq<u8>)
    requires
        a.len() > 0,
        b.len() > 0,
        forall|i: int| 0 <= i < a.len() ==> a[i] != 47,
        forall|i: int| 0 <= i < b.len() ==> b[i] != 47,
    ensures
        spec_segments(seq![47u8] + a + seq![47u8] + b) == seq![a, b],
{
    let s = seq![47u8] + a + seq![47u8] + b;
    assert(s[0] == 47);
    crate::bytes::lemma_first_index_of_unique(s, 47, 0);
    assert(s.take(0) =~= Seq::<u8>::empty());
    let s1 = a + seq![47u8] + b;
    assert(s.skip(1) =~= s1);
    assert(s1[a.len() as int] == 47);
    assert forall|j: int| 0 <= j < a.len() implies s1[j] != 47 by {
        assert(s1[j] == a[j]);
    }
    crate::bytes::lemma_first_index_of_unique(s1, 47, a.len() as int);
    assert(s1.take(a.len() as int) =~= a);
    assert(s1.skip(a.len() as int + 1) =~= b);
    crate::bytes::lemma_first_index_of_unique(b, 47, b.len() as int);
    assert(spec_segments(b) == seq![b]);
    assert(spec_segments(s1) == seq![a] + seq![b]);
    assert(seq![a] + seq![b] =~= seq![a, b]);
}

/// `Content-Type` and `Content-Length` are distinct names.
proof fn lemma_content_header_names_distinct()
    ensures
        tok_content_type() != tok_content_length(),
        tok_content_encoding() != tok_content_length(),
        tok_content_encoding() != tok_content_type(),
{
    assert(tok_content_type().len() == 12);
    assert(tok_content_length().len() == 14);
    assert(tok_content_encoding().len() == 16);
}

/// The headers of a text response: `Content-Type: text/plain` and a
/// `Content-Length` of the body's byte length, nothing else said.
proof fn lemma_text_headers(body: Seq<u8>)
    ensures
        assoc_find(crate::http::success_headers(Seq::empty(), body), tok_content_type()) == Some(
            tok_text_plain(),
        ),
        assoc_find(crate::http::success_headers(Seq::empty(), body), tok_content_length()) == Some(
            dec_digits(body.len() as int),
        ),
{
    let h1 = assoc_upsert(Seq::empty(), tok_content_type(), tok_text_plain());
    lemma_content_header_names_distinct();
    lemma_find_upsert_same(Seq::empty(), tok_content_type(), tok_text_plain());
    lemma_find_upsert_other(
        h1,
        tok_content_length(),
        dec_digits(body.len() as int),
        tok_content_type(),
    );
    lemma_find_upsert_same(h1, tok_content_length(), dec_digits(body.len() as int));
}

/// Echo: `GET /echo/<s>`, for any non-empty slash-free `s` and a request
/// without `Accept-Encoding`, answers 200 with body exactly `s`,
/// `Content-Type: text/plain` and `Content-Length` equal to `s`'s byte
/// length, and leaves the storage untouched.
pub proof fn lemma_echo_route(
    req: RequestView,
    dir: Seq<u8>,
    files: Seq<(Seq<u8>, Seq<u8>)>,
    s: Seq<u8>,
)
    requires
        req.method == HttpMethod::Get,
        s.len() > 0,
        forall|i: int| 0 <= i < s.len() ==> s[i] != 47,
        req.target == seq![47u8] + tok_echo() + seq![47u8] + s,
        assoc_find(req.headers, tok_accept_encoding()) is None,
    ensures
        spec_handle(req, dir, files).0.status == StatusCode::Success,
        spec_handle(req, dir, files).0.body == s,
        assoc_find(spec_handle(req, dir, files).0.headers, tok_content_type()) == Some(
            tok_text_plain(),
        ),
        assoc_find(spec_handle(req, dir, files).0.headers, tok_content_length()) == Some(
            dec_digits(s.len() as int),
        ),
        spec_handle(req, dir, files).1 == files,
{
    assert forall|i: int| 0 <= i < tok_echo().len() implies tok_echo()[i] != 47 by {
        lemma_echo_slash_free(i);
    }
    lemma_segments_two(tok_echo(), s);
    let segs = spec_segments(req.target);
    assert(segs.len() == 2);
    assert(segs[0] == tok_echo());
    assert(segs[1] == s);
    assert(spec_route(req.method, req.target, dir) == RouteView::Echo(s));
    lemma_text_headers(s);
}

/// User-agent reflection: `GET /user-agent` without `Accept-Encoding`
/// answers 200 whose body is the request's `User-Agent` value — and the
/// empty body when that header is absent — with `Content-Type: text/plain`.
pub proof fn lemma_user_agent_route(req: RequestView, dir: Seq<u8>, files: Seq<(Seq<u8>, Seq<u8>)>)
    requires
        req.method == HttpMethod::Get,
        req.target == seq![47u8] + tok_user_agent_seg(),
        assoc_find(req.headers, tok_accept_encoding()) is None,
    ensures
        spec_handle(req, dir, files).0.status == StatusCode::Success,
        spec_handle(req, dir, files).0.body == user_agent_of(req.headers),
        assoc_find(req.headers, crate::tokens::tok_user_agent()) matches Some(u) ==> spec_handle(
            req,
            dir,
            files,
        ).0.body == u,
        assoc_find(req.headers, crate::tokens::tok_user_agent()) is None ==> spec_handle(
            req,
            dir,
            files,
        ).0.body == Seq::<u8>::empty(),
        assoc_find(spec_handle(req, dir, files).0.headers, tok_content_type()) == Some(
            tok_text_plain(),
        ),
        spec_handle(req, dir, files).1 == files,
{
    assert forall|i: int|
        0 <= i < tok_user_agent_seg().len() implies tok_user_agent_seg()[i] != 47 by {
        lemma_user_agent_seg_slash_free(i);
    }
    lemma_segments_one(tok_user_agent_seg());
    let segs = spec_segments(req.target);
    assert(segs.len() == 1);
    assert(segs[0] == tok_user_agent_seg());
    assert(spec_route(req.method, req.target, dir) == RouteView::UserAgent);
    lemma_text_headers(user_agent_of(req.headers));
}

/// Root: `GET /` without `Accept-Encoding` answers 200 with an empty body
/// and no content headers, and leaves the storage untouched.
pub proof fn lemma_root_route(req: RequestView, dir: Seq<u8>, files: Seq<(Seq<u8>, Seq<u8>)>)
    requires
        req.method == HttpMethod::Get,
        req.target == seq![47u8],
        assoc_find(req.headers, tok_accept_encoding()) is None,
    ensures
        spec_handle(req, dir, files).0 == resp_ok_empty(),
        spec_handle(req, dir, files).1 == files,
{
    lemma_segments_root();
    assert(spec_route(req.method, req.target, dir) == RouteView::Root);
}

/// File reads: `GET /files/<name>` without `Accept-Encoding` answers 200
/// with `Content-Type: application/octet-stream` and the stored bytes when
/// storage holds `<name>` under the configured prefix, and a bare 404 with
/// empty body and no headers when it does not.
pub proof fn lemma_file_read_route(
    req: RequestView,
    dir: Seq<u8>,
    files: Seq<(Seq<u8>, Seq<u8>)>,
    name: Seq<u8>,
)
    requires
        req.method == HttpMethod::Get,
        name.len() > 0,
        forall|i: int| 0 <= i < name.len() ==> name[i] != 47,
        req.target == seq![47u8] + tok_files() + seq![47u8] + name,
        assoc_find(req.headers, tok_accept_encoding()) is None,
    ensures
        assoc_find(files, dir + name) matches Some(c) ==> spec_handle(req, dir, files).0
            == resp_file(c),
        assoc_find(files, dir + name) is None ==> spec_handle(req, dir, files).0 == resp_404(),
        spec_handle(req, dir, files).1 == files,
{
    assert forall|i: int| 0 <= i < tok_files().len() implies tok_files()[i] != 47 by {
        lemma_files_slash_free(i);
    }
    lemma_segments_two(tok_files(), name);
    let segs = spec_segments(req.target);
    assert(segs.len() == 2);
    assert(segs[0] == tok_files());
    assert(segs[1] == name);
    assert(tok_files().len() != tok_echo().len());
    assert(tok_files() != tok_user_agent_seg());
    assert(spec_route(req.method, req.target, dir) == RouteView::FileRead(dir + name));
}

/// File writes: `POST /files/<name>` with body `data` (no
/// `Accept-Encoding`) stores exactly `data` under the configured prefix and
/// answers a bare 201; a subsequent `GET /files/<name>` against the storage
/// it leaves behind answers 200 with body exactly `data`.
pub proof fn lemma_file_write_then_read(
    post: RequestView,
    get_req: RequestView,
    dir: Seq<u8>,
    files: Seq<(Seq<u8>, Seq<u8>)>,
    name: Seq<u8>,
)
    requires
        post.method == HttpMethod::Post,
        get_req.method == HttpMethod::Get,
        name.len() > 0,
        forall|i: int| 0 <= i < name.len() ==> name[i] != 47,
        post.target == seq![47u8] + tok_files() + seq![47u8] + name,
        get_req.target == post.target,
        assoc_find(post.headers, tok_accept_encoding()) is None,
        assoc_find(get_req.headers, tok_accept_encoding()) is None,
    ensures
        spec_handle(post, dir, files).0 == resp_created(),
        assoc_find(spec_handle(post, dir, files).1, dir + name) == Some(post.body),
        spec_handle(get_req, dir, spec_handle(post, dir, files).1).0 == resp_file(post.body),
{
    assert forall|i: int| 0 <= i < tok_files().len() implies tok_files()[i] != 47 by {
        lemma_files_slash_free(i);
    }
    lemma_segments_two(tok_files(), name);
    assert(spec_route(post.method, post.target, dir) == RouteView::FileWrite(dir + name));
    let files2 = assoc_upsert(files, dir + name, post.body);
    lemma_find_upsert_same(files, dir + name, post.body);
    assert(spec_route(get_req.method, get_req.target, dir) == RouteView::FileRead(dir + name));
    lemma_file_read_route(get_req, dir, files2, name);
}

/// Fallback: any route/method combination outside the table answers a bare
/// 404 — empty body, no headers — and leaves the storage untouched.
pub proof fn lemma_unmatched_route(req: RequestView, dir: Seq<u8>, files: Seq<(Seq<u8>, Seq<u8>)>)
    requires
        spec_route(req.method, req.target, dir) == RouteView::NotFound,
        assoc_find(req.headers, tok_accept_encoding()) is None,
    ensures
        spec_handle(req, dir, files).0 == resp_404(),
        spec_handle(req, dir, files).1 == files,
{
}

/// Unsupported encodings are ignored, not errors: a request whose
/// `Accept-Encoding` names no recognized token is normalized to one without
/// the header at all, and its whole handling equals the plain,
/// un-negotiated handling of that stripped request.
pub proof fn lemma_unsupported_encodings_ignored(
    req: RequestView,
    dir: Seq<u8>,
    files: Seq<(Seq<u8>, Seq<u8>)>,
    v: Seq<u8>,
)
    requires
        assoc_find(req.headers, tok_accept_encoding()) == Some(v),
        spec_encodings(v).len() == 0,
    ensures
        normalize_request(req) == (RequestView {
            headers: assoc_remove(req.headers, tok_accept_encoding()),
            ..req
        }),
        spec_handle(normalize_request(req), dir, files) == spec_handle_route(
            (RequestView { headers: assoc_remove(req.headers, tok_accept_encoding()), ..req }),
            dir,
            files,
        ),
{
    let stripped = RequestView {
        headers: assoc_remove(req.headers, tok_accept_encoding()),
        ..req
    };
    assert(normalize_request(req) =~= stripped);
    lemma_find_remove_same(req.headers, tok_accept_encoding());
    let pre = spec_handle_route(stripped, dir, files);
    assert(spec_negotiate(pre.0, stripped) == pre.0);
}

/// The headers of a served file: `application/octet-stream` and a
/// `Content-Length` of the body's byte length.
proof fn lemma_file_headers(body: Seq<u8>)
    ensures
        assoc_find(crate::router::file_headers(body), tok_content_type()) == Some(
            tok_octet_stream(),
        ),
        assoc_find(crate::router::file_headers(body), tok_content_length()) == Some(
            dec_digits(body.len() as int),
        ),
{
    let h1 = assoc_upsert(Seq::empty(), tok_content_type(), tok_octet_stream());
    lemma_content_header_names_distinct();
    lemma_find_upsert_same(Seq::empty(), tok_content_type(), tok_octet_stream());
    lemma_find_upsert_other(
        h1,
        tok_content_length(),
        dec_digits(body.len() as int),
        tok_content_type(),
    );
    lemma_find_upsert_same(h1, tok_content_length(), dec_digits(body.len() as int));
}

/// The framing invariant of every handled response: whenever the final body
/// is non-empty, a `Content-Length` header is present and states exactly the
/// final — post-compression — body length.
pub proof fn lemma_response_content_length(
    req: RequestView,
    dir: Seq<u8>,
    files: Seq<(Seq<u8>, Seq<u8>)>,
)
    requires
        crate::negotiate::ae_normalized(req.headers),
    ensures
        ({
            let resp = spec_handle(req, dir, files).0;
            resp.body.len() > 0 ==> assoc_find(resp.headers, tok_content_length()) == Some(
                dec_digits(resp.body.len() as int),
            )
        }),
{
    let pre = spec_handle_route(req, dir, files).0;
    assert(pre.body.len() > 0 ==> assoc_find(pre.headers, tok_content_length()) == Some(
        dec_digits(pre.body.len() as int),
    )) by {
        match spec_route(req.method, req.target, dir) {
            RouteView::Root => {},
            RouteView::UserAgent => {
                lemma_text_headers(user_agent_of(req.headers));
            },
            RouteView::Echo(value) => {
                lemma_text_headers(value);
            },
            RouteView::FileRead(path) => {
                match assoc_find(files, path) {
                    Some(contents) => {
                        lemma_file_headers(contents);
                    },
                    None => {},
                }
            },
            RouteView::FileWrite(_) => {},
            RouteView::NotFound => {},
        }
    }
    match assoc_find(req.headers, tok_accept_encoding()) {
        None => {},
        Some(v) => {
            let es = spec_encodings(v);
            assert(es.len() > 0);
            assert(es[0] == ContentEncoding::Gzip);
            assert(es.contains(ContentEncoding::Gzip));
            let compressed = crate::negotiate::spec_compress(pre);
            lemma_content_header_names_distinct();
            lemma_find_upsert_same(
                pre.headers,
                tok_content_length(),
                dec_digits(gzip_of(pre.body).len() as int),
            );
            lemma_find_upsert_other(
                compressed.headers,
                tok_content_encoding(),
                crate::tokens::tok_gzip(),
                tok_content_length(),
            );
        },
    }
}

/// When the request asks for gzip, the negotiated response's body is the
/// gzip form of the handler's body, `Content-Encoding` records the applied
/// encoding `gzip`, and `Content-Length` is the compressed length — not the
/// uncompressed one.
pub proof fn lemma_gzip_encoding_applied(
    req: RequestView,
    dir: Seq<u8>,
    files: Seq<(Seq<u8>, Seq<u8>)>,
    v: Seq<u8>,
)
    requires
        assoc_find(req.headers, tok_accept_encoding()) == Some(v),
        spec_encodings(v).contains(ContentEncoding::Gzip),
    ensures
        ({
            let pre = spec_handle_route(req, dir, files);
            let post = spec_handle(req, dir, files);
            &&& post.0.body == gzip_of(pre.0.body)
            &&& assoc_find(post.0.headers, tok_content_encoding()) == Some(
                crate::tokens::tok_gzip(),
            )
            &&& assoc_find(post.0.headers, tok_content_length()) == Some(
                dec_digits(gzip_of(pre.0.body).len() as int),
            )
            &&& post.1 == pre.1
        }),
{
    let pre = spec_handle_route(req, dir, files);
    let compressed = crate::negotiate::spec_compress(pre.0);
    lemma_content_header_names_distinct();
    lemma_find_upsert_same(compressed.headers, tok_content_encoding(), crate::tokens::tok_gzip());
    lemma_find_upsert_other(
        compressed.headers,
        tok_content_encoding(),
        crate::tokens::tok_gzip(),
        tok_content_length(),
    );
    lemma_find_upsert_same(
        pre.0.headers,
        tok_content_length(),
        dec_digits(gzip_of(pre.0.body).len() as int),
    );
}

} // verus!
