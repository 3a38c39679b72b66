//! The router: a pure mapping from a parsed request and configuration to a
//! response, over a pluggable storage model. Path targets are split on `/`
//! with empty segments discarded; the file routes go through [`MemStorage`],
//! an in-memory storage collaborator with the `read`/`write` contract that
//! the real filesystem collaborator mirrors.

use vstd::prelude::*;

use crate::bytes::{
    clone_bytes, dec_digits, find_byte, first_index_of, lemma_first_index_of_unique, push_all,
    seq_views, subvec, usize_to_dec,
};
use crate::http::{
    success_headers, HttpMethod, HttpVersion, Request, RequestView, Response, ResponseView,
    StatusCode,
};
use crate::negotiate::{ae_normalized, spec_negotiate};
use crate::table::{assoc_find, assoc_unique, assoc_upsert, ByteTable};
use crate::tokens::{
    tok_content_length, tok_content_length_vec, tok_content_type, tok_content_type_vec, tok_echo,
    tok_echo_vec, tok_files, tok_files_vec, tok_octet_stream, tok_octet_stream_vec,
    tok_user_agent, tok_user_agent_seg, tok_user_agent_seg_vec, tok_user_agent_vec,
};

verus! {

/// Server configuration: an optional base-directory prefix for the file
/// routes. Read-only once built.
#[derive(Clone)]
pub struct Config {
    pub directory: Option<Vec<u8>>,
}

/// The path prefix a configuration prescribes: the directory, or nothing.
pub open spec fn dir_of(c: Config) -> Seq<u8> {
    match c.directory {
        Some(d) => d@,
        None => Seq::empty(),
    }
}

/// The in-memory storage collaborator: a table from file path to contents.
/// `read` yields the stored bytes or nothing; `write` stores and, here,
/// always succeeds.
pub struct MemStorage {
    files: ByteTable,
}

impl View for MemStorage {
    type V = Seq<(Seq<u8>, Seq<u8>)>;

    closed spec fn view(&self) -> Seq<(Seq<u8>, Seq<u8>)> {
        self.files@
    }
}

impl MemStorage {
    /// Well-formed: one entry per path.
    pub open spec fn wf(&self) -> bool {
        assoc_unique(self@)
    }

    /// Empty storage.
    pub fn new() -> (r: MemStorage)
        ensures
            r@ == Seq::<(Seq<u8>, Seq<u8>)>::empty(),
            r.wf(),
    {
        MemStorage { files: ByteTable::new() }
    }

    /// The contents stored under `path`, or `None`.
    pub fn read(&self, path: &Vec<u8>) -> (r: Option<Vec<u8>>)
        ensures
            match r {
                Some(c) => assoc_find(self@, path@) == Some(c@),
                None => assoc_find(self@, path@) is None,
            },
    {
        self.files.get(path)
    }

    /// Stores `contents` under `path`, overwriting; reports success.
    pub fn write(&mut self, path: Vec<u8>, contents: Vec<u8>) -> (ok: bool)
        requires
            old(self).wf(),
        ensures
            ok,
            final(self)@ == assoc_upsert(old(self)@, path@, contents@),
            final(self).wf(),
    {
        self.files.set(path, contents);
        true
    }
}

/// Where a request goes: the route table of the server.
pub enum Route {
    Root,
    UserAgent,
    Echo(Vec<u8>),
    FileRead(Vec<u8>),
    FileWrite(Vec<u8>),
    NotFound,
}

/// The spec-level shape of a [`Route`].
#[verifier::ext_equal]
pub enum RouteView {
    Root,
    UserAgent,
    Echo(Seq<u8>),
    FileRead(Seq<u8>),
    FileWrite(Seq<u8>),
    NotFound,
}

impl View for Route {
    type V = RouteView;

    open spec fn view(&self) -> RouteView {
        match self {
            Route::Root => RouteView::Root,
            Route::UserAgent => RouteView::UserAgent,
            Route::Echo(v) => RouteView::Echo(v@),
            Route::FileRead(p) => RouteView::FileRead(p@),
            Route::FileWrite(p) => RouteView::FileWrite(p@),
            Route::NotFound => RouteView::NotFound,
        }
    }
}

/// The non-empty `/`-separated segments of a request target, so `/echo/x`
/// and `/echo/x/` match identically.
pub open spec fn spec_segments(s: Seq<u8>) -> Seq<Seq<u8>>
    decreases s.len(),
{
    let i = first_index_of(s, 47);
    if !(0 <= i && i < s.len()) {
        if s.len() == 0 {
            Seq::empty()
        } else {
            seq![s]
        }
    } else {
        let seg = s.take(i);
        let rest = spec_segments(s.skip(i + 1));
        if seg.len() == 0 {
            rest
        } else {
            seq![seg] + rest
        }
    }
}

/// The route a method and target select, with the configured directory
/// prefix already joined onto file paths.
pub open spec fn spec_route(method: HttpMethod, target: Seq<u8>, dir: Seq<u8>) -> RouteView {
    let segs = spec_segments(target);
    match method {
        HttpMethod::Get => {
            if segs.len() == 0 {
                RouteView::Root
            } else if segs.len() == 1 && segs[0] == tok_user_agent_seg() {
                RouteView::UserAgent
            } else if segs.len() == 2 && segs[0] == tok_echo() {
                RouteView::Echo(segs[1])
            } else if segs.len() == 2 && segs[0] == tok_files() {
                RouteView::FileRead(dir + segs[1])
            } else {
                RouteView::NotFound
            }
        },
        HttpMethod::Post => {
            if segs.len() == 2 && segs[0] == tok_files() {
                RouteView::FileWrite(dir + segs[1])
            } else {
                RouteView::NotFound
            }
        },
    }
}

/// The non-empty path segments of `v`.
fn split_segments(v: &Vec<u8>) -> (r: Vec<Vec<u8>>)
    ensures
        seq_views(r@) == spec_segments(v@),
{
    let mut segs: Vec<Vec<u8>> = Vec::new();
    let mut pos: usize = 0;
    proof {
        assert(v@.skip(0) =~= v@);
        assert(seq_views(segs@) + spec_segments(v@) =~= spec_segments(v@));
    }
    loop
        invariant_except_break
            pos <= v@.len(),
            spec_segments(v@) == seq_views(segs@) + spec_segments(v@.skip(pos as int)),
        ensures
            spec_segments(v@) == seq_views(segs@),
        decreases v@.len() - pos,
    {
        let ghost suffix = v@.skip(pos as int);
        if pos == v.len() {
            proof {
                assert(suffix =~= Seq::<u8>::empty());
                assert(spec_segments(suffix) =~= Seq::<Seq<u8>>::empty());
                assert(seq_views(segs@) + spec_segments(suffix) =~= seq_views(segs@));
            }
            break ;
        }
        let j = find_byte(v, pos, 47);
        let tok = subvec(v, pos, j);
        let ghost segs0 = seq_views(segs@);
        proof {
            assert forall|t: int| 0 <= t < j - pos implies suffix[t] != 47 by {
                assert(suffix[t] == v@[pos + t]);
            }
        }
        if j == v.len() {
            proof {
                lemma_first_index_of_unique(suffix, 47, suffix.len() as int);
                assert(suffix =~= v@.subrange(pos as int, j as int));
                assert(spec_segments(suffix) == seq![tok@]);
            }
            segs.push(tok);
            proof {
                assert(seq_views(segs@) =~= segs0.push(tok@));
                assert(segs0 + seq![tok@] =~= seq_views(segs@));
            }
            break ;
        }
        proof {
            assert(suffix[j - pos] == v@[j as int]);
            lemma_first_index_of_unique(suffix, 47, j - pos);
            assert(suffix.take(j - pos) =~= v@.subrange(pos as int, j as int));
            assert(suffix.skip(j - pos + 1) =~= v@.skip(j + 1));
        }
        if tok.len() > 0 {
            segs.push(tok);
            proof {
                assert(spec_segments(suffix) == seq![tok@] + spec_segments(v@.skip(j + 1)));
                assert(seq_views(segs@) =~= segs0.push(tok@));
                assert(segs0 + (seq![tok@] + spec_segments(v@.skip(j + 1))) =~= seq_views(segs@)
                    + spec_segments(v@.skip(j + 1)));
            }
        } else {
            proof {
                assert(spec_segments(suffix) == spec_segments(v@.skip(j + 1)));
            }
        }
        pos = j + 1;
    }
    segs
}

/// The configured directory prefix as bytes.
fn dir_prefix(config: &Config) -> (r: Vec<u8>)
    ensures
        r@ == dir_of(*config),
{
    match &config.directory {
        Some(d) => clone_bytes(d),
        None => {
            let r: Vec<u8> = Vec::new();
            proof {
                assert(r@ =~= Seq::<u8>::empty());
            }
            r
        },
    }
}

/// Dispatches a method and target to their route.
pub fn route_of(method: HttpMethod, request_target: &Vec<u8>, config: &Config) -> (r: Route)
    ensures
        r@ == spec_route(method, request_target@, dir_of(*config)),
{
    let segs = split_segments(request_target);
    proof {
        if segs@.len() > 0 {
            assert(seq_views(segs@)[0] == segs@[0]@);
        }
        if segs@.len() > 1 {
            assert(seq_views(segs@)[1] == segs@[1]@);
        }
    }
    match method {
        HttpMethod::Get => {
            if segs.len() == 0 {
                Route::Root
            } else if segs.len() == 1 && crate::bytes::vec_u8_eq(
                &segs[0],
                &tok_user_agent_seg_vec(),
            ) {
                Route::UserAgent
            } else if segs.len() == 2 && crate::bytes::vec_u8_eq(&segs[0], &tok_echo_vec()) {
                Route::Echo(clone_bytes(&segs[1]))
            } else if segs.len() == 2 && crate::bytes::vec_u8_eq(&segs[0], &tok_files_vec()) {
                let mut path = dir_prefix(config);
                push_all(&mut path, &segs[1]);
                Route::FileRead(path)
            } else {
                Route::NotFound
            }
        },
        HttpMethod::Post => {
            if segs.len() == 2 && crate::bytes::vec_u8_eq(&segs[0], &tok_files_vec()) {
                let mut path = dir_prefix(config);
                push_all(&mut path, &segs[1]);
                Route::FileWrite(path)
            } else {
                Route::NotFound
            }
        },
    }
}

/// The request's `User-Agent` value, or nothing.
pub open spec fn user_agent_of(hs: Seq<(Seq<u8>, Seq<u8>)>) -> Seq<u8> {
    match assoc_find(hs, tok_user_agent()) {
        Some(v) => v,
        None => Seq::empty(),
    }
}

/// 404 Not Found: empty body, no headers.
pub open spec fn resp_404() -> ResponseView {
    ResponseView {
        version: HttpVersion::Http1_1,
        status: StatusCode::NotFound,
        headers: Seq::empty(),
        body: Seq::empty(),
    }
}

/// 200 OK with an empty body and no content headers, the root response.
pub open spec fn resp_ok_empty() -> ResponseView {
    ResponseView {
        version: HttpVersion::Http1_1,
        status: StatusCode::Success,
        headers: Seq::empty(),
        body: Seq::empty(),
    }
}

/// 201 Created: empty body, no headers.
pub open spec fn resp_created() -> ResponseView {
    ResponseView {
        version: HttpVersion::Http1_1,
        status: StatusCode::Created,
        headers: Seq::empty(),
        body: Seq::empty(),
    }
}

/// 500 Server Error: empty body, no headers.
pub open spec fn resp_server_error() -> ResponseView {
    ResponseView {
        version: HttpVersion::Http1_1,
        status: StatusCode::ServerError,
        headers: Seq::empty(),
        body: Seq::empty(),
    }
}

/// 200 OK with `Content-Type: text/plain` and a matching `Content-Length`.
pub open spec fn resp_text(body: Seq<u8>) -> ResponseView {
    ResponseView {
        version: HttpVersion::Http1_1,
        status: StatusCode::Success,
        headers: success_headers(Seq::empty(), body),
        body,
    }
}

/// The headers of a served file: `application/octet-stream` and the length.
pub open spec fn file_headers(body: Seq<u8>) -> Seq<(Seq<u8>, Seq<u8>)> {
    assoc_upsert(
        assoc_upsert(Seq::empty(), tok_content_type(), tok_octet_stream()),
        tok_content_length(),
        dec_digits(body.len() as int),
    )
}

/// 200 OK carrying a stored file.
pub open spec fn resp_file(body: Seq<u8>) -> ResponseView {
    ResponseView {
        version: HttpVersion::Http1_1,
        status: StatusCode::Success,
        headers: file_headers(body),
        body,
    }
}

/// The handler's response before negotiation, and the storage afterwards.
pub open spec fn spec_handle_route(
    req: RequestView,
    dir: Seq<u8>,
    files: Seq<(Seq<u8>, Seq<u8>)>,
) -> (ResponseView, Seq<(Seq<u8>, Seq<u8>)>) {
    match spec_route(req.method, req.target, dir) {
        RouteView::Root => (resp_ok_empty(), files),
        RouteView::UserAgent => (resp_text(user_agent_of(req.headers)), files),
        RouteView::Echo(value) => (resp_text(value), files),
        RouteView::FileRead(path) => match assoc_find(files, path) {
            Some(contents) => (resp_file(contents), files),
            None => (resp_404(), files),
        },
        RouteView::FileWrite(path) => (resp_created(), assoc_upsert(files, path, req.body)),
        RouteView::NotFound => (resp_404(), files),
    }
}

/// The full handling of one request: route, produce the response, then
/// negotiate the transfer encoding — in that order, so `Content-Length`
/// reflects the final body.
pub open spec fn spec_handle(
    req: RequestView,
    dir: Seq<u8>,
    files: Seq<(Seq<u8>, Seq<u8>)>,
) -> (ResponseView, Seq<(Seq<u8>, Seq<u8>)>) {
    let pre = spec_handle_route(req, dir, files);
    (spec_negotiate(pre.0, req), pre.1)
}

/// The response for a storage `read` outcome: the file with its content
/// headers, or a bare 404.
pub fn response_for_file_read(contents: Option<Vec<u8>>) -> (r: Response)
    ensures
        r@ == (match contents {
            Some(c) => resp_file(c@),
            None => resp_404(),
        }),
        r.wf(),
{
    match contents {
        Some(c) => {
            let mut r = Response::new(HttpVersion::Http1_1, StatusCode::Success, c);
            r.add_header(tok_content_type_vec(), tok_octet_stream_vec());
            let n = r.body.len();
            r.add_header(tok_content_length_vec(), usize_to_dec(n));
            r
        },
        None => Response::new_404(),
    }
}

/// The response for a storage `write` outcome: a bare 201 on success, a
/// bare 500 on failure.
pub fn response_for_file_write(ok: bool) -> (r: Response)
    ensures
        ok ==> r@ == resp_created(),
        !ok ==> r@ == resp_server_error(),
        r.wf(),
{
    if ok {
        Response::new(HttpVersion::Http1_1, StatusCode::Created, Vec::new())
    } else {
        Response::new(HttpVersion::Http1_1, StatusCode::ServerError, Vec::new())
    }
}

/// Routes the request, runs the matched handler against the storage, and
/// negotiates the response. The request must be header-normalized, as the
/// codec leaves it.
pub fn handle_request(request: Request, config: Config, storage: &mut MemStorage) -> (response:
    Response)
    requires
        old(storage).wf(),
        ae_normalized(request@.headers),
    ensures
        ({
            let hr = spec_handle(request@, dir_of(config), old(storage)@);
            &&& response@ == hr.0
            &&& final(storage)@ == hr.1
            &&& response.wf()
            &&& final(storage).wf()
        }),
{
    let mut response = Response::new_404();
    let route = route_of(request.http_method, &request.request_target, &config);
    match route {
        Route::Root => {
            let empty: Vec<u8> = Vec::new();
            proof {
                assert(empty@ =~= Seq::<u8>::empty());
            }
            response.update(HttpVersion::Http1_1, StatusCode::Success, empty);
        },
        Route::UserAgent => {
            let ua = match request.headers.get(&tok_user_agent_vec()) {
                Some(v) => v,
                None => Vec::new(),
            };
            proof {
                assert(ua@ == user_agent_of(request@.headers));
            }
            response.success(ua);
        },
        Route::Echo(value) => {
            response.success(value);
        },
        Route::FileRead(path) => {
            let contents = storage.read(&path);
            response = response_for_file_read(contents);
        },
        Route::FileWrite(path) => {
            let body = clone_bytes(&request.body);
            let ok = storage.write(path, body);
            response = response_for_file_write(ok);
        },
        Route::NotFound => {},
    }
    response.integrate_request(&request);
    response
}

} // verus!
