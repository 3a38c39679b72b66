//! The HTTP/1.1 wire codec. Decoding turns raw request bytes into a
//! [`Request`] or an [`HttpException`]; encoding turns a [`Response`] (or a
//! [`Request`]) into its exact wire bytes. Both directions are pinned to the
//! spec-level functions [`spec_parse_request`], [`spec_encode_request`] and
//! [`spec_encode_response`].

use vstd::prelude::*;

use crate::bytes::{
    clone_bytes, find_byte, first_index_of, is_ascii_ws, lemma_first_index_of_unique, parse_dec,
    push_all, seq_views, subvec, trim, trim_bytes, trim_right,
};
use crate::http::{
    method_bytes, status_bytes, version_bytes, HttpException, HttpExceptionView, HttpMethod,
    HttpVersion, Request, RequestView, Response, ResponseView,
};
use crate::negotiate::normalize_request;
use crate::table::{assoc_find, assoc_upsert, ByteTable};
use crate::tokens::{
    tok_colon_sp, tok_colon_sp_vec, tok_content_length, tok_content_length_vec, tok_crlf,
    tok_crlf_vec, tok_get, tok_http11, tok_post, tok_sp, tok_sp_vec,
};

verus! {

/// A line with one trailing carriage return removed, as the line reader
/// leaves CRLF-terminated lines.
pub open spec fn strip_cr(s: Seq<u8>) -> Seq<u8> {
    if s.len() > 0 && s[s.len() - 1] == 13 {
        s.take(s.len() - 1)
    } else {
        s
    }
}

/// Splits the header block from a raw input: the newline-delimited lines up
/// to the first blank line, and everything after that blank line. An input
/// that ends without a newline contributes its tail as a final line.
pub open spec fn split_head(s: Seq<u8>) -> (Seq<Seq<u8>>, Seq<u8>)
    decreases s.len(),
{
    let i = first_index_of(s, 10);
    if !(0 <= i && i < s.len()) {
        if s.len() == 0 {
            (Seq::empty(), Seq::empty())
        } else {
            (seq![strip_cr(s)], Seq::empty())
        }
    } else {
        let line = strip_cr(s.take(i));
        let rest = s.skip(i + 1);
        if line.len() == 0 {
            (Seq::empty(), rest)
        } else {
            let r = split_head(rest);
            (seq![line] + r.0, r.1)
        }
    }
}

/// The length of the leading run of non-whitespace bytes.
pub open spec fn token_len(s: Seq<u8>) -> int
    decreases s.len(),
{
    if s.len() == 0 || is_ascii_ws(s[0]) {
        0
    } else {
        1 + token_len(s.skip(1))
    }
}

pub proof fn lemma_token_len_unique(s: Seq<u8>, n: int)
    requires
        0 <= n <= s.len(),
        forall|j: int| 0 <= j < n ==> !is_ascii_ws(s[j]),
        n < s.len() ==> is_ascii_ws(s[n]),
    ensures
        token_len(s) == n,
    decreases s.len(),
{
    if s.len() == 0 {
    } else if is_ascii_ws(s[0]) {
        assert(n == 0);
    } else {
        assert(n > 0);
        assert forall|j: int| 0 <= j < n - 1 implies !is_ascii_ws(s.skip(1)[j]) by {
            assert(s.skip(1)[j] == s[j + 1]);
        }
        if n < s.len() {
            assert(s.skip(1)[n - 1] == s[n]);
        }
        lemma_token_len_unique(s.skip(1), n - 1);
    }
}

/// The whitespace-separated tokens of a line, as the status line is split.
pub open spec fn split_ws(s: Seq<u8>) -> Seq<Seq<u8>>
    decreases s.len(),
{
    if s.len() == 0 {
        Seq::empty()
    } else if is_ascii_ws(s[0]) {
        split_ws(s.skip(1))
    } else {
        let n0 = token_len(s);
        let n = if 1 <= n0 && n0 <= s.len() {
            n0
        } else {
            1
        };
        seq![s.take(n)] + split_ws(s.skip(n))
    }
}

/// A header line split at its first colon: name and value, both trimmed.
/// A line without a colon carries no header and is skipped.
pub open spec fn header_entry(line: Seq<u8>) -> Option<(Seq<u8>, Seq<u8>)> {
    let i = first_index_of(line, 58);
    if 0 <= i && i < line.len() {
        Some((trim(line.take(i)), trim(line.skip(i + 1))))
    } else {
        None
    }
}

/// Folds header lines into a header table, last writer winning on a
/// repeated name.
pub open spec fn collect_headers(acc: Seq<(Seq<u8>, Seq<u8>)>, lines: Seq<Seq<u8>>) -> Seq<
    (Seq<u8>, Seq<u8>),
>
    decreases lines.len(),
{
    if lines.len() == 0 {
        acc
    } else {
        let acc2 = match header_entry(lines[0]) {
            Some(kv) => assoc_upsert(acc, kv.0, kv.1),
            None => acc,
        };
        collect_headers(acc2, lines.skip(1))
    }
}

/// The body length a header table declares: a `Content-Length` value that
/// parses as a decimal number, and zero otherwise.
pub open spec fn content_length_of(hs: Seq<(Seq<u8>, Seq<u8>)>) -> int {
    match assoc_find(hs, tok_content_length()) {
        Some(v) => match parse_dec(v) {
            Some(n) => n,
            None => 0,
        },
        None => 0,
    }
}

/// Exactly `n` body bytes: what the input supplies, zero-filled past its
/// end, as a short read leaves the body buffer.
pub open spec fn zero_pad(rest: Seq<u8>, n: int) -> Seq<u8> {
    Seq::new(
        if n >= 0 {
            n as nat
        } else {
            0
        },
        |i: int|
            if i < rest.len() {
                rest[i]
            } else {
                0u8
            },
    )
}

/// The decode direction, start to finish: line splitting, status-line
/// tokenization, method and version checks (in that order), header
/// collection, `Content-Length` framing, and header normalization.
pub open spec fn spec_parse_request(s: Seq<u8>) -> Result<RequestView, HttpExceptionView> {
    let lines = split_head(s).0;
    let rest = split_head(s).1;
    if lines.len() == 0 {
        Err(HttpExceptionView::InvalidStatusLine(Seq::empty()))
    } else {
        let toks = split_ws(lines[0]);
        if toks.len() != 3 {
            Err(HttpExceptionView::InvalidStatusLine(lines[0]))
        } else if !(toks[0] == tok_get() || toks[0] == tok_post()) {
            Err(HttpExceptionView::InvalidMethod(toks[0]))
        } else if toks[2] != tok_http11() {
            Err(HttpExceptionView::InvalidVersion(toks[2]))
        } else {
            let method = if toks[0] == tok_get() {
                HttpMethod::Get
            } else {
                HttpMethod::Post
            };
            let headers = collect_headers(Seq::empty(), lines.skip(1));
            let body = zero_pad(rest, content_length_of(headers));
            Ok(
                normalize_request(
                    RequestView {
                        method,
                        target: toks[1],
                        version: HttpVersion::Http1_1,
                        headers,
                        body,
                    },
                ),
            )
        }
    }
}

/// The wire form of a header table: one `name: value` line per entry, in
/// table order, each CRLF-terminated.
pub open spec fn spec_stringify_headers(hs: Seq<(Seq<u8>, Seq<u8>)>) -> Seq<u8>
    decreases hs.len(),
{
    if hs.len() == 0 {
        Seq::empty()
    } else {
        hs[0].0 + tok_colon_sp() + hs[0].1 + tok_crlf() + spec_stringify_headers(hs.skip(1))
    }
}

/// Serializes a header table in its stable order.
pub fn stringify_headers(headers: &ByteTable) -> (r: Vec<u8>)
    ensures
        r@ == spec_stringify_headers(headers@),
{
    let mut r: Vec<u8> = Vec::new();
    let mut i: usize = 0;
    proof {
        assert(headers@.skip(0) =~= headers@);
        assert(r@ + spec_stringify_headers(headers@) =~= spec_stringify_headers(headers@));
    }
    while i < headers.len()
        invariant
            i <= headers@.len(),
            spec_stringify_headers(headers@) == r@ + spec_stringify_headers(
                headers@.skip(i as int),
            ),
        decreases headers@.len() - i,
    {
        push_all(&mut r, headers.key_at(i));
        let sep = tok_colon_sp_vec();
        push_all(&mut r, &sep);
        push_all(&mut r, headers.value_at(i));
        let crlf = tok_crlf_vec();
        push_all(&mut r, &crlf);
        proof {
            let suffix = headers@.skip(i as int);
            assert(suffix[0] == headers@[i as int]);
            assert(suffix.skip(1) =~= headers@.skip(i + 1));
            assert(spec_stringify_headers(suffix) == suffix[0].0 + tok_colon_sp() + suffix[0].1
                + tok_crlf() + spec_stringify_headers(headers@.skip(i + 1)));
            assert(spec_stringify_headers(headers@) =~= r@ + spec_stringify_headers(
                headers@.skip(i + 1),
            ));
        }
        i = i + 1;
    }
    proof {
        assert(headers@.skip(headers@.len() as int) =~= Seq::<(Seq<u8>, Seq<u8>)>::empty());
        assert(r@ + spec_stringify_headers(Seq::<(Seq<u8>, Seq<u8>)>::empty()) =~= r@);
    }
    r
}

/// The whitespace-separated tokens of a line.
fn split_ws_tokens(v: &Vec<u8>) -> (r: Vec<Vec<u8>>)
    ensures
        seq_views(r@) == split_ws(v@),
{
    let mut toks: Vec<Vec<u8>> = Vec::new();
    let mut pos: usize = 0;
    proof {
        assert(v@.skip(0) =~= v@);
        assert(seq_views(toks@) + split_ws(v@) =~= split_ws(v@));
    }
    loop
        invariant_except_break
            pos <= v@.len(),
            split_ws(v@) == seq_views(toks@) + split_ws(v@.skip(pos as int)),
        ensures
            split_ws(v@) == seq_views(toks@),
        decreases v@.len() - pos,
    {
        let ghost suffix = v@.skip(pos as int);
        if pos == v.len() {
            proof {
                assert(suffix =~= Seq::<u8>::empty());
                assert(split_ws(suffix) =~= Seq::<Seq<u8>>::empty());
                assert(seq_views(toks@) + split_ws(suffix) =~= seq_views(toks@));
            }
            break ;
        }
        if crate::bytes::is_ws_byte(v[pos]) {
            proof {
                assert(suffix[0] == v@[pos as int]);
                assert(suffix.skip(1) =~= v@.skip(pos + 1));
                assert(split_ws(suffix) == split_ws(v@.skip(pos + 1)));
            }
            pos = pos + 1;
        } else {
            let mut e: usize = pos;
            while e < v.len() && !crate::bytes::is_ws_byte(v[e])
                invariant
                    pos <= e <= v@.len(),
                    forall|j: int| pos <= j < e ==> !is_ascii_ws(v@[j]),
                decreases v@.len() - e,
            {
                e = e + 1;
            }
            let tok = subvec(v, pos, e);
            let ghost toks0 = seq_views(toks@);
            toks.push(tok);
            proof {
                assert(suffix[0] == v@[pos as int]);
                assert(!is_ascii_ws(suffix[0]));
                assert forall|t: int| 0 <= t < e - pos implies !is_ascii_ws(suffix[t]) by {
                    assert(suffix[t] == v@[pos + t]);
                }
                if e < v@.len() {
                    assert(suffix[e - pos] == v@[e as int]);
                }
                lemma_token_len_unique(suffix, e - pos);
                assert(suffix.take(e - pos) =~= v@.subrange(pos as int, e as int));
                assert(suffix.skip(e - pos) =~= v@.skip(e as int));
                assert(split_ws(suffix) == seq![tok@] + split_ws(v@.skip(e as int)));
                assert(seq_views(toks@) =~= toks0.push(tok@));
                assert(seq_views(toks@) + split_ws(v@.skip(e as int)) =~= toks0 + (seq![tok@]
                    + split_ws(v@.skip(e as int))));
            }
            pos = e;
        }
    }
    toks
}

/// Decodes one request from raw input bytes, or reports the first protocol
/// error, method before version. The returned request is header-normalized.
pub fn parse_request(input: &Vec<u8>) -> (r: Result<Request, HttpException>)
    ensures
        match r {
            Ok(req) => spec_parse_request(input@) == Ok::<RequestView, HttpExceptionView>(req@)
                && req.wf() && crate::negotiate::ae_normalized(req@.headers),
            Err(e) => spec_parse_request(input@) == Err::<RequestView, HttpExceptionView>(e@),
        },
{
    let ghost head = split_head(input@);
    let mut lines: Vec<Vec<u8>> = Vec::new();
    let mut pos: usize = 0;
    let mut body_start: usize = input.len();
    proof {
        assert(input@.skip(0) =~= input@);
        assert(seq_views(lines@) + head.0 =~= head.0);
    }
    loop
        invariant_except_break
            pos <= input@.len(),
            head == split_head(input@),
            head.0 == seq_views(lines@) + split_head(input@.skip(pos as int)).0,
            head.1 == split_head(input@.skip(pos as int)).1,
        ensures
            head == split_head(input@),
            head.0 == seq_views(lines@),
            head.1 == input@.skip(body_start as int),
            body_start <= input@.len(),
        decreases input@.len() - pos,
    {
        let j = find_byte(input, pos, 10);
        let mut line = subvec(input, pos, j);
        if line.len() > 0 && line[line.len() - 1] == 13 {
            line.pop();
        }
        let ghost suffix = input@.skip(pos as int);
        let ghost raw_line = input@.subrange(pos as int, j as int);
        proof {
            assert(line@ == strip_cr(raw_line));
            assert forall|t: int| 0 <= t < j - pos implies suffix[t] != 10 by {
                assert(suffix[t] == input@[pos + t]);
            }
        }
        if j == input.len() {
            proof {
                lemma_first_index_of_unique(suffix, 10, suffix.len() as int);
                if pos < input@.len() {
                    assert(suffix =~= raw_line);
                    assert(split_head(suffix).0 == seq![strip_cr(suffix)]);
                    assert(split_head(suffix).1 == Seq::<u8>::empty());
                } else {
                    assert(suffix =~= Seq::<u8>::empty());
                    assert(split_head(suffix).0 == Seq::<Seq<u8>>::empty());
                    assert(split_head(suffix).1 == Seq::<u8>::empty());
                }
            }
            let ghost lines0 = lines@;
            if pos < input.len() {
                lines.push(line);
                proof {
                    assert(seq_views(lines@) =~= seq_views(lines0).push(line@));
                    assert(seq_views(lines0) + seq![strip_cr(suffix)] =~= seq_views(lines@));
                }
            } else {
                proof {
                    assert(seq_views(lines0) + Seq::<Seq<u8>>::empty() =~= seq_views(lines@));
                }
            }
            body_start = input.len();
            proof {
                assert(input@.skip(body_start as int) =~= Seq::<u8>::empty());
            }
            break ;
        } else if line.len() == 0 {
            proof {
                assert(suffix[j - pos] == input@[j as int]);
                lemma_first_index_of_unique(suffix, 10, j - pos);
                assert(suffix.take(j - pos) =~= raw_line);
                assert(strip_cr(suffix.take(j - pos)) == line@);
                assert(suffix.skip(j - pos + 1) =~= input@.skip(j + 1));
                assert(split_head(suffix).0 == Seq::<Seq<u8>>::empty());
                assert(split_head(suffix).1 == input@.skip(j + 1));
                assert(seq_views(lines@) + Seq::<Seq<u8>>::empty() =~= seq_views(lines@));
            }
            body_start = j + 1;
            break ;
        } else {
            let ghost lines0 = lines@;
            lines.push(line);
            proof {
                assert(suffix[j - pos] == input@[j as int]);
                lemma_first_index_of_unique(suffix, 10, j - pos);
                assert(suffix.take(j - pos) =~= raw_line);
                assert(strip_cr(suffix.take(j - pos)) == line@);
                assert(suffix.skip(j - pos + 1) =~= input@.skip(j + 1));
                let sub = split_head(input@.skip(j + 1));
                assert(split_head(suffix).0 == seq![line@] + sub.0);
                assert(split_head(suffix).1 == sub.1);
                assert(seq_views(lines@) =~= seq_views(lines0).push(line@));
                assert(seq_views(lines0) + (seq![line@] + sub.0) =~= seq_views(lines@) + sub.0);
            }
            pos = j + 1;
        }
    }
    if lines.len() == 0 {
        let empty: Vec<u8> = Vec::new();
        proof {
            assert(empty@ =~= Seq::<u8>::empty());
        }
        return Err(HttpException::InvalidStatusLine(empty));
    }
    let toks = split_ws_tokens(&lines[0]);
    proof {
        assert(seq_views(lines@)[0] == lines@[0]@);
    }
    if toks.len() != 3 {
        return Err(HttpException::InvalidStatusLine(clone_bytes(&lines[0])));
    }
    proof {
        assert(seq_views(toks@)[0] == toks@[0]@);
        assert(seq_views(toks@)[1] == toks@[1]@);
        assert(seq_views(toks@)[2] == toks@[2]@);
    }
    let method = match HttpMethod::parse_method(&toks[0]) {
        Ok(m) => m,
        Err(e) => {
            return Err(e);
        },
    };
    let version = match HttpVersion::parse_version(&toks[2]) {
        Ok(v) => v,
        Err(e) => {
            proof {
                assert(method_bytes(method) == tok_get() || method_bytes(method) == tok_post());
            }
            return Err(e);
        },
    };
    proof {
        assert(tok_get().len() != tok_post().len());
    }
    let target = clone_bytes(&toks[1]);
    let ghost hl = seq_views(lines@);
    let mut headers = ByteTable::new();
    let mut k: usize = 1;
    proof {
        assert(collect_headers(Seq::empty(), hl.skip(1)) == collect_headers(
            headers@,
            hl.skip(k as int),
        ));
    }
    while k < lines.len()
        invariant
            1 <= k <= lines@.len(),
            hl == seq_views(lines@),
            hl.len() == lines@.len(),
            headers.wf(),
            collect_headers(Seq::empty(), hl.skip(1)) == collect_headers(
                headers@,
                hl.skip(k as int),
            ),
        decreases lines@.len() - k,
    {
        let line = &lines[k];
        let c = find_byte(line, 0, 58);
        let ghost lv = line@;
        proof {
            assert(hl.skip(k as int)[0] == hl[k as int]);
            assert(hl[k as int] == lv);
            assert(hl.skip(k as int).skip(1) =~= hl.skip(k + 1));
        }
        if c < line.len() {
            proof {
                lemma_first_index_of_unique(lv, 58, c as int);
            }
            let key = trim_bytes(&subvec(line, 0, c));
            let val = trim_bytes(&subvec(line, c + 1, line.len()));
            proof {
                assert(lv.subrange(0, c as int) =~= lv.take(c as int));
                assert(lv.subrange(c + 1, lv.len() as int) =~= lv.skip(c + 1));
                assert(header_entry(lv) == Some((trim(lv.take(c as int)), trim(lv.skip(c + 1)))));
            }
            headers.set(key, val);
        } else {
            proof {
                lemma_first_index_of_unique(lv, 58, lv.len() as int);
                assert(header_entry(lv) is None);
            }
        }
        k = k + 1;
    }
    proof {
        assert(hl.skip(hl.len() as int) =~= Seq::<Seq<u8>>::empty());
        assert(collect_headers(headers@, Seq::<Seq<u8>>::empty()) == headers@);
        assert(headers@ == collect_headers(Seq::empty(), hl.skip(1)));
    }
    let content_length: usize = match headers.get(&tok_content_length_vec()) {
        Some(v) => match crate::bytes::parse_dec_bytes(&v) {
            Some(n) => n,
            None => 0,
        },
        None => 0,
    };
    proof {
        assert(content_length == content_length_of(headers@));
    }
    let mut body: Vec<u8> = Vec::new();
    let mut t: usize = 0;
    let ghost rest = input@.skip(body_start as int);
    let ghost padded = zero_pad(rest, content_length as int);
    while t < content_length
        invariant
            t <= content_length,
            body_start <= input@.len(),
            rest == input@.skip(body_start as int),
            padded == zero_pad(rest, content_length as int),
            body@.len() == t,
            forall|x: int| 0 <= x < t ==> body@[x] == padded[x],
        decreases content_length - t,
    {
        if t < input.len() - body_start {
            let b = input[body_start + t];
            proof {
                assert(rest[t as int] == input@[body_start + t]);
            }
            body.push(b);
        } else {
            body.push(0);
        }
        t = t + 1;
    }
    proof {
        assert(body@ =~= padded);
    }
    let mut request = Request::new(method, target, version, headers, body);
    let ghost raw_view = request@;
    request.validate_headers();
    proof {
        let s = spec_parse_request(input@);
        assert(hl.len() > 0);
        assert(s == Ok::<RequestView, HttpExceptionView>(normalize_request(raw_view)));
        assert(request@ == normalize_request(raw_view));
        crate::negotiate::lemma_normalize_gives_ae_normalized(raw_view.headers);
    }
    Ok(request)
}

/// The wire bytes of a request: status line, header block, blank line, body.
pub open spec fn spec_encode_request(r: RequestView) -> Seq<u8> {
    method_bytes(r.method) + tok_sp() + r.target + tok_sp() + version_bytes(r.version) + tok_crlf()
        + spec_stringify_headers(r.headers) + tok_crlf() + r.body
}

/// Serializes a request onto the wire.
pub fn encode_request(r: &Request) -> (out: Vec<u8>)
    ensures
        out@ == spec_encode_request(r@),
{
    let mut out = r.http_method.to_bytes();
    let sp = tok_sp_vec();
    let crlf = tok_crlf_vec();
    push_all(&mut out, &sp);
    push_all(&mut out, &r.request_target);
    push_all(&mut out, &sp);
    let vb = r.http_version.to_bytes();
    push_all(&mut out, &vb);
    push_all(&mut out, &crlf);
    let hb = stringify_headers(&r.headers);
    push_all(&mut out, &hb);
    push_all(&mut out, &crlf);
    push_all(&mut out, &r.body);
    proof {
        assert(out@ =~= spec_encode_request(r@));
    }
    out
}

/// The wire bytes of a response: status line, header block, blank line,
/// body, the body verbatim.
pub open spec fn spec_encode_response(r: ResponseView) -> Seq<u8> {
    version_bytes(r.version) + tok_sp() + status_bytes(r.status) + tok_crlf()
        + spec_stringify_headers(r.headers) + tok_crlf() + r.body
}

/// Serializes a response onto the wire.
pub fn encode_response(r: &Response) -> (out: Vec<u8>)
    ensures
        out@ == spec_encode_response(r@),
{
    let mut out = r.http_version.to_bytes();
    let sp = tok_sp_vec();
    let crlf = tok_crlf_vec();
    push_all(&mut out, &sp);
    let sb = r.status_code.to_bytes();
    push_all(&mut out, &sb);
    push_all(&mut out, &crlf);
    let hb = stringify_headers(&r.headers);
    push_all(&mut out, &hb);
    push_all(&mut out, &crlf);
    push_all(&mut out, &r.body);
    proof {
        assert(out@ =~= spec_encode_response(r@));
    }
    out
}

/// The single wire line of one header entry, without its CRLF.
pub open spec fn header_line(kv: (Seq<u8>, Seq<u8>)) -> Seq<u8> {
    kv.0 + tok_colon_sp() + kv.1
}

/// A header name that survives the wire unchanged: no newline, no colon, and
/// no whitespace at either edge.
pub open spec fn wire_name_ok(k: Seq<u8>) -> bool {
    &&& forall|i: int| 0 <= i < k.len() ==> #[trigger] k[i] != 10 && k[i] != 58
    &&& k.len() > 0 ==> !is_ascii_ws(k[0]) && !is_ascii_ws(k[k.len() - 1])
}

/// A header value that survives the wire unchanged: no newline and no
/// whitespace at either edge.
pub open spec fn wire_value_ok(v: Seq<u8>) -> bool {
    &&& forall|i: int| 0 <= i < v.len() ==> #[trigger] v[i] != 10
    &&& v.len() > 0 ==> !is_ascii_ws(v[0]) && !is_ascii_ws(v[v.len() - 1])
}

/// A request the codec round-trips: a non-empty all-printable target,
/// wire-safe distinct headers, a `Content-Length` that matches the body, and
/// an `Accept-Encoding` already in normalized form (or absent).
pub open spec fn round_trippable(r: RequestView) -> bool {
    &&& r.target.len() > 0
    &&& forall|i: int| 0 <= i < r.target.len() ==> !is_ascii_ws(#[trigger] r.target[i])
    &&& crate::table::assoc_unique(r.headers)
    &&& forall|i: int|
        0 <= i < r.headers.len() ==> wire_name_ok(#[trigger] r.headers[i].0) && wire_value_ok(
            r.headers[i].1,
        )
    &&& content_length_of(r.headers) == r.body.len()
    &&& crate::negotiate::normalize_headers(r.headers) == r.headers
}

/// A line followed by CRLF and more input parses off as that line.
proof fn lemma_split_head_line(line: Seq<u8>, rest: Seq<u8>)
    requires
        line.len() > 0,
        forall|i: int| 0 <= i < line.len() ==> #[trigger] line[i] != 10,
        line[line.len() - 1] != 13,
    ensures
        split_head(line + tok_crlf() + rest) == (
            seq![line] + split_head(rest).0,
            split_head(rest).1,
        ),
{
    let s = line + tok_crlf() + rest;
    let n = line.len() as int;
    assert(s[n] == 13);
    assert(s[n + 1] == 10);
    assert forall|j: int| 0 <= j < n + 1 implies s[j] != 10 by {
        if j < n {
            assert(s[j] == line[j]);
        }
    }
    lemma_first_index_of_unique(s, 10, n + 1);
    assert(s.take(n + 1) =~= line.push(13u8));
    assert(strip_cr(line.push(13u8)) =~= line);
    assert(s.skip(n + 2) =~= rest);
    assert(split_head(s).0 == seq![line] + split_head(rest).0);
    assert(split_head(s).1 == split_head(rest).1);
}

/// A blank line ends the header block; what follows is the body.
proof fn lemma_split_head_blank(rest: Seq<u8>)
    ensures
        split_head(tok_crlf() + rest) == (Seq::<Seq<u8>>::empty(), rest),
{
    let s = tok_crlf() + rest;
    assert(s[0] == 13);
    assert(s[1] == 10);
    lemma_first_index_of_unique(s, 10, 1);
    assert(s.take(1) =~= seq![13u8]);
    assert(strip_cr(seq![13u8]) =~= Seq::<u8>::empty());
    assert(s.skip(2) =~= rest);
}

/// Wire-safe header entries give back exactly their lines.
proof fn lemma_split_head_headers(hs: Seq<(Seq<u8>, Seq<u8>)>, b: Seq<u8>)
    requires
        forall|i: int|
            0 <= i < hs.len() ==> wire_name_ok(#[trigger] hs[i].0) && wire_value_ok(hs[i].1),
    ensures
        split_head(spec_stringify_headers(hs) + (tok_crlf() + b)) == (
            hs.map_values(|kv: (Seq<u8>, Seq<u8>)| header_line(kv)),
            b,
        ),
    decreases hs.len(),
{
    let lm = |kv: (Seq<u8>, Seq<u8>)| header_line(kv);
    if hs.len() == 0 {
        assert(spec_stringify_headers(hs) + (tok_crlf() + b) =~= tok_crlf() + b);
        lemma_split_head_blank(b);
        assert(hs.map_values(lm) =~= Seq::<Seq<u8>>::empty());
    } else {
        let k = hs[0].0;
        let v = hs[0].1;
        let line = header_line(hs[0]);
        assert(line.len() > 0);
        assert forall|i: int| 0 <= i < line.len() implies #[trigger] line[i] != 10 by {
            if i < k.len() {
                assert(line[i] == k[i]);
            } else if i < k.len() + 2 {
                assert(line[i] == tok_colon_sp()[i - k.len()]);
            } else {
                assert(line[i] == v[i - k.len() - 2]);
            }
        }
        assert(line[line.len() - 1] != 13) by {
            if v.len() > 0 {
                assert(line[line.len() - 1] == v[v.len() - 1]);
                assert(!is_ascii_ws(v[v.len() - 1]));
            } else {
                assert(line[line.len() - 1] == tok_colon_sp()[1]);
            }
        }
        assert forall|i: int|
            0 <= i < hs.skip(1).len() implies wire_name_ok(#[trigger] hs.skip(1)[i].0)
            && wire_value_ok(hs.skip(1)[i].1) by {
            assert(hs.skip(1)[i] == hs[i + 1]);
        }
        lemma_split_head_headers(hs.skip(1), b);
        let tail = spec_stringify_headers(hs.skip(1)) + (tok_crlf() + b);
        assert(spec_stringify_headers(hs) + (tok_crlf() + b) =~= line + tok_crlf() + tail);
        lemma_split_head_line(line, tail);
        assert(seq![line] + hs.skip(1).map_values(lm) =~= hs.map_values(lm));
    }
}

/// A run of non-whitespace followed by whitespace (or the end) is one token.
proof fn lemma_split_ws_token(a: Seq<u8>, rest: Seq<u8>)
    requires
        a.len() > 0,
        forall|i: int| 0 <= i < a.len() ==> !is_ascii_ws(#[trigger] a[i]),
        rest.len() > 0 ==> is_ascii_ws(rest[0]),
    ensures
        split_ws(a + rest) == seq![a] + split_ws(rest),
{
    let s = a + rest;
    assert(!is_ascii_ws(s[0]));
    assert forall|j: int| 0 <= j < a.len() implies !is_ascii_ws(s[j]) by {
        assert(s[j] == a[j]);
    }
    if a.len() < s.len() {
        assert(s[a.len() as int] == rest[0]);
    }
    lemma_token_len_unique(s, a.len() as int);
    assert(s.take(a.len() as int) =~= a);
    assert(s.skip(a.len() as int) =~= rest);
}

/// Leading whitespace contributes no token.
proof fn lemma_split_ws_sp(rest: Seq<u8>)
    ensures
        split_ws(tok_sp() + rest) == split_ws(rest),
{
    let s = tok_sp() + rest;
    assert(s[0] == 32);
    assert(is_ascii_ws(s[0]));
    assert(s.skip(1) =~= rest);
}

/// Wire-safe headers, serialized and folded back, give the same table.
proof fn lemma_collect_header_lines(acc: Seq<(Seq<u8>, Seq<u8>)>, hs: Seq<(Seq<u8>, Seq<u8>)>)
    requires
        forall|i: int|
            0 <= i < hs.len() ==> wire_name_ok(#[trigger] hs[i].0) && wire_value_ok(hs[i].1),
        crate::table::assoc_unique(hs),
        forall|i: int, j: int|
            0 <= i < acc.len() && 0 <= j < hs.len() ==> #[trigger] acc[i].0 != #[trigger] hs[j].0,
    ensures
        collect_headers(acc, hs.map_values(|kv: (Seq<u8>, Seq<u8>)| header_line(kv))) == acc + hs,
    decreases hs.len(),
{
    let lm = |kv: (Seq<u8>, Seq<u8>)| header_line(kv);
    if hs.len() == 0 {
        assert(hs.map_values(lm) =~= Seq::<Seq<u8>>::empty());
        assert(acc + hs =~= acc);
    } else {
        let k = hs[0].0;
        let v = hs[0].1;
        let line = header_line(hs[0]);
        assert(line[k.len() as int] == tok_colon_sp()[0]);
        assert forall|j: int| 0 <= j < k.len() implies line[j] != 58 by {
            assert(line[j] == k[j]);
        }
        lemma_first_index_of_unique(line, 58, k.len() as int);
        assert(line.take(k.len() as int) =~= k);
        if k.len() > 0 {
            crate::bytes::lemma_trim_left_is_skip(k, 0);
            assert(k.skip(0) =~= k);
            crate::bytes::lemma_trim_right_is_take(k, k.len() as int);
            assert(k.take(k.len() as int) =~= k);
        } else {
            assert(trim(k) =~= k);
        }
        let after = line.skip(k.len() as int + 1);
        assert(after =~= seq![32u8] + v);
        if v.len() > 0 {
            assert(!is_ascii_ws((seq![32u8] + v)[1]));
            assert(is_ascii_ws((seq![32u8] + v)[0]));
            crate::bytes::lemma_trim_left_is_skip(seq![32u8] + v, 1);
            assert((seq![32u8] + v).skip(1) =~= v);
            crate::bytes::lemma_trim_right_is_take(v, v.len() as int);
            assert(v.take(v.len() as int) =~= v);
        } else {
            assert(seq![32u8] + v =~= seq![32u8]);
            assert(is_ascii_ws(seq![32u8][0]));
            crate::bytes::lemma_trim_left_is_skip(seq![32u8], 1);
            assert(seq![32u8].skip(1) =~= Seq::<u8>::empty());
            assert(trim_right(Seq::<u8>::empty()) =~= Seq::<u8>::empty());
            assert(trim(seq![32u8] + v) =~= v);
        }
        assert(header_entry(line) == Some((k, v)));
        assert forall|j: int| 0 <= j < acc.len() implies #[trigger] acc[j].0 != k by {
            assert(acc[j].0 != hs[0].0);
        }
        crate::table::lemma_upsert_absent(acc, k, v);
        assert(assoc_upsert(acc, k, v) == acc.push(hs[0]));
        let acc2 = acc.push(hs[0]);
        assert forall|i: int|
            0 <= i < hs.skip(1).len() implies wire_name_ok(#[trigger] hs.skip(1)[i].0)
            && wire_value_ok(hs.skip(1)[i].1) by {
            assert(hs.skip(1)[i] == hs[i + 1]);
        }
        assert forall|x: int, y: int|
            0 <= x < y < hs.skip(1).len() implies hs.skip(1)[x].0 != hs.skip(1)[y].0 by {
            assert(hs.skip(1)[x] == hs[x + 1]);
            assert(hs.skip(1)[y] == hs[y + 1]);
        }
        assert forall|i: int, j: int|
            0 <= i < acc2.len() && 0 <= j < hs.skip(1).len() implies #[trigger] acc2[i].0
            != #[trigger] hs.skip(1)[j].0 by {
            assert(hs.skip(1)[j] == hs[j + 1]);
            if i < acc.len() {
                assert(acc2[i] == acc[i]);
            } else {
                assert(acc2[i] == hs[0]);
            }
        }
        lemma_collect_header_lines(acc2, hs.skip(1));
        assert(hs.map_values(lm)[0] == line);
        assert(hs.map_values(lm).skip(1) =~= hs.skip(1).map_values(lm));
        assert(collect_headers(acc, hs.map_values(lm)) == collect_headers(
            acc2,
            hs.skip(1).map_values(lm),
        ));
        assert(acc2 + hs.skip(1) =~= acc + hs);
    }
}

/// Codec round trip: a wire-safe request, encoded and decoded, comes back
/// unchanged, headers, body framing and all.
pub proof fn lemma_codec_round_trip(r: RequestView)
    requires
        round_trippable(r),
    ensures
        spec_parse_request(spec_encode_request(r)) == Ok::<RequestView, HttpExceptionView>(r),
{
    let m = method_bytes(r.method);
    let t = r.target;
    let v = version_bytes(r.version);
    let sl = m + tok_sp() + t + tok_sp() + v;
    let hb = spec_stringify_headers(r.headers);
    let enc = spec_encode_request(r);
    let lm = |kv: (Seq<u8>, Seq<u8>)| header_line(kv);

    // the encoded bytes split back into the status line, the header lines
    // and the body
    assert forall|i: int| 0 <= i < sl.len() implies #[trigger] sl[i] != 10 by {
        lemma_status_line_bytes(r, i);
    }
    assert(sl[sl.len() - 1] == v[v.len() - 1]);
    assert(v[v.len() - 1] == 49);
    assert(sl.len() > 0);
    lemma_split_head_headers(r.headers, r.body);
    assert(enc =~= sl + tok_crlf() + (hb + (tok_crlf() + r.body)));
    lemma_split_head_line(sl, hb + (tok_crlf() + r.body));
    let lines = split_head(enc).0;
    let rest = split_head(enc).1;
    assert(lines == seq![sl] + r.headers.map_values(lm));
    assert(rest == r.body);
    assert(lines.len() > 0);
    assert(lines[0] == sl);

    // the status line splits back into its three tokens
    assert(!is_ascii_ws(32u8) == false);
    assert forall|i: int| 0 <= i < m.len() implies !is_ascii_ws(#[trigger] m[i]) by {
        lemma_method_bytes_printable(r.method, i);
    }
    assert forall|i: int| 0 <= i < v.len() implies !is_ascii_ws(#[trigger] v[i]) by {
        lemma_version_bytes_printable(r.version, i);
    }
    let s3 = v;
    let s2 = t + (tok_sp() + s3);
    let s1 = tok_sp() + s2;
    assert(sl =~= m + s1);
    assert(s1[0] == 32);
    assert(is_ascii_ws(s1[0]));
    lemma_split_ws_token(m, s1);
    lemma_split_ws_sp(s2);
    assert(tok_sp() + s3 == seq![32u8] + s3) by {
        assert(tok_sp() + s3 =~= seq![32u8] + s3);
    }
    assert((tok_sp() + s3)[0] == 32);
    assert(is_ascii_ws((tok_sp() + s3)[0]));
    lemma_split_ws_token(t, tok_sp() + s3);
    lemma_split_ws_sp(s3);
    lemma_split_ws_token(v, Seq::<u8>::empty());
    assert(split_ws(Seq::<u8>::empty()) =~= Seq::<Seq<u8>>::empty());
    assert(v + Seq::<u8>::empty() =~= v);
    assert(split_ws(s3) == seq![v] + Seq::<Seq<u8>>::empty());
    assert(split_ws(s2) == seq![t] + split_ws(tok_sp() + s3));
    assert(split_ws(sl) == seq![m] + split_ws(s1));
    let toks = split_ws(sl);
    assert(toks =~= seq![m, t, v]);
    assert(toks.len() == 3);
    assert(toks[0] == m);
    assert(toks[1] == t);
    assert(toks[2] == v);
    assert(tok_get().len() != tok_post().len());
    assert(toks[0] == tok_get() || toks[0] == tok_post());
    assert(toks[2] == tok_http11());

    // the header lines fold back into the same header table
    lemma_collect_header_lines(Seq::empty(), r.headers);
    assert(lines.skip(1) =~= r.headers.map_values(lm));
    assert(Seq::<(Seq<u8>, Seq<u8>)>::empty() + r.headers =~= r.headers);
    let headers = collect_headers(Seq::empty(), lines.skip(1));
    assert(headers == r.headers);

    // the declared content length frames exactly the body
    assert(content_length_of(headers) == r.body.len());
    assert(zero_pad(rest, content_length_of(headers)) =~= r.body);

    // normalization is the identity on an already-normalized request
    let method = if toks[0] == tok_get() {
        HttpMethod::Get
    } else {
        HttpMethod::Post
    };
    assert(method == r.method) by {
        if r.method is Get {
            assert(m == tok_get());
        } else {
            assert(m == tok_post());
        }
    }
    assert(r.version == HttpVersion::Http1_1);
    let rv = RequestView {
        method,
        target: toks[1],
        version: HttpVersion::Http1_1,
        headers,
        body: zero_pad(rest, content_length_of(headers)),
    };
    assert(crate::negotiate::normalize_request(rv) =~= r);
    assert(spec_parse_request(enc) == Ok::<RequestView, HttpExceptionView>(
        crate::negotiate::normalize_request(rv),
    ));
}

/// No byte of an encoded status line is a newline.
proof fn lemma_status_line_bytes(r: RequestView, i: int)
    requires
        round_trippable(r),
        0 <= i < (method_bytes(r.method) + tok_sp() + r.target + tok_sp() + version_bytes(
            r.version,
        )).len(),
    ensures
        (method_bytes(r.method) + tok_sp() + r.target + tok_sp() + version_bytes(r.version))[i]
            != 10,
{
    let m = method_bytes(r.method);
    let t = r.target;
    let v = version_bytes(r.version);
    let sl = m + tok_sp() + t + tok_sp() + v;
    if i < m.len() {
        assert(sl[i] == m[i]);
        lemma_method_bytes_printable(r.method, i);
    } else if i < m.len() + 1 {
        assert(sl[i] == 32);
    } else if i < m.len() + 1 + t.len() {
        assert(sl[i] == t[i - m.len() - 1]);
        assert(!is_ascii_ws(t[i - m.len() - 1]));
    } else if i < m.len() + 2 + t.len() {
        assert(sl[i] == 32);
    } else {
        assert(sl[i] == v[i - m.len() - t.len() - 2]);
        lemma_version_bytes_printable(r.version, i - m.len() - t.len() - 2);
    }
}

/// Method tokens hold no whitespace.
proof fn lemma_method_bytes_printable(m: HttpMethod, i: int)
    requires
        0 <= i < method_bytes(m).len(),
    ensures
        !is_ascii_ws(method_bytes(m)[i]),
        method_bytes(m)[i] != 10,
{
    match m {
        HttpMethod::Get => {
            assert(method_bytes(m) == tok_get());
            if i == 0 {
                assert(tok_get()[0] == 71);
            } else if i == 1 {
                assert(tok_get()[1] == 69);
            } else {
                assert(tok_get()[2] == 84);
            }
        },
        HttpMethod::Post => {
            assert(method_bytes(m) == tok_post());
            if i == 0 {
                assert(tok_post()[0] == 80);
            } else if i == 1 {
                assert(tok_post()[1] == 79);
            } else if i == 2 {
                assert(tok_post()[2] == 83);
            } else {
                assert(tok_post()[3] == 84);
            }
        },
    }
}

/// The version token holds no whitespace.
proof fn lemma_version_bytes_printable(v: HttpVersion, i: int)
    requires
        0 <= i < version_bytes(v).len(),
    ensures
        !is_ascii_ws(version_bytes(v)[i]),
        version_bytes(v)[i] != 10,
{
    assert(version_bytes(v) == tok_http11());
    if i == 0 {
        assert(tok_http11()[0] == 72);
    } else if i == 1 {
        assert(tok_http11()[1] == 84);
    } else if i == 2 {
        assert(tok_http11()[2] == 84);
    } else if i == 3 {
        assert(tok_http11()[3] == 80);
    } else if i == 4 {
        assert(tok_http11()[4] == 47);
    } else if i == 5 {
        assert(tok_http11()[5] == 49);
    } else if i == 6 {
        assert(tok_http11()[6] == 46);
    } else {
        assert(tok_http11()[7] == 49);
    }
}

} // verus!
