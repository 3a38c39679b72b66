//! Content negotiation: reading a client's `Accept-Encoding` list,
//! normalizing it to the recognized tokens, and applying the gzip transform
//! to a response body. The compression itself is flate2's; everything around
//! it is verified against the named result [`gzip_of`].

use vstd::prelude::*;

use crate::bytes::{
    dec_digits, first_index_of, is_ascii_ws, lemma_first_index_of_unique, lemma_trim_left_is_skip,
    lemma_trim_right_is_take, subvec, trim, trim_bytes, usize_to_dec, vec_u8_eq,
};
use crate::http::{
    encoding_bytes, ContentEncoding, Request, RequestView, Response, ResponseView,
};
use crate::table::{
    assoc_find, assoc_remove, assoc_upsert, lemma_find_upsert_same,
};
use crate::tokens::{
    tok_accept_encoding, tok_accept_encoding_vec, tok_comma_sp, tok_content_encoding,
    tok_content_encoding_vec, tok_content_length, tok_content_length_vec, tok_gzip, tok_gzip_vec,
};

verus! {

/// The comma-separated tokens of `s`; an input without commas is one token,
/// so the empty input is one empty token.
pub open spec fn split_commas(s: Seq<u8>) -> Seq<Seq<u8>>
    decreases s.len(),
{
    let i = first_index_of(s, 44);
    if !(0 <= i && i < s.len()) {
        seq![s]
    } else {
        seq![s.take(i)] + split_commas(s.skip(i + 1))
    }
}

/// A single client-supplied encoding token, trimmed; unknown tokens are
/// dropped, not errors.
pub open spec fn spec_parse_encoding(t: Seq<u8>) -> Option<ContentEncoding> {
    if trim(t) == tok_gzip() {
        Some(ContentEncoding::Gzip)
    } else {
        None
    }
}

/// The recognized encodings among `toks`, in client order.
pub open spec fn spec_encodings_of(toks: Seq<Seq<u8>>) -> Seq<ContentEncoding>
    decreases toks.len(),
{
    if toks.len() == 0 {
        Seq::empty()
    } else {
        match spec_parse_encoding(toks[0]) {
            Some(e) => seq![e] + spec_encodings_of(toks.skip(1)),
            None => spec_encodings_of(toks.skip(1)),
        }
    }
}

/// The recognized encodings in a raw `Accept-Encoding` value.
pub open spec fn spec_encodings(s: Seq<u8>) -> Seq<ContentEncoding> {
    spec_encodings_of(split_commas(s))
}

/// The canonical comma-joined form of a recognized-encoding list.
pub open spec fn spec_join_encodings(es: Seq<ContentEncoding>) -> Seq<u8>
    decreases es.len(),
{
    if es.len() == 0 {
        Seq::empty()
    } else if es.len() == 1 {
        encoding_bytes(es[0])
    } else {
        encoding_bytes(es[0]) + tok_comma_sp() + spec_join_encodings(es.skip(1))
    }
}

/// Header normalization: a missing `Accept-Encoding` stays missing; one with
/// no recognized token is removed; otherwise its value is rewritten to the
/// canonical comma-joined list of the recognized tokens.
pub open spec fn normalize_headers(hs: Seq<(Seq<u8>, Seq<u8>)>) -> Seq<(Seq<u8>, Seq<u8>)> {
    match assoc_find(hs, tok_accept_encoding()) {
        None => hs,
        Some(v) => {
            let es = spec_encodings(v);
            if es.len() == 0 {
                assoc_remove(hs, tok_accept_encoding())
            } else {
                assoc_upsert(hs, tok_accept_encoding(), spec_join_encodings(es))
            }
        },
    }
}

/// A request after header validation.
pub open spec fn normalize_request(r: RequestView) -> RequestView {
    RequestView { headers: normalize_headers(r.headers), ..r }
}

/// What the negotiator relies on: if `Accept-Encoding` survives
/// normalization, it parses to at least one recognized encoding.
pub open spec fn ae_normalized(hs: Seq<(Seq<u8>, Seq<u8>)>) -> bool {
    match assoc_find(hs, tok_accept_encoding()) {
        Some(v) => spec_encodings(v).len() > 0,
        None => true,
    }
}

impl ContentEncoding {
    /// Reads a comma-separated client list; `None` when no token is
    /// recognized, otherwise the recognized tokens in client order.
    pub fn parse_content_encoding(raw_content_encoding: &Vec<u8>) -> (r: Option<
        Vec<ContentEncoding>,
    >)
        ensures
            match r {
                Some(v) => v@ == spec_encodings(raw_content_encoding@) && v@.len() > 0,
                None => spec_encodings(raw_content_encoding@).len() == 0,
            },
    {
        let raw = raw_content_encoding;
        let mut found: Vec<ContentEncoding> = Vec::new();
        let mut pos: usize = 0;
        proof {
            assert(raw@.skip(0) =~= raw@);
            assert(found@ + spec_encodings(raw@) =~= spec_encodings(raw@));
        }
        loop
            invariant_except_break
                pos <= raw@.len(),
                spec_encodings(raw@) == found@ + spec_encodings_of(
                    split_commas(raw@.skip(pos as int)),
                ),
            ensures
                spec_encodings(raw@) == found@,
            decreases raw@.len() - pos,
        {
            let j = crate::bytes::find_byte(raw, pos, 44);
            let tok = subvec(raw, pos, j);
            let tok_trim = trim_bytes(&tok);
            let ghost suffix = raw@.skip(pos as int);
            let ghost next = if j < raw@.len() {
                split_commas(raw@.skip(j + 1))
            } else {
                Seq::<Seq<u8>>::empty()
            };
            proof {
                assert forall|t: int| 0 <= t < j - pos implies suffix[t] != 44 by {
                    assert(suffix[t] == raw@[pos + t]);
                }
                if j < raw@.len() {
                    assert(suffix[j - pos] == raw@[j as int]);
                    lemma_first_index_of_unique(suffix, 44, j - pos);
                    assert(suffix.take(j - pos) =~= raw@.subrange(pos as int, j as int));
                    assert(suffix.skip(j - pos + 1) =~= raw@.skip(j + 1));
                    assert(split_commas(suffix) == seq![tok@] + split_commas(raw@.skip(j + 1)));
                    assert((seq![tok@] + split_commas(raw@.skip(j + 1))).skip(1) =~= next);
                } else {
                    lemma_first_index_of_unique(suffix, 44, suffix.len() as int);
                    assert(suffix =~= raw@.subrange(pos as int, j as int));
                    assert(split_commas(suffix) == seq![tok@]);
                    assert(seq![tok@].skip(1) =~= next);
                }
                assert(split_commas(suffix)[0] == tok@);
                assert(split_commas(suffix).skip(1) == next);
            }
            let ghost found0 = found@;
            let is_gzip = vec_u8_eq(&tok_trim, &tok_gzip_vec());
            if is_gzip {
                found.push(ContentEncoding::Gzip);
            }
            proof {
                let toks = split_commas(suffix);
                if is_gzip {
                    assert(spec_parse_encoding(tok@) == Some(ContentEncoding::Gzip));
                    assert(spec_encodings_of(toks) == seq![ContentEncoding::Gzip]
                        + spec_encodings_of(next));
                    assert(found@ =~= found0 + seq![ContentEncoding::Gzip]);
                    assert(found0 + (seq![ContentEncoding::Gzip] + spec_encodings_of(next))
                        =~= found@ + spec_encodings_of(next));
                } else {
                    assert(spec_parse_encoding(tok@) is None);
                    assert(spec_encodings_of(toks) == spec_encodings_of(next));
                }
                assert(spec_encodings(raw@) == found@ + spec_encodings_of(next));
            }
            if j == raw.len() {
                proof {
                    assert(spec_encodings_of(Seq::<Seq<u8>>::empty()) =~= Seq::<
                        ContentEncoding,
                    >::empty());
                    assert(found@ + Seq::<ContentEncoding>::empty() =~= found@);
                }
                break ;
            }
            pos = j + 1;
        }
        if found.len() == 0 {
            None
        } else {
            Some(found)
        }
    }
}

/// What is still to be appended when the first `i` encodings are joined: a
/// separator and the join of the rest, or nothing at the end of the list.
pub open spec fn spec_join_rest(es: Seq<ContentEncoding>, i: int) -> Seq<u8> {
    if i < es.len() {
        tok_comma_sp() + spec_join_encodings(es.skip(i))
    } else {
        Seq::empty()
    }
}

/// The canonical comma-joined bytes of a recognized-encoding list.
pub fn join_encodings(es: &Vec<ContentEncoding>) -> (r: Vec<u8>)
    ensures
        r@ == spec_join_encodings(es@),
{
    if es.len() == 0 {
        let r: Vec<u8> = Vec::new();
        proof {
            assert(r@ =~= spec_join_encodings(es@));
        }
        return r;
    }
    let mut r = es[0].to_bytes();
    let mut i: usize = 1;
    proof {
        if es@.len() == 1 {
            assert(r@ + spec_join_rest(es@, 1) =~= spec_join_encodings(es@));
        } else {
            assert(es@.skip(1)[0] == es@[1]);
            assert(r@ + spec_join_rest(es@, 1) =~= spec_join_encodings(es@));
        }
    }
    while i < es.len()
        invariant
            1 <= i <= es@.len(),
            spec_join_encodings(es@) == r@ + spec_join_rest(es@, i as int),
        decreases es.len() - i,
    {
        let sep = crate::tokens::tok_comma_sp_vec();
        crate::bytes::push_all(&mut r, &sep);
        let eb = es[i].to_bytes();
        crate::bytes::push_all(&mut r, &eb);
        proof {
            let suffix = es@.skip(i as int);
            assert(suffix[0] == es@[i as int]);
            assert(suffix.skip(1) =~= es@.skip(i + 1));
            if suffix.len() == 1 {
                assert(spec_join_encodings(suffix) == encoding_bytes(es@[i as int]));
                assert(r@ + spec_join_rest(es@, i + 1) =~= spec_join_encodings(es@));
            } else {
                assert(spec_join_encodings(suffix) == encoding_bytes(es@[i as int])
                    + tok_comma_sp() + spec_join_encodings(es@.skip(i + 1)));
                assert(r@ + spec_join_rest(es@, i + 1) =~= spec_join_encodings(es@));
            }
        }
        i = i + 1;
    }
    proof {
        assert(r@ + spec_join_rest(es@, es@.len() as int) =~= r@);
    }
    r
}

/// The name for what flate2's gzip encoder produces from a byte sequence.
pub uninterp spec fn gzip_of(bytes: Seq<u8>) -> Seq<u8>;

/// Relies on flate2's `GzEncoder` at the default compression level, writing
/// into a `Vec`, which cannot fail. flate2 fixes the stream header (zero
/// mtime, operating-system byte 255, no extra fields), so for a fixed flate2
/// version the output depends on the input bytes alone: it is [`gzip_of`].
#[verifier::external_body]
fn gzip_compress(input: &Vec<u8>) -> (r: Vec<u8>)
    ensures
        r@ == gzip_of(input@),
{
    let mut encoder =
        flate2::write::GzEncoder::new(Vec::new(), flate2::Compression::default());
    let _ = std::io::Write::write_all(&mut encoder, input.as_slice());
    encoder.finish().unwrap()
}

/// A response after the gzip transform: the body is replaced by its gzip
/// form and `Content-Length` is overwritten with the compressed length.
pub open spec fn spec_compress(r: ResponseView) -> ResponseView {
    ResponseView {
        headers: assoc_upsert(
            r.headers,
            tok_content_length(),
            dec_digits(gzip_of(r.body).len() as int),
        ),
        body: gzip_of(r.body),
        ..r
    }
}

/// A response after negotiation against a normalized request: absent
/// `Accept-Encoding` passes the response through; otherwise the body is
/// gzip-compressed when gzip is among the recognized encodings, and
/// `Content-Encoding` records the encoding that was applied: `gzip`.
pub open spec fn spec_negotiate(resp: ResponseView, req: RequestView) -> ResponseView {
    match assoc_find(req.headers, tok_accept_encoding()) {
        None => resp,
        Some(v) => {
            let es = spec_encodings(v);
            let r1 = if es.contains(ContentEncoding::Gzip) {
                spec_compress(resp)
            } else {
                resp
            };
            ResponseView {
                headers: assoc_upsert(r1.headers, tok_content_encoding(), tok_gzip()),
                ..r1
            }
        },
    }
}

impl Response {
    /// Applies the gzip transform when the recognized-encoding list asks for
    /// it; otherwise leaves the response untouched.
    pub fn compress_body(&mut self, content_encoding: Vec<ContentEncoding>)
        requires
            old(self).wf(),
        ensures
            content_encoding@.contains(ContentEncoding::Gzip) ==> final(self)@ == spec_compress(
                old(self)@,
            ),
            !content_encoding@.contains(ContentEncoding::Gzip) ==> final(self)@ == old(self)@,
            final(self).wf(),
    {
        if content_encoding.len() > 0 {
            proof {
                assert(content_encoding@[0] == ContentEncoding::Gzip);
                assert(content_encoding@.contains(ContentEncoding::Gzip));
            }
            let compressed = gzip_compress(&self.body);
            self.body = compressed;
            let n = self.body.len();
            self.add_header(tok_content_length_vec(), usize_to_dec(n));
        } else {
            proof {
                assert(!content_encoding@.contains(ContentEncoding::Gzip));
            }
        }
    }

    /// Negotiation: reads the request's normalized `Accept-Encoding`,
    /// compresses the body when gzip was asked for, and records the applied
    /// encoding as `Content-Encoding: gzip`. The request must be
    /// header-normalized, as [`Request::validate_headers`] leaves it.
    pub fn integrate_request(&mut self, request: &Request)
        requires
            old(self).wf(),
            ae_normalized(request@.headers),
        ensures
            final(self)@ == spec_negotiate(old(self)@, request@),
            final(self).wf(),
    {
        match request.headers.get(&tok_accept_encoding_vec()) {
            None => {},
            Some(v) => {
                match ContentEncoding::parse_content_encoding(&v) {
                    Some(list) => {
                        proof {
                            assert(list@[0] == ContentEncoding::Gzip);
                            assert(list@.contains(ContentEncoding::Gzip));
                        }
                        self.compress_body(list);
                    },
                    None => {
                        proof {
                            assert(false);
                        }
                    },
                }
                self.add_header(tok_content_encoding_vec(), tok_gzip_vec());
            },
        }
    }
}

impl Request {
    /// Header validation: reparses `Accept-Encoding` and either removes it
    /// (no recognized token) or rewrites it to the canonical comma-joined
    /// list of the recognized tokens.
    pub fn validate_headers(&mut self)
        requires
            old(self).wf(),
        ensures
            final(self)@ == normalize_request(old(self)@),
            final(self).wf(),
    {
        let name = tok_accept_encoding_vec();
        match self.headers.get(&name) {
            None => {},
            Some(v) => {
                match ContentEncoding::parse_content_encoding(&v) {
                    Some(list) => {
                        let joined = join_encodings(&list);
                        self.headers.set(name, joined);
                    },
                    None => {
                        self.headers.remove(&name);
                    },
                }
            },
        }
    }
}

/// After normalization, a surviving `Accept-Encoding` value parses to at
/// least one recognized encoding: what [`Response::integrate_request`] needs.
pub proof fn lemma_normalize_gives_ae_normalized(hs: Seq<(Seq<u8>, Seq<u8>)>)
    ensures
        ae_normalized(normalize_headers(hs)),
{
    match assoc_find(hs, tok_accept_encoding()) {
        None => {},
        Some(v) => {
            let es = spec_encodings(v);
            if es.len() == 0 {
                crate::table::lemma_find_remove_same(hs, tok_accept_encoding());
            } else {
                lemma_find_upsert_same(hs, tok_accept_encoding(), spec_join_encodings(es));
                lemma_encodings_of_join(es, Seq::<u8>::empty());
                assert(Seq::<u8>::empty() + spec_join_encodings(es) =~= spec_join_encodings(es));
            }
        },
    }
}

/// Parsing the canonical join of a non-empty recognized-encoding list, with
/// any all-whitespace prefix, gives the list back.
pub proof fn lemma_encodings_of_join(es: Seq<ContentEncoding>, pad: Seq<u8>)
    requires
        es.len() > 0,
        forall|j: int| 0 <= j < pad.len() ==> is_ascii_ws(#[trigger] pad[j]),
    ensures
        spec_encodings(pad + spec_join_encodings(es)) == es,
    decreases es.len(),
{
    let s = pad + spec_join_encodings(es);
    let g = tok_gzip();
    assert(es[0] is Gzip);
    assert(encoding_bytes(es[0]) == g);
    if es.len() == 1 {
        assert(s =~= pad + g);
        assert forall|t: int| 0 <= t < s.len() implies s[t] != 44 by {
            if t < pad.len() {
                assert(is_ascii_ws(s[t]));
            } else {
                assert(s[t] == g[t - pad.len()]);
            }
        }
        lemma_first_index_of_unique(s, 44, s.len() as int);
        assert(split_commas(s) == seq![s]);
        lemma_trim_pad_gzip(pad);
        assert(spec_parse_encoding(s) == Some(ContentEncoding::Gzip));
        assert(seq![s].skip(1) =~= Seq::<Seq<u8>>::empty());
        assert(spec_encodings_of(Seq::<Seq<u8>>::empty()) =~= Seq::<ContentEncoding>::empty());
        assert(spec_encodings_of(seq![s]) == seq![ContentEncoding::Gzip] + spec_encodings_of(
            Seq::<Seq<u8>>::empty(),
        ));
        assert(spec_encodings_of(seq![s]) =~= seq![ContentEncoding::Gzip]);
        assert(es =~= seq![ContentEncoding::Gzip]);
    } else {
        assert(s =~= pad + (g + tok_comma_sp() + spec_join_encodings(es.skip(1))));
        let cut: int = pad.len() as int + g.len() as int;
        assert(s[cut] == 44);
        assert forall|t: int| 0 <= t < cut implies s[t] != 44 by {
            if t < pad.len() {
                assert(is_ascii_ws(s[t]));
            } else {
                assert(s[t] == g[t - pad.len()]);
            }
        }
        lemma_first_index_of_unique(s, 44, cut as int);
        assert(s.take(cut as int) =~= pad + g);
        assert(split_commas(s) == seq![pad + g] + split_commas(s.skip(cut + 1)));
        lemma_trim_pad_gzip(pad);
        assert(spec_parse_encoding(pad + g) == Some(ContentEncoding::Gzip));
        assert(s.skip(cut + 1) =~= seq![32u8] + spec_join_encodings(es.skip(1)));
        assert(forall|j: int| 0 <= j < 1 ==> is_ascii_ws(#[trigger] seq![32u8][j]));
        lemma_encodings_of_join(es.skip(1), seq![32u8]);
        assert((seq![pad + g] + split_commas(s.skip(cut + 1))).skip(1) =~= split_commas(
            s.skip(cut + 1),
        ));
        assert(spec_encodings_of(split_commas(s)) == seq![ContentEncoding::Gzip]
            + spec_encodings_of(split_commas(s.skip(cut + 1))));
        assert(seq![ContentEncoding::Gzip] + es.skip(1) =~= es);
    }
}

/// Trimming whitespace plus `gzip` leaves `gzip`.
proof fn lemma_trim_pad_gzip(pad: Seq<u8>)
    requires
        forall|j: int| 0 <= j < pad.len() ==> is_ascii_ws(#[trigger] pad[j]),
    ensures
        trim(pad + tok_gzip()) == tok_gzip(),
{
    let g = tok_gzip();
    let s = pad + g;
    assert(s[pad.len() as int] == g[0]);
    assert(!is_ascii_ws(g[0]));
    assert forall|j: int| 0 <= j < pad.len() implies is_ascii_ws(s[j]) by {
        assert(s[j] == pad[j]);
    }
    lemma_trim_left_is_skip(s, pad.len() as int);
    assert(s.skip(pad.len() as int) =~= g);
    assert(!is_ascii_ws(g[g.len() - 1]));
    lemma_trim_right_is_take(g, g.len() as int);
    assert(g.take(g.len() as int) =~= g);
}

} // verus!
