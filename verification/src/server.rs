//! The per-connection pipeline, strictly sequential: decode one request,
//! route it, negotiate the response, encode it. A protocol-level parse error
//! terminates the exchange with the raw diagnostic text instead of a
//! well-formed response — a deliberate simplification, not an improvement.

use vstd::prelude::*;

use crate::codec::{encode_response, parse_request, spec_encode_response, spec_parse_request};
use crate::http::exception_message;
use crate::router::{dir_of, spec_handle, Config, MemStorage};

verus! {

/// What one connection writes back, and the storage it leaves behind: the
/// encoded response for a well-formed request, the diagnostic text for a
/// malformed one (which leaves storage untouched).
pub open spec fn spec_connection(
    input: Seq<u8>,
    dir: Seq<u8>,
    files: Seq<(Seq<u8>, Seq<u8>)>,
) -> (Seq<u8>, Seq<(Seq<u8>, Seq<u8>)>) {
    match spec_parse_request(input) {
        Err(e) => (exception_message(e), files),
        Ok(req) => {
            let hr = spec_handle(req, dir, files);
            (spec_encode_response(hr.0), hr.1)
        },
    }
}

/// Serves one connection from its raw request bytes: decode, route against
/// the storage, negotiate, encode. One request, one payload, then the
/// caller closes the connection.
pub fn handle_connection(input: &Vec<u8>, config: Config, storage: &mut MemStorage) -> (out: Vec<
    u8,
>)
    requires
        old(storage).wf(),
    ensures
        ({
            let c = spec_connection(input@, dir_of(config), old(storage)@);
            &&& out@ == c.0
            &&& final(storage)@ == c.1
            &&& final(storage).wf()
        }),
{
    match parse_request(input) {
        Err(e) => e.message(),
        Ok(req) => {
            let response = crate::router::handle_request(req, config, storage);
            encode_response(&response)
        },
    }
}

} // verus!
