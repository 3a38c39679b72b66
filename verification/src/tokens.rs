//! The byte-string literals of the wire format: each appears as a spec-level
//! sequence and as an executable constructor that builds the same bytes.

use vstd::prelude::*;

verus! {

/// `"GET"`
pub open spec fn tok_get() -> Seq<u8> {
    seq![71u8, 69u8, 84u8]
}

pub fn tok_get_vec() -> (v: Vec<u8>)
    ensures
        v@ == tok_get(),
{
    let a: [u8; 3] = [71u8, 69u8, 84u8];
    let v = vstd::slice::slice_to_vec(a.as_slice());
    proof {
        assert(v@ =~= tok_get());
    }
    v
}

/// `"POST"`
pub open spec fn tok_post() -> Seq<u8> {
    seq![80u8, 79u8, 83u8, 84u8]
}

pub fn tok_post_vec() -> (v: Vec<u8>)
    ensures
        v@ == tok_post(),
{
    let a: [u8; 4] = [80u8, 79u8, 83u8, 84u8];
    let v = vstd::slice::slice_to_vec(a.as_slice());
    proof {
        assert(v@ =~= tok_post());
    }
    v
}

/// `"HTTP/1.1"`
pub open spec fn tok_http11() -> Seq<u8> {
    seq![72u8, 84u8, 84u8, 80u8, 47u8, 49u8, 46u8, 49u8]
}

pub fn tok_http11_vec() -> (v: Vec<u8>)
    ensures
        v@ == tok_http11(),
{
    let a: [u8; 8] = [72u8, 84u8, 84u8, 80u8, 47u8, 49u8, 46u8, 49u8];
    let v = vstd::slice::slice_to_vec(a.as_slice());
    proof {
        assert(v@ =~= tok_http11());
    }
    v
}

/// `"gzip"`
pub open spec fn tok_gzip() -> Seq<u8> {
    seq![103u8, 122u8, 105u8, 112u8]
}

pub fn tok_gzip_vec() -> (v: Vec<u8>)
    ensures
        v@ == tok_gzip(),
{
    let a: [u8; 4] = [103u8, 122u8, 105u8, 112u8];
    let v = vstd::slice::slice_to_vec(a.as_slice());
    proof {
        assert(v@ =~= tok_gzip());
    }
    v
}

/// `", "`
pub open spec fn tok_comma_sp() -> Seq<u8> {
    seq![44u8, 32u8]
}

pub fn tok_comma_sp_vec() -> (v: Vec<u8>)
    ensures
        v@ == tok_comma_sp(),
{
    let a: [u8; 2] = [44u8, 32u8];
    let v = vstd::slice::slice_to_vec(a.as_slice());
    proof {
        assert(v@ =~= tok_comma_sp());
    }
    v
}

/// `": "`
pub open spec fn tok_colon_sp() -> Seq<u8> {
    seq![58u8, 32u8]
}

pub fn tok_colon_sp_vec() -> (v: Vec<u8>)
    ensures
        v@ == tok_colon_sp(),
{
    let a: [u8; 2] = [58u8, 32u8];
    let v = vstd::slice::slice_to_vec(a.as_slice());
    proof {
        assert(v@ =~= tok_colon_sp());
    }
    v
}

/// `"\r\n"`
pub open spec fn tok_crlf() -> Seq<u8> {
    seq![13u8, 10u8]
}

pub fn tok_crlf_vec() -> (v: Vec<u8>)
    ensures
        v@ == tok_crlf(),
{
    let a: [u8; 2] = [13u8, 10u8];
    let v = vstd::slice::slice_to_vec(a.as_slice());
    proof {
        assert(v@ =~= tok_crlf());
    }
    v
}

/// `" "`
pub open spec fn tok_sp() -> Seq<u8> {
    seq![32u8]
}

pub fn tok_sp_vec() -> (v: Vec<u8>)
    ensures
        v@ == tok_sp(),
{
    let a: [u8; 1] = [32u8];
    let v = vstd::slice::slice_to_vec(a.as_slice());
    proof {
        assert(v@ =~= tok_sp());
    }
    v
}

/// `"Content-Length"`
pub open spec fn tok_content_length() -> Seq<u8> {
    seq![67u8, 111u8, 110u8, 116u8, 101u8, 110u8, 116u8, 45u8, 76u8, 101u8, 110u8, 103u8, 116u8, 104u8]
}

pub fn tok_content_length_vec() -> (v: Vec<u8>)
    ensures
        v@ == tok_content_length(),
{
    let a: [u8; 14] = [67u8, 111u8, 110u8, 116u8, 101u8, 110u8, 116u8, 45u8, 76u8, 101u8, 110u8, 103u8, 116u8, 104u8];
    let v = vstd::slice::slice_to_vec(a.as_slice());
    proof {
        assert(v@ =~= tok_content_length());
    }
    v
}

/// `"Content-Type"`
pub open spec fn tok_content_type() -> Seq<u8> {
    seq![67u8, 111u8, 110u8, 116u8, 101u8, 110u8, 116u8, 45u8, 84u8, 121u8, 112u8, 101u8]
}

pub fn tok_content_type_vec() -> (v: Vec<u8>)
    ensures
        v@ == tok_content_type(),
{
    let a: [u8; 12] = [67u8, 111u8, 110u8, 116u8, 101u8, 110u8, 116u8, 45u8, 84u8, 121u8, 112u8, 101u8];
    let v = vstd::slice::slice_to_vec(a.as_slice());
    proof {
        assert(v@ =~= tok_content_type());
    }
    v
}

/// `"Content-Encoding"`
pub open spec fn tok_content_encoding() -> Seq<u8> {
    seq![67u8, 111u8, 110u8, 116u8, 101u8, 110u8, 116u8, 45u8, 69u8, 110u8, 99u8, 111u8, 100u8, 105u8, 110u8, 103u8]
}

pub fn tok_content_encoding_vec() -> (v: Vec<u8>)
    ensures
        v@ == tok_content_encoding(),
{
    let a: [u8; 16] = [67u8, 111u8, 110u8, 116u8, 101u8, 110u8, 116u8, 45u8, 69u8, 110u8, 99u8, 111u8, 100u8, 105u8, 110u8, 103u8];
    let v = vstd::slice::slice_to_vec(a.as_slice());
    proof {
        assert(v@ =~= tok_content_encoding());
    }
    v
}

/// `"Accept-Encoding"`
pub open spec fn tok_accept_encoding() -> Seq<u8> {
    seq![65u8, 99u8, 99u8, 101u8, 112u8, 116u8, 45u8, 69u8, 110u8, 99u8, 111u8, 100u8, 105u8, 110u8, 103u8]
}

pub fn tok_accept_encoding_vec() -> (v: Vec<u8>)
    ensures
        v@ == tok_accept_encoding(),
{
    let a: [u8; 15] = [65u8, 99u8, 99u8, 101u8, 112u8, 116u8, 45u8, 69u8, 110u8, 99u8, 111u8, 100u8, 105u8, 110u8, 103u8];
    let v = vstd::slice::slice_to_vec(a.as_slice());
    proof {
        assert(v@ =~= tok_accept_encoding());
    }
    v
}

/// `"User-Agent"`
pub open spec fn tok_user_agent() -> Seq<u8> {
    seq![85u8, 115u8, 101u8, 114u8, 45u8, 65u8, 103u8, 101u8, 110u8, 116u8]
}

pub fn tok_user_agent_vec() -> (v: Vec<u8>)
    ensures
        v@ == tok_user_agent(),
{
    let a: [u8; 10] = [85u8, 115u8, 101u8, 114u8, 45u8, 65u8, 103u8, 101u8, 110u8, 116u8];
    let v = vstd::slice::slice_to_vec(a.as_slice());
    proof {
        assert(v@ =~= tok_user_agent());
    }
    v
}

/// `"text/plain"`
pub open spec fn tok_text_plain() -> Seq<u8> {
    seq![116u8, 101u8, 120u8, 116u8, 47u8, 112u8, 108u8, 97u8, 105u8, 110u8]
}

pub fn tok_text_plain_vec() -> (v: Vec<u8>)
    ensures
        v@ == tok_text_plain(),
{
    let a: [u8; 10] = [116u8, 101u8, 120u8, 116u8, 47u8, 112u8, 108u8, 97u8, 105u8, 110u8];
    let v = vstd::slice::slice_to_vec(a.as_slice());
    proof {
        assert(v@ =~= tok_text_plain());
    }
    v
}

/// `"application/octet-stream"`
pub open spec fn tok_octet_stream() -> Seq<u8> {
    seq![97u8, 112u8, 112u8, 108u8, 105u8, 99u8, 97u8, 116u8, 105u8, 111u8, 110u8, 47u8, 111u8, 99u8, 116u8, 101u8, 116u8, 45u8, 115u8, 116u8, 114u8, 101u8, 97u8, 109u8]
}

pub fn tok_octet_stream_vec() -> (v: Vec<u8>)
    ensures
        v@ == tok_octet_stream(),
{
    let a: [u8; 24] = [97u8, 112u8, 112u8, 108u8, 105u8, 99u8, 97u8, 116u8, 105u8, 111u8, 110u8, 47u8, 111u8, 99u8, 116u8, 101u8, 116u8, 45u8, 115u8, 116u8, 114u8, 101u8, 97u8, 109u8];
    let v = vstd::slice::slice_to_vec(a.as_slice());
    proof {
        assert(v@ =~= tok_octet_stream());
    }
    v
}

/// `"200 OK"`
pub open spec fn tok_status_ok() -> Seq<u8> {
    seq![50u8, 48u8, 48u8, 32u8, 79u8, 75u8]
}

pub fn tok_status_ok_vec() -> (v: Vec<u8>)
    ensures
        v@ == tok_status_ok(),
{
    let a: [u8; 6] = [50u8, 48u8, 48u8, 32u8, 79u8, 75u8];
    let v = vstd::slice::slice_to_vec(a.as_slice());
    proof {
        assert(v@ =~= tok_status_ok());
    }
    v
}

/// `"201 Created"`
pub open spec fn tok_status_created() -> Seq<u8> {
    seq![50u8, 48u8, 49u8, 32u8, 67u8, 114u8, 101u8, 97u8, 116u8, 101u8, 100u8]
}

pub fn tok_status_created_vec() -> (v: Vec<u8>)
    ensures
        v@ == tok_status_created(),
{
    let a: [u8; 11] = [50u8, 48u8, 49u8, 32u8, 67u8, 114u8, 101u8, 97u8, 116u8, 101u8, 100u8];
    let v = vstd::slice::slice_to_vec(a.as_slice());
    proof {
        assert(v@ =~= tok_status_created());
    }
    v
}

/// `"404 Not Found"`
pub open spec fn tok_status_not_found() -> Seq<u8> {
    seq![52u8, 48u8, 52u8, 32u8, 78u8, 111u8, 116u8, 32u8, 70u8, 111u8, 117u8, 110u8, 100u8]
}

pub fn tok_status_not_found_vec() -> (v: Vec<u8>)
    ensures
        v@ == tok_status_not_found(),
{
    let a: [u8; 13] = [52u8, 48u8, 52u8, 32u8, 78u8, 111u8, 116u8, 32u8, 70u8, 111u8, 117u8, 110u8, 100u8];
    let v = vstd::slice::slice_to_vec(a.as_slice());
    proof {
        assert(v@ =~= tok_status_not_found());
    }
    v
}

/// `"500 Server Error"`
pub open spec fn tok_status_server_error() -> Seq<u8> {
    seq![53u8, 48u8, 48u8, 32u8, 83u8, 101u8, 114u8, 118u8, 101u8, 114u8, 32u8, 69u8, 114u8, 114u8, 111u8, 114u8]
}

pub fn tok_status_server_error_vec() -> (v: Vec<u8>)
    ensures
        v@ == tok_status_server_error(),
{
    let a: [u8; 16] = [53u8, 48u8, 48u8, 32u8, 83u8, 101u8, 114u8, 118u8, 101u8, 114u8, 32u8, 69u8, 114u8, 114u8, 111u8, 114u8];
    let v = vstd::slice::slice_to_vec(a.as_slice());
    proof {
        assert(v@ =~= tok_status_server_error());
    }
    v
}

/// `"echo"`
pub open spec fn tok_echo() -> Seq<u8> {
    seq![101u8, 99u8, 104u8, 111u8]
}

pub fn tok_echo_vec() -> (v: Vec<u8>)
    ensures
        v@ == tok_echo(),
{
    let a: [u8; 4] = [101u8, 99u8, 104u8, 111u8];
    let v = vstd::slice::slice_to_vec(a.as_slice());
    proof {
        assert(v@ =~= tok_echo());
    }
    v
}

/// `"files"`
pub open spec fn tok_files() -> Seq<u8> {
    seq![102u8, 105u8, 108u8, 101u8, 115u8]
}

pub fn tok_files_vec() -> (v: Vec<u8>)
    ensures
        v@ == tok_files(),
{
    let a: [u8; 5] = [102u8, 105u8, 108u8, 101u8, 115u8];
    let v = vstd::slice::slice_to_vec(a.as_slice());
    proof {
        assert(v@ =~= tok_files());
    }
    v
}

/// `"user-agent"`
pub open spec fn tok_user_agent_seg() -> Seq<u8> {
    seq![117u8, 115u8, 101u8, 114u8, 45u8, 97u8, 103u8, 101u8, 110u8, 116u8]
}

pub fn tok_user_agent_seg_vec() -> (v: Vec<u8>)
    ensures
        v@ == tok_user_agent_seg(),
{
    let a: [u8; 10] = [117u8, 115u8, 101u8, 114u8, 45u8, 97u8, 103u8, 101u8, 110u8, 116u8];
    let v = vstd::slice::slice_to_vec(a.as_slice());
    proof {
        assert(v@ =~= tok_user_agent_seg());
    }
    v
}

/// `"Invalid Method: "`
pub open spec fn tok_invalid_method() -> Seq<u8> {
    seq![73u8, 110u8, 118u8, 97u8, 108u8, 105u8, 100u8, 32u8, 77u8, 101u8, 116u8, 104u8, 111u8, 100u8, 58u8, 32u8]
}

pub fn tok_invalid_method_vec() -> (v: Vec<u8>)
    ensures
        v@ == tok_invalid_method(),
{
    let a: [u8; 16] = [73u8, 110u8, 118u8, 97u8, 108u8, 105u8, 100u8, 32u8, 77u8, 101u8, 116u8, 104u8, 111u8, 100u8, 58u8, 32u8];
    let v = vstd::slice::slice_to_vec(a.as_slice());
    proof {
        assert(v@ =~= tok_invalid_method());
    }
    v
}

/// `"Invalid Version: "`
pub open spec fn tok_invalid_version() -> Seq<u8> {
    seq![73u8, 110u8, 118u8, 97u8, 108u8, 105u8, 100u8, 32u8, 86u8, 101u8, 114u8, 115u8, 105u8, 111u8, 110u8, 58u8, 32u8]
}

pub fn tok_invalid_version_vec() -> (v: Vec<u8>)
    ensures
        v@ == tok_invalid_version(),
{
    let a: [u8; 17] = [73u8, 110u8, 118u8, 97u8, 108u8, 105u8, 100u8, 32u8, 86u8, 101u8, 114u8, 115u8, 105u8, 111u8, 110u8, 58u8, 32u8];
    let v = vstd::slice::slice_to_vec(a.as_slice());
    proof {
        assert(v@ =~= tok_invalid_version());
    }
    v
}

/// `"Invalid Status Line: "`
pub open spec fn tok_invalid_status_line() -> Seq<u8> {
    seq![73u8, 110u8, 118u8, 97u8, 108u8, 105u8, 100u8, 32u8, 83u8, 116u8, 97u8, 116u8, 117u8, 115u8, 32u8, 76u8, 105u8, 110u8, 101u8, 58u8, 32u8]
}

pub fn tok_invalid_status_line_vec() -> (v: Vec<u8>)
    ensures
        v@ == tok_invalid_status_line(),
{
    let a: [u8; 21] = [73u8, 110u8, 118u8, 97u8, 108u8, 105u8, 100u8, 32u8, 83u8, 116u8, 97u8, 116u8, 117u8, 115u8, 32u8, 76u8, 105u8, 110u8, 101u8, 58u8, 32u8];
    let v = vstd::slice::slice_to_vec(a.as_slice());
    proof {
        assert(v@ =~= tok_invalid_status_line());
    }
    v
}

} // verus!
