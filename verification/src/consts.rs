//! The fixed byte strings of the protocol layer: method names, header
//! names, route prefixes, and the canned response texts.
use vstd::prelude::*;

verus! {

/// Copy of a fixed byte array as a vector.
pub fn lit_vec<const N: usize>(a: [u8; N]) -> (v: Vec<u8>)
    ensures
        v@ == a@,
{
    let v = vstd::slice::slice_to_vec(a.as_slice());
    proof {
        broadcast use vstd::array::axiom_spec_array_as_slice;

        assert(v@ =~= a@);
    }
    v
}

/// `"GET"`
pub open spec fn get_b() -> Seq<u8> {
    seq![0x47u8, 0x45u8, 0x54u8]
}

pub fn get_v() -> (v: Vec<u8>)
    ensures
        v@ == get_b(),
{
    let v = lit_vec([0x47, 0x45, 0x54]);
    proof {
        assert(v@ =~= get_b());
    }
    v
}

/// `"POST"`
pub open spec fn post_b() -> Seq<u8> {
    seq![0x50u8, 0x4fu8, 0x53u8, 0x54u8]
}

pub fn post_v() -> (v: Vec<u8>)
    ensures
        v@ == post_b(),
{
    let v = lit_vec([0x50, 0x4f, 0x53, 0x54]);
    proof {
        assert(v@ =~= post_b());
    }
    v
}

/// `"HTTP/1.1"`
pub open spec fn http11_b() -> Seq<u8> {
    seq![0x48u8, 0x54u8, 0x54u8, 0x50u8, 0x2fu8, 0x31u8, 0x2eu8, 0x31u8]
}

pub fn http11_v() -> (v: Vec<u8>)
    ensures
        v@ == http11_b(),
{
    let v = lit_vec([0x48, 0x54, 0x54, 0x50, 0x2f, 0x31, 0x2e, 0x31]);
    proof {
        assert(v@ =~= http11_b());
    }
    v
}

/// `"OK"`
pub open spec fn ok_reason_b() -> Seq<u8> {
    seq![0x4fu8, 0x4bu8]
}

pub fn ok_reason_v() -> (v: Vec<u8>)
    ensures
        v@ == ok_reason_b(),
{
    let v = lit_vec([0x4f, 0x4b]);
    proof {
        assert(v@ =~= ok_reason_b());
    }
    v
}

/// `"Server"`
pub open spec fn server_name_b() -> Seq<u8> {
    seq![0x53u8, 0x65u8, 0x72u8, 0x76u8, 0x65u8, 0x72u8]
}

pub fn server_name_v() -> (v: Vec<u8>)
    ensures
        v@ == server_name_b(),
{
    let v = lit_vec([0x53, 0x65, 0x72, 0x76, 0x65, 0x72]);
    proof {
        assert(v@ =~= server_name_b());
    }
    v
}

/// `"faras"`
pub open spec fn server_value_b() -> Seq<u8> {
    seq![0x66u8, 0x61u8, 0x72u8, 0x61u8, 0x73u8]
}

pub fn server_value_v() -> (v: Vec<u8>)
    ensures
        v@ == server_value_b(),
{
    let v = lit_vec([0x66, 0x61, 0x72, 0x61, 0x73]);
    proof {
        assert(v@ =~= server_value_b());
    }
    v
}

/// `"Content-Type"`
pub open spec fn content_type_b() -> Seq<u8> {
    seq![0x43u8, 0x6fu8, 0x6eu8, 0x74u8, 0x65u8, 0x6eu8, 0x74u8, 0x2du8, 0x54u8, 0x79u8, 0x70u8, 0x65u8]
}

pub fn content_type_v() -> (v: Vec<u8>)
    ensures
        v@ == content_type_b(),
{
    let v = lit_vec([0x43, 0x6f, 0x6e, 0x74, 0x65, 0x6e, 0x74, 0x2d, 0x54, 0x79, 0x70, 0x65]);
    proof {
        assert(v@ =~= content_type_b());
    }
    v
}

/// `"text/plain"`
pub open spec fn text_plain_b() -> Seq<u8> {
    seq![0x74u8, 0x65u8, 0x78u8, 0x74u8, 0x2fu8, 0x70u8, 0x6cu8, 0x61u8, 0x69u8, 0x6eu8]
}

pub fn text_plain_v() -> (v: Vec<u8>)
    ensures
        v@ == text_plain_b(),
{
    let v = lit_vec([0x74, 0x65, 0x78, 0x74, 0x2f, 0x70, 0x6c, 0x61, 0x69, 0x6e]);
    proof {
        assert(v@ =~= text_plain_b());
    }
    v
}

/// `"Content-Length"`
pub open spec fn content_length_b() -> Seq<u8> {
    seq![0x43u8, 0x6fu8, 0x6eu8, 0x74u8, 0x65u8, 0x6eu8, 0x74u8, 0x2du8, 0x4cu8, 0x65u8, 0x6eu8, 0x67u8, 0x74u8, 0x68u8]
}

pub fn content_length_v() -> (v: Vec<u8>)
    ensures
        v@ == content_length_b(),
{
    let v = lit_vec([0x43, 0x6f, 0x6e, 0x74, 0x65, 0x6e, 0x74, 0x2d, 0x4c, 0x65, 0x6e, 0x67, 0x74, 0x68]);
    proof {
        assert(v@ =~= content_length_b());
    }
    v
}

/// `"Content-Encoding"`
pub open spec fn content_encoding_b() -> Seq<u8> {
    seq![0x43u8, 0x6fu8, 0x6eu8, 0x74u8, 0x65u8, 0x6eu8, 0x74u8, 0x2du8, 0x45u8, 0x6eu8, 0x63u8, 0x6fu8, 0x64u8, 0x69u8, 0x6eu8, 0x67u8]
}

pub fn content_encoding_v() -> (v: Vec<u8>)
    ensures
        v@ == content_encoding_b(),
{
    let v = lit_vec([0x43, 0x6f, 0x6e, 0x74, 0x65, 0x6e, 0x74, 0x2d, 0x45, 0x6e, 0x63, 0x6f, 0x64, 0x69, 0x6e, 0x67]);
    proof {
        assert(v@ =~= content_encoding_b());
    }
    v
}

/// `"gzip"`
pub open spec fn gzip_b() -> Seq<u8> {
    seq![0x67u8, 0x7au8, 0x69u8, 0x70u8]
}

pub fn gzip_v() -> (v: Vec<u8>)
    ensures
        v@ == gzip_b(),
{
    let v = lit_vec([0x67, 0x7a, 0x69, 0x70]);
    proof {
        assert(v@ =~= gzip_b());
    }
    v
}

/// `"Accept-Encoding"`
pub open spec fn accept_encoding_b() -> Seq<u8> {
    seq![0x41u8, 0x63u8, 0x63u8, 0x65u8, 0x70u8, 0x74u8, 0x2du8, 0x45u8, 0x6eu8, 0x63u8, 0x6fu8, 0x64u8, 0x69u8, 0x6eu8, 0x67u8]
}

pub fn accept_encoding_v() -> (v: Vec<u8>)
    ensures
        v@ == accept_encoding_b(),
{
    let v = lit_vec([0x41, 0x63, 0x63, 0x65, 0x70, 0x74, 0x2d, 0x45, 0x6e, 0x63, 0x6f, 0x64, 0x69, 0x6e, 0x67]);
    proof {
        assert(v@ =~= accept_encoding_b());
    }
    v
}

/// `"User-Agent"`
pub open spec fn user_agent_b() -> Seq<u8> {
    seq![0x55u8, 0x73u8, 0x65u8, 0x72u8, 0x2du8, 0x41u8, 0x67u8, 0x65u8, 0x6eu8, 0x74u8]
}

pub fn user_agent_v() -> (v: Vec<u8>)
    ensures
        v@ == user_agent_b(),
{
    let v = lit_vec([0x55, 0x73, 0x65, 0x72, 0x2d, 0x41, 0x67, 0x65, 0x6e, 0x74]);
    proof {
        assert(v@ =~= user_agent_b());
    }
    v
}

/// `"Hello, World!"`
pub open spec fn hello_b() -> Seq<u8> {
    seq![0x48u8, 0x65u8, 0x6cu8, 0x6cu8, 0x6fu8, 0x2cu8, 0x20u8, 0x57u8, 0x6fu8, 0x72u8, 0x6cu8, 0x64u8, 0x21u8]
}

pub fn hello_v() -> (v: Vec<u8>)
    ensures
        v@ == hello_b(),
{
    let v = lit_vec([0x48, 0x65, 0x6c, 0x6c, 0x6f, 0x2c, 0x20, 0x57, 0x6f, 0x72, 0x6c, 0x64, 0x21]);
    proof {
        assert(v@ =~= hello_b());
    }
    v
}

/// `"Not Found"`
pub open spec fn not_found_reason_b() -> Seq<u8> {
    seq![0x4eu8, 0x6fu8, 0x74u8, 0x20u8, 0x46u8, 0x6fu8, 0x75u8, 0x6eu8, 0x64u8]
}

pub fn not_found_reason_v() -> (v: Vec<u8>)
    ensures
        v@ == not_found_reason_b(),
{
    let v = lit_vec([0x4e, 0x6f, 0x74, 0x20, 0x46, 0x6f, 0x75, 0x6e, 0x64]);
    proof {
        assert(v@ =~= not_found_reason_b());
    }
    v
}

/// `"Method Not Allowed"`
pub open spec fn method_not_allowed_reason_b() -> Seq<u8> {
    seq![0x4du8, 0x65u8, 0x74u8, 0x68u8, 0x6fu8, 0x64u8, 0x20u8, 0x4eu8, 0x6fu8, 0x74u8, 0x20u8, 0x41u8, 0x6cu8, 0x6cu8, 0x6fu8, 0x77u8, 0x65u8, 0x64u8]
}

pub fn method_not_allowed_reason_v() -> (v: Vec<u8>)
    ensures
        v@ == method_not_allowed_reason_b(),
{
    let v = lit_vec([0x4d, 0x65, 0x74, 0x68, 0x6f, 0x64, 0x20, 0x4e, 0x6f, 0x74, 0x20, 0x41, 0x6c, 0x6c, 0x6f, 0x77, 0x65, 0x64]);
    proof {
        assert(v@ =~= method_not_allowed_reason_b());
    }
    v
}

/// `"Created"`
pub open spec fn created_reason_b() -> Seq<u8> {
    seq![0x43u8, 0x72u8, 0x65u8, 0x61u8, 0x74u8, 0x65u8, 0x64u8]
}

pub fn created_reason_v() -> (v: Vec<u8>)
    ensures
        v@ == created_reason_b(),
{
    let v = lit_vec([0x43, 0x72, 0x65, 0x61, 0x74, 0x65, 0x64]);
    proof {
        assert(v@ =~= created_reason_b());
    }
    v
}

/// `"application/octet-stream"`
pub open spec fn octet_stream_b() -> Seq<u8> {
    seq![0x61u8, 0x70u8, 0x70u8, 0x6cu8, 0x69u8, 0x63u8, 0x61u8, 0x74u8, 0x69u8, 0x6fu8, 0x6eu8, 0x2fu8, 0x6fu8, 0x63u8, 0x74u8, 0x65u8, 0x74u8, 0x2du8, 0x73u8, 0x74u8, 0x72u8, 0x65u8, 0x61u8, 0x6du8]
}

pub fn octet_stream_v() -> (v: Vec<u8>)
    ensures
        v@ == octet_stream_b(),
{
    let v = lit_vec([0x61, 0x70, 0x70, 0x6c, 0x69, 0x63, 0x61, 0x74, 0x69, 0x6f, 0x6e, 0x2f, 0x6f, 0x63, 0x74, 0x65, 0x74, 0x2d, 0x73, 0x74, 0x72, 0x65, 0x61, 0x6d]);
    proof {
        assert(v@ =~= octet_stream_b());
    }
    v
}

/// `"/"`
pub open spec fn root_path_b() -> Seq<u8> {
    seq![0x2fu8]
}

pub fn root_path_v() -> (v: Vec<u8>)
    ensures
        v@ == root_path_b(),
{
    let v = lit_vec([0x2f]);
    proof {
        assert(v@ =~= root_path_b());
    }
    v
}

/// `"/echo"`
pub open spec fn echo_prefix_b() -> Seq<u8> {
    seq![0x2fu8, 0x65u8, 0x63u8, 0x68u8, 0x6fu8]
}

pub fn echo_prefix_v() -> (v: Vec<u8>)
    ensures
        v@ == echo_prefix_b(),
{
    let v = lit_vec([0x2f, 0x65, 0x63, 0x68, 0x6f]);
    proof {
        assert(v@ =~= echo_prefix_b());
    }
    v
}

/// `"/echo/"`
pub open spec fn echo_slash_b() -> Seq<u8> {
    seq![0x2fu8, 0x65u8, 0x63u8, 0x68u8, 0x6fu8, 0x2fu8]
}

pub fn echo_slash_v() -> (v: Vec<u8>)
    ensures
        v@ == echo_slash_b(),
{
    let v = lit_vec([0x2f, 0x65, 0x63, 0x68, 0x6f, 0x2f]);
    proof {
        assert(v@ =~= echo_slash_b());
    }
    v
}

/// `"/files"`
pub open spec fn files_prefix_b() -> Seq<u8> {
    seq![0x2fu8, 0x66u8, 0x69u8, 0x6cu8, 0x65u8, 0x73u8]
}

pub fn files_prefix_v() -> (v: Vec<u8>)
    ensures
        v@ == files_prefix_b(),
{
    let v = lit_vec([0x2f, 0x66, 0x69, 0x6c, 0x65, 0x73]);
    proof {
        assert(v@ =~= files_prefix_b());
    }
    v
}

/// `"/files/"`
pub open spec fn files_slash_b() -> Seq<u8> {
    seq![0x2fu8, 0x66u8, 0x69u8, 0x6cu8, 0x65u8, 0x73u8, 0x2fu8]
}

pub fn files_slash_v() -> (v: Vec<u8>)
    ensures
        v@ == files_slash_b(),
{
    let v = lit_vec([0x2f, 0x66, 0x69, 0x6c, 0x65, 0x73, 0x2f]);
    proof {
        assert(v@ =~= files_slash_b());
    }
    v
}

/// `"/user-agent"`
pub open spec fn user_agent_path_b() -> Seq<u8> {
    seq![0x2fu8, 0x75u8, 0x73u8, 0x65u8, 0x72u8, 0x2du8, 0x61u8, 0x67u8, 0x65u8, 0x6eu8, 0x74u8]
}

pub fn user_agent_path_v() -> (v: Vec<u8>)
    ensures
        v@ == user_agent_path_b(),
{
    let v = lit_vec([0x2f, 0x75, 0x73, 0x65, 0x72, 0x2d, 0x61, 0x67, 0x65, 0x6e, 0x74]);
    proof {
        assert(v@ =~= user_agent_path_b());
    }
    v
}

/// `"/ip"`
pub open spec fn ip_path_b() -> Seq<u8> {
    seq![0x2fu8, 0x69u8, 0x70u8]
}

pub fn ip_path_v() -> (v: Vec<u8>)
    ensures
        v@ == ip_path_b(),
{
    let v = lit_vec([0x2f, 0x69, 0x70]);
    proof {
        assert(v@ =~= ip_path_b());
    }
    v
}

/// `", "`
pub open spec fn comma_space_b() -> Seq<u8> {
    seq![0x2cu8, 0x20u8]
}

pub fn comma_space_v() -> (v: Vec<u8>)
    ensures
        v@ == comma_space_b(),
{
    let v = lit_vec([0x2c, 0x20]);
    proof {
        assert(v@ =~= comma_space_b());
    }
    v
}

/// `": "`
pub open spec fn colon_space_b() -> Seq<u8> {
    seq![0x3au8, 0x20u8]
}

pub fn colon_space_v() -> (v: Vec<u8>)
    ensures
        v@ == colon_space_b(),
{
    let v = lit_vec([0x3a, 0x20]);
    proof {
        assert(v@ =~= colon_space_b());
    }
    v
}

/// `"\r\n"`
pub open spec fn crlf_b() -> Seq<u8> {
    seq![0x0du8, 0x0au8]
}

pub fn crlf_v() -> (v: Vec<u8>)
    ensures
        v@ == crlf_b(),
{
    let v = lit_vec([0x0d, 0x0a]);
    proof {
        assert(v@ =~= crlf_b());
    }
    v
}

} // verus!
