//! Per-request orchestration: encoding negotiation, the dispatch table over
//! method and path, and the encoding application. File-store work is
//! returned as a planned action and its outcome is taken back as a value, so
//! the whole decision logic stays a function of plain values.
use vstd::prelude::*;
use crate::bytes::{lower, starts_with, dec_digits, vec_eq, starts_with_vec, lower_vec, copy_range};
use crate::consts::{
    get_b, get_v, post_b, post_v, root_path_b, root_path_v, echo_prefix_b, echo_prefix_v,
    echo_slash_b, echo_slash_v, files_prefix_b, files_prefix_v, files_slash_b, files_slash_v,
    user_agent_path_b, user_agent_path_v, ip_path_b, ip_path_v, user_agent_b, user_agent_v,
    accept_encoding_b, accept_encoding_v, gzip_b, gzip_v, content_type_b, content_type_v,
    octet_stream_b, octet_stream_v, hello_b, hello_v, not_found_reason_b, not_found_reason_v,
    method_not_allowed_reason_b, method_not_allowed_reason_v, created_reason_b, created_reason_v,
    content_length_b,
};
use crate::msg::{
    SpecRequest, SpecResponse, SpecStatusLine, SpecHeader, Request, Response, hdr_lookup,
    hdr_upsert, upsert, find_header, spec_default_response, headers_wf, header_wf, header_name_ok,
    header_value_ok, hmodel,
};
use crate::serial::{join_values, join_values_exec, spec_serialize_response, lemma_hdr_upsert_wf};
use crate::gz::{gzip_of, gzip_compress};

verus! {

/// A request the routing table cannot answer: the route demands a header
/// the request does not carry. It is fatal to the request; no response is
/// written.
#[derive(Clone, Copy, Debug, PartialEq, Eq, Structural)]
pub enum RouteError {
    MissingUserAgent,
}

/// The file-store work a request asks for, if any.
pub enum FileAction {
    NoFile,
    ReadFile(Vec<u8>),
    WriteFile(Vec<u8>, Vec<u8>),
}

pub enum SpecFileAction {
    NoFile,
    ReadFile(Seq<u8>),
    WriteFile(Seq<u8>, Seq<u8>),
}

impl View for FileAction {
    type V = SpecFileAction;

    open spec fn view(&self) -> SpecFileAction {
        match self {
            FileAction::NoFile => SpecFileAction::NoFile,
            FileAction::ReadFile(n) => SpecFileAction::ReadFile(n@),
            FileAction::WriteFile(n, c) => SpecFileAction::WriteFile(n@, c@),
        }
    }
}

/// What the file store answered.
pub enum FileOutcome {
    NoFile,
    ReadOk(Vec<u8>),
    ReadFailed,
    WriteOk,
    WriteFailed,
}

pub enum SpecFileOutcome {
    NoFile,
    ReadOk(Seq<u8>),
    ReadFailed,
    WriteOk,
    WriteFailed,
}

impl View for FileOutcome {
    type V = SpecFileOutcome;

    open spec fn view(&self) -> SpecFileOutcome {
        match self {
            FileOutcome::NoFile => SpecFileOutcome::NoFile,
            FileOutcome::ReadOk(c) => SpecFileOutcome::ReadOk(c@),
            FileOutcome::ReadFailed => SpecFileOutcome::ReadFailed,
            FileOutcome::WriteOk => SpecFileOutcome::WriteOk,
            FileOutcome::WriteFailed => SpecFileOutcome::WriteFailed,
        }
    }
}

/// `s` without the prefix `p` if it carries it, else `s` itself.
pub open spec fn spec_strip_prefix(s: Seq<u8>, p: Seq<u8>) -> Seq<u8> {
    if starts_with(s, p) {
        s.skip(p.len() as int)
    } else {
        s
    }
}

pub fn strip_prefix_vec(v: &Vec<u8>, p: &Vec<u8>) -> (r: Vec<u8>)
    ensures
        r@ == spec_strip_prefix(v@, p@),
{
    if starts_with_vec(v, p) {
        let r = copy_range(v, p.len(), v.len());
        proof {
            assert(v@.subrange(p@.len() as int, v@.len() as int) =~= v@.skip(p@.len() as int));
        }
        r
    } else {
        let r = copy_range(v, 0, v.len());
        proof {
            assert(v@.subrange(0, v@.len() as int) =~= v@);
        }
        r
    }
}

pub open spec fn with_body(m: SpecResponse, b: Seq<u8>) -> SpecResponse {
    SpecResponse { status_line: m.status_line, headers: m.headers, body: b }
}

pub open spec fn with_status(m: SpecResponse, code: u16, reason: Seq<u8>) -> SpecResponse {
    SpecResponse {
        status_line: SpecStatusLine {
            version: m.status_line.version,
            status_code: code,
            reason_phrase: Some(reason),
        },
        headers: m.headers,
        body: m.body,
    }
}

/// The file-store work the dispatch table will ask for on `req`.
pub open spec fn spec_plan(req: SpecRequest) -> SpecFileAction {
    let m = req.request_line.method;
    let t = req.request_line.target;
    if m == get_b() {
        if t == root_path_b() {
            SpecFileAction::NoFile
        } else if starts_with(t, echo_prefix_b()) {
            SpecFileAction::NoFile
        } else if lower(t) == user_agent_path_b() {
            SpecFileAction::NoFile
        } else if lower(t) == ip_path_b() {
            SpecFileAction::NoFile
        } else if starts_with(t, files_prefix_b()) {
            SpecFileAction::ReadFile(spec_strip_prefix(t, files_slash_b()))
        } else {
            SpecFileAction::NoFile
        }
    } else if m == post_b() {
        if starts_with(t, files_prefix_b()) {
            SpecFileAction::WriteFile(spec_strip_prefix(t, files_slash_b()), req.body)
        } else {
            SpecFileAction::NoFile
        }
    } else {
        SpecFileAction::NoFile
    }
}

/// Whether the request's `Accept-Encoding` values (of the first such
/// header) offer the one supported encoding.
pub open spec fn has_gzip(vs: Seq<Seq<u8>>) -> bool {
    exists|i: int| 0 <= i < vs.len() && vs[i] == gzip_b()
}

pub open spec fn spec_wants_gzip(req: SpecRequest) -> bool {
    match hdr_lookup(req.headers, accept_encoding_b()) {
        Some(vs) => has_gzip(vs),
        None => false,
    }
}

/// The dispatch table, first match wins: `GET /`, `GET /echo…`,
/// `GET /user-agent`, `GET /ip`, `GET /files…`, a GET fallback of 404,
/// `POST /files…`, and 405 for any other method.
pub open spec fn spec_route(req: SpecRequest, peer: Seq<u8>, f: SpecFileOutcome) -> Result<
    SpecResponse,
    RouteError,
> {
    let base = spec_default_response();
    let m = req.request_line.method;
    let t = req.request_line.target;
    if m == get_b() {
        if t == root_path_b() {
            Ok(with_body(base, hello_b()))
        } else if starts_with(t, echo_prefix_b()) {
            Ok(with_body(base, spec_strip_prefix(t, echo_slash_b())))
        } else if lower(t) == user_agent_path_b() {
            match hdr_lookup(req.headers, user_agent_b()) {
                Some(vs) => Ok(with_body(base, join_values(vs))),
                None => Err(RouteError::MissingUserAgent),
            }
        } else if lower(t) == ip_path_b() {
            Ok(with_body(base, peer))
        } else if starts_with(t, files_prefix_b()) {
            let octet = SpecResponse {
                status_line: base.status_line,
                headers: hdr_upsert(base.headers, content_type_b(), seq![octet_stream_b()]),
                body: base.body,
            };
            match f {
                SpecFileOutcome::ReadOk(content) => Ok(with_body(octet, content)),
                _ => Ok(with_status(with_body(octet, not_found_reason_b()), 404, not_found_reason_b())),
            }
        } else {
            Ok(with_status(with_body(base, not_found_reason_b()), 404, not_found_reason_b()))
        }
    } else if m == post_b() {
        if starts_with(t, files_prefix_b()) {
            match f {
                SpecFileOutcome::WriteOk => Ok(with_status(base, 201, created_reason_b())),
                _ => Ok(base),
            }
        } else {
            Ok(base)
        }
    } else {
        Ok(
            with_status(
                with_body(base, method_not_allowed_reason_b()),
                405,
                method_not_allowed_reason_b(),
            ),
        )
    }
}

/// Computes the file-store action of the dispatch table without running it.
pub fn plan_file_action(req: &Request) -> (r: FileAction)
    ensures
        r@ == spec_plan(req@),
{
    let method = &req.request_line.method;
    let target = &req.request_line.target;
    let lt = lower_vec(target);
    if vec_eq(method, &get_v()) {
        if vec_eq(target, &root_path_v()) {
            FileAction::NoFile
        } else if starts_with_vec(target, &echo_prefix_v()) {
            FileAction::NoFile
        } else if vec_eq(&lt, &user_agent_path_v()) {
            FileAction::NoFile
        } else if vec_eq(&lt, &ip_path_v()) {
            FileAction::NoFile
        } else if starts_with_vec(target, &files_prefix_v()) {
            FileAction::ReadFile(strip_prefix_vec(target, &files_slash_v()))
        } else {
            FileAction::NoFile
        }
    } else if vec_eq(method, &post_v()) {
        if starts_with_vec(target, &files_prefix_v()) {
            let mut content: Vec<u8> = Vec::new();
            content.extend_from_slice(req.body.as_slice());
            proof {
                assert(content@ =~= req@.body);
            }
            FileAction::WriteFile(strip_prefix_vec(target, &files_slash_v()), content)
        } else {
            FileAction::NoFile
        }
    } else {
        FileAction::NoFile
    }
}

/// Computes the negotiation of step three: the first `Accept-Encoding`
/// header's values, intersected with the one supported encoding.
pub fn wants_gzip(req: &Request) -> (r: bool)
    ensures
        r == spec_wants_gzip(req@),
{
    let name = accept_encoding_v();
    match find_header(&req.headers, &name) {
        None => false,
        Some(k) => {
            let vals = &req.headers[k].values;
            let ghost vs = req@.headers[k as int].values;
            let g = gzip_v();
            let mut i: usize = 0;
            while i < vals.len()
                invariant
                    0 <= i <= vals@.len(),
                    vs == req@.headers[k as int].values,
                    0 <= k < req.headers@.len(),
                    vs == req.headers@[k as int]@.values,
                    vals@ == req.headers@[k as int].values@,
                    vs.len() == vals@.len(),
                    g@ == gzip_b(),
                    forall|j: int| 0 <= j < i ==> vs[j] != gzip_b(),
                    hdr_lookup(req@.headers, accept_encoding_b()) == Some(vs),
                decreases vals@.len() - i,
            {
                if vec_eq(&vals[i], &g) {
                    proof {
                        assert(vs[i as int] =~= vals@[i as int]@);
                        assert(vals@[i as int]@ == g@);
                        assert(g@ == gzip_b());
                        assert(vs[i as int] == gzip_b());
                        assert(has_gzip(vs)) by {
                            assert(0 <= (i as int) < vs.len() && vs[i as int] == gzip_b());
                        }
                        assert(spec_wants_gzip(req@));
                    }
                    return true;
                }
                proof {
                    assert(vs[i as int] =~= vals@[i as int]@);
                }
                i = i + 1;
            }
            proof {
                assert(!has_gzip(vs));
            }
            false
        },
    }
}

/// The `application/octet-stream` entry is itself well formed.
proof fn lemma_octet_stream_header_wf()
    ensures
        header_wf(SpecHeader { name: content_type_b(), values: seq![octet_stream_b()] }),
{
    assert(header_name_ok(content_type_b()));
    assert(header_value_ok(octet_stream_b()));
    assert(seq![octet_stream_b()][0] == octet_stream_b());
}

/// The `Content-Encoding: gzip` entry is itself well formed.
proof fn lemma_gzip_header_wf()
    ensures
        header_wf(
            SpecHeader { name: crate::consts::content_encoding_b(), values: seq![gzip_b()] },
        ),
{
    assert(header_name_ok(crate::consts::content_encoding_b()));
    assert(header_value_ok(gzip_b()));
    assert(seq![gzip_b()][0] == gzip_b());
}

/// Runs the dispatch table on a parsed request, the peer address's textual
/// form, and what the file store answered for the planned action.
pub fn build_response(req: &Request, peer_ip: &Vec<u8>, f: &FileOutcome) -> (r: Result<
    Response,
    RouteError,
>)
    ensures
        match spec_route(req@, peer_ip@, f@) {
            Ok(m) => r matches Ok(resp) && resp@ == m && resp.wf(),
            Err(e) => r matches Err(e2) && e2 == e,
        },
{
    let mut resp = Response::new();
    let method = &req.request_line.method;
    let target = &req.request_line.target;
    let lt = lower_vec(target);
    if vec_eq(method, &get_v()) {
        if vec_eq(target, &root_path_v()) {
            resp.body = hello_v();
            proof {
                assert(resp@ =~~= spec_route(req@, peer_ip@, f@)->Ok_0);
            }
            Ok(resp)
        } else if starts_with_vec(target, &echo_prefix_v()) {
            resp.body = strip_prefix_vec(target, &echo_slash_v());
            proof {
                assert(resp@ =~~= spec_route(req@, peer_ip@, f@)->Ok_0);
            }
            Ok(resp)
        } else if vec_eq(&lt, &user_agent_path_v()) {
            let name = user_agent_v();
            match find_header(&req.headers, &name) {
                None => Err(RouteError::MissingUserAgent),
                Some(k) => {
                    let vals = &req.headers[k].values;
                    resp.body = join_values_exec(vals);
                    proof {
                        assert(vals.deep_view() =~~= req@.headers[k as int].values);
                        assert(resp@ =~~= spec_route(req@, peer_ip@, f@)->Ok_0);
                    }
                    Ok(resp)
                },
            }
        } else if vec_eq(&lt, &ip_path_v()) {
            let mut body: Vec<u8> = Vec::new();
            body.extend_from_slice(peer_ip.as_slice());
            resp.body = body;
            proof {
                assert(resp@.body =~= peer_ip@);
                assert(resp@ =~~= spec_route(req@, peer_ip@, f@)->Ok_0);
            }
            Ok(resp)
        } else if starts_with_vec(target, &files_prefix_v()) {
            let mut ctv: Vec<Vec<u8>> = Vec::new();
            ctv.push(octet_stream_v());
            proof {
                assert(ctv.deep_view() =~~= seq![octet_stream_b()]);
                lemma_octet_stream_header_wf();
                crate::msg::lemma_default_response_wf();
                lemma_hdr_upsert_wf(
                    spec_default_response().headers,
                    content_type_b(),
                    seq![octet_stream_b()],
                );
            }
            upsert(&mut resp.headers, content_type_v(), ctv);
            match f {
                FileOutcome::ReadOk(content) => {
                    let mut body: Vec<u8> = Vec::new();
                    body.extend_from_slice(content.as_slice());
                    resp.body = body;
                    proof {
                        assert(resp@.body =~= content@);
                        assert(resp@ =~~= spec_route(req@, peer_ip@, f@)->Ok_0);
                    }
                    Ok(resp)
                },
                _ => {
                    resp.status_line.status_code = 404;
                    resp.status_line.reason_phrase = Some(not_found_reason_v());
                    resp.body = not_found_reason_v();
                    proof {
                        assert(resp@ =~~= spec_route(req@, peer_ip@, f@)->Ok_0);
                    }
                    Ok(resp)
                },
            }
        } else {
            resp.status_line.status_code = 404;
            resp.status_line.reason_phrase = Some(not_found_reason_v());
            resp.body = not_found_reason_v();
            proof {
                assert(resp@ =~~= spec_route(req@, peer_ip@, f@)->Ok_0);
            }
            Ok(resp)
        }
    } else if vec_eq(method, &post_v()) {
        if starts_with_vec(target, &files_prefix_v()) {
            match f {
                FileOutcome::WriteOk => {
                    resp.status_line.status_code = 201;
                    resp.status_line.reason_phrase = Some(created_reason_v());
                    proof {
                        assert(resp@ =~~= spec_route(req@, peer_ip@, f@)->Ok_0);
                    }
                    Ok(resp)
                },
                _ => {
                    proof {
                        assert(resp@ =~~= spec_route(req@, peer_ip@, f@)->Ok_0);
                    }
                    Ok(resp)
                },
            }
        } else {
            proof {
                assert(resp@ =~~= spec_route(req@, peer_ip@, f@)->Ok_0);
            }
            Ok(resp)
        }
    } else {
        resp.status_line.status_code = 405;
        resp.status_line.reason_phrase = Some(method_not_allowed_reason_v());
        resp.body = method_not_allowed_reason_v();
        proof {
            assert(resp@ =~~= spec_route(req@, peer_ip@, f@)->Ok_0);
        }
        Ok(resp)
    }
}

/// The response after step five: if gzip was negotiated and the body is
/// non-empty, the body is replaced by its gzip form and `Content-Encoding`
/// says so; otherwise the response is untouched.
pub open spec fn spec_apply_encoding(m: SpecResponse, use_gzip: bool) -> SpecResponse {
    if use_gzip && m.body.len() > 0 {
        SpecResponse {
            status_line: m.status_line,
            headers: hdr_upsert(m.headers, crate::consts::content_encoding_b(), seq![gzip_b()]),
            body: gzip_of(m.body),
        }
    } else {
        m
    }
}

/// Marks the body as gzip-encoded and installs the encoded bytes.
pub fn set_encoded_body(resp: &mut Response, encoded: Vec<u8>)
    requires
        old(resp).wf(),
    ensures
        final(resp)@.status_line == old(resp)@.status_line,
        final(resp)@.headers == hdr_upsert(
            old(resp)@.headers,
            crate::consts::content_encoding_b(),
            seq![gzip_b()],
        ),
        final(resp)@.body == encoded@,
        final(resp).wf(),
{
    let mut cev: Vec<Vec<u8>> = Vec::new();
    cev.push(gzip_v());
    proof {
        assert(cev.deep_view() =~~= seq![gzip_b()]);
        lemma_gzip_header_wf();
        lemma_hdr_upsert_wf(old(resp)@.headers, crate::consts::content_encoding_b(), seq![gzip_b()]);
    }
    upsert(&mut resp.headers, crate::consts::content_encoding_v(), cev);
    resp.body = encoded;
}

/// Applies the negotiated encoding after the route behavior has produced
/// the body.
pub fn apply_encoding(resp: &mut Response, use_gzip: bool)
    requires
        old(resp).wf(),
    ensures
        final(resp)@ == spec_apply_encoding(old(resp)@, use_gzip),
        final(resp).wf(),
{
    if use_gzip && resp.body.len() > 0 {
        let encoded = gzip_compress(&resp.body);
        set_encoded_body(resp, encoded);
        proof {
            assert(resp@ =~~= spec_apply_encoding(old(resp)@, use_gzip));
        }
    }
}

/// The full exchange for one parsed request: route, negotiate and apply the
/// encoding, refresh `Content-Length`, serialize.
pub open spec fn spec_handle(req: SpecRequest, peer: Seq<u8>, f: SpecFileOutcome) -> Result<
    Seq<u8>,
    RouteError,
> {
    match spec_route(req, peer, f) {
        Err(e) => Err(e),
        Ok(m) => {
            let m2 = spec_apply_encoding(m, spec_wants_gzip(req));
            let m3 = SpecResponse {
                status_line: m2.status_line,
                headers: hdr_upsert(
                    m2.headers,
                    content_length_b(),
                    seq![dec_digits(m2.body.len() as int)],
                ),
                body: m2.body,
            };
            Ok(spec_serialize_response(m3))
        },
    }
}

/// One request in, the exact response bytes out — or the request was fatal
/// and the connection is to be closed without an answer.
pub fn handle(req: &Request, peer_ip: &Vec<u8>, f: &FileOutcome) -> (r: Result<Vec<u8>, RouteError>)
    ensures
        match spec_handle(req@, peer_ip@, f@) {
            Ok(b) => r matches Ok(v) && v@ == b,
            Err(e) => r matches Err(e2) && e2 == e,
        },
{
    let mut resp = match build_response(req, peer_ip, f) {
        Ok(resp) => resp,
        Err(e) => {
            return Err(e);
        },
    };
    let g = wants_gzip(req);
    apply_encoding(&mut resp, g);
    let out = resp.to_bytes();
    proof {
        assert(resp@ =~~= (match spec_handle(req@, peer_ip@, f@) {
            Ok(_) => SpecResponse {
                status_line: spec_apply_encoding(
                    spec_route(req@, peer_ip@, f@)->Ok_0,
                    spec_wants_gzip(req@),
                ).status_line,
                headers: hdr_upsert(
                    spec_apply_encoding(
                        spec_route(req@, peer_ip@, f@)->Ok_0,
                        spec_wants_gzip(req@),
                    ).headers,
                    content_length_b(),
                    seq![
                        dec_digits(
                            spec_apply_encoding(
                                spec_route(req@, peer_ip@, f@)->Ok_0,
                                spec_wants_gzip(req@),
                            ).body.len() as int,
                        ),
                    ],
                ),
                body: spec_apply_encoding(
                    spec_route(req@, peer_ip@, f@)->Ok_0,
                    spec_wants_gzip(req@),
                ).body,
            },
            Err(_) => resp@,
        }));
    }
    Ok(out)
}

} // verus!
