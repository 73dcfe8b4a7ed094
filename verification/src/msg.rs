//! The message model: request and response value types, their mathematical
//! views, and the header mapping with its two insertion disciplines
//! (first-seen-wins for requests, overwrite for responses).
use vstd::prelude::*;
use crate::bytes::{is_ws, COLON, NL, COMMA};
use crate::consts::{
    http11_b, http11_v, ok_reason_b, ok_reason_v, server_name_b, server_name_v, server_value_b,
    server_value_v, content_type_b, content_type_v, text_plain_b, text_plain_v,
};

verus! {

#[verifier::ext_equal]
pub struct SpecRequestLine {
    pub method: Seq<u8>,
    pub target: Seq<u8>,
    pub version: Seq<u8>,
}

#[verifier::ext_equal]
pub struct SpecHeader {
    pub name: Seq<u8>,
    pub values: Seq<Seq<u8>>,
}

#[verifier::ext_equal]
pub struct SpecRequest {
    pub request_line: SpecRequestLine,
    pub headers: Seq<SpecHeader>,
    pub body: Seq<u8>,
}

#[verifier::ext_equal]
pub struct SpecStatusLine {
    pub version: Seq<u8>,
    pub status_code: u16,
    pub reason_phrase: Option<Seq<u8>>,
}

#[verifier::ext_equal]
pub struct SpecResponse {
    pub status_line: SpecStatusLine,
    pub headers: Seq<SpecHeader>,
    pub body: Seq<u8>,
}

/// First line of a request: method, target, protocol version.
#[derive(Debug)]
pub struct RequestLine {
    pub method: Vec<u8>,
    pub target: Vec<u8>,
    pub version: Vec<u8>,
}

impl View for RequestLine {
    type V = SpecRequestLine;

    open spec fn view(&self) -> SpecRequestLine {
        SpecRequestLine { method: self.method@, target: self.target@, version: self.version@ }
    }
}

/// One header entry: a name and the ordered values parsed from its line.
#[derive(Debug)]
pub struct Header {
    pub name: Vec<u8>,
    pub values: Vec<Vec<u8>>,
}

impl View for Header {
    type V = SpecHeader;

    open spec fn view(&self) -> SpecHeader {
        SpecHeader { name: self.name@, values: self.values.deep_view() }
    }
}

/// The header entries, viewed.
pub open spec fn hmodel(hs: Seq<Header>) -> Seq<SpecHeader> {
    Seq::new(hs.len(), |i: int| hs[i]@)
}

/// A parsed request.
#[derive(Debug)]
pub struct Request {
    pub request_line: RequestLine,
    pub headers: Vec<Header>,
    pub body: Vec<u8>,
}

impl View for Request {
    type V = SpecRequest;

    open spec fn view(&self) -> SpecRequest {
        SpecRequest {
            request_line: self.request_line@,
            headers: hmodel(self.headers@),
            body: self.body@,
        }
    }
}

/// First line of a response: version, numeric code, optional reason phrase.
#[derive(Debug)]
pub struct StatusLine {
    pub version: Vec<u8>,
    pub status_code: u16,
    pub reason_phrase: Option<Vec<u8>>,
}

impl View for StatusLine {
    type V = SpecStatusLine;

    open spec fn view(&self) -> SpecStatusLine {
        SpecStatusLine {
            version: self.version@,
            status_code: self.status_code,
            reason_phrase: match self.reason_phrase {
                Some(r) => Some(r@),
                None => None,
            },
        }
    }
}

/// A response under construction.
#[derive(Debug)]
pub struct Response {
    pub status_line: StatusLine,
    pub headers: Vec<Header>,
    pub body: Vec<u8>,
}

impl View for Response {
    type V = SpecResponse;

    open spec fn view(&self) -> SpecResponse {
        SpecResponse {
            status_line: self.status_line@,
            headers: hmodel(self.headers@),
            body: self.body@,
        }
    }
}

/// The values mapped to `name`: those of the first entry with that name.
pub open spec fn hdr_lookup(hs: Seq<SpecHeader>, name: Seq<u8>) -> Option<Seq<Seq<u8>>>
    decreases hs.len(),
{
    if hs.len() == 0 {
        None
    } else if hs[0].name == name {
        Some(hs[0].values)
    } else {
        hdr_lookup(hs.drop_first(), name)
    }
}

/// Insertion as the request parser performs it: a name already present keeps
/// its first-seen values and the new line is dropped.
pub open spec fn hdr_insert_first_wins(
    hs: Seq<SpecHeader>,
    name: Seq<u8>,
    values: Seq<Seq<u8>>,
) -> Seq<SpecHeader> {
    if hdr_lookup(hs, name) is Some {
        hs
    } else {
        hs.push(SpecHeader { name, values })
    }
}

/// Insertion as the response serializer performs it: an existing entry is
/// overwritten in place, a new one is appended.
pub open spec fn hdr_upsert(hs: Seq<SpecHeader>, name: Seq<u8>, values: Seq<Seq<u8>>) -> Seq<
    SpecHeader,
>
    decreases hs.len(),
{
    if hs.len() == 0 {
        seq![SpecHeader { name, values }]
    } else if hs[0].name == name {
        seq![SpecHeader { name, values }] + hs.drop_first()
    } else {
        seq![hs[0]] + hdr_upsert(hs.drop_first(), name, values)
    }
}

pub proof fn lemma_hdr_lookup_at(hs: Seq<SpecHeader>, name: Seq<u8>, k: int)
    requires
        0 <= k < hs.len(),
        hs[k].name == name,
        forall|j: int| 0 <= j < k ==> hs[j].name != name,
    ensures
        hdr_lookup(hs, name) == Some(hs[k].values),
    decreases k,
{
    if k > 0 {
        lemma_hdr_lookup_at(hs.drop_first(), name, k - 1);
    }
}

pub proof fn lemma_hdr_lookup_none(hs: Seq<SpecHeader>, name: Seq<u8>)
    requires
        forall|j: int| 0 <= j < hs.len() ==> hs[j].name != name,
    ensures
        hdr_lookup(hs, name) is None,
    decreases hs.len(),
{
    if hs.len() > 0 {
        lemma_hdr_lookup_none(hs.drop_first(), name);
    }
}

/// Index of the first entry named `name`.
pub fn find_header(hs: &Vec<Header>, name: &Vec<u8>) -> (r: Option<usize>)
    ensures
        match r {
            Some(k) => 0 <= k < hs@.len() && hs@[k as int]@.name == name@ && hdr_lookup(
                hmodel(hs@),
                name@,
            ) == Some(hs@[k as int]@.values) && (forall|j: int|
                0 <= j < k ==> hmodel(hs@)[j].name != name@),
            None => hdr_lookup(hmodel(hs@), name@) is None && (forall|j: int|
                0 <= j < hs@.len() ==> hmodel(hs@)[j].name != name@),
        },
{
    let mut k: usize = 0;
    while k < hs.len()
        invariant
            0 <= k <= hs@.len(),
            forall|j: int| 0 <= j < k ==> hmodel(hs@)[j].name != name@,
        decreases hs@.len() - k,
    {
        if crate::bytes::vec_eq(&hs[k].name, name) {
            proof {
                lemma_hdr_lookup_at(hmodel(hs@), name@, k as int);
            }
            return Some(k);
        }
        k = k + 1;
    }
    proof {
        lemma_hdr_lookup_none(hmodel(hs@), name@);
    }
    None
}

/// Adds `name -> values` unless `name` is already mapped (first-seen-wins).
pub fn insert_first_wins(hs: &mut Vec<Header>, name: Vec<u8>, values: Vec<Vec<u8>>)
    ensures
        hmodel(final(hs)@) == hdr_insert_first_wins(hmodel(old(hs)@), name@, values.deep_view()),
{
    match find_header(hs, &name) {
        Some(_) => {
        },
        None => {
            let ghost prev = hmodel(hs@);
            hs.push(Header { name, values });
            proof {
                assert(hmodel(hs@) =~= prev.push(hs@[prev.len() as int]@));
            }
        },
    }
}

pub proof fn lemma_hdr_upsert_at(hs: Seq<SpecHeader>, name: Seq<u8>, values: Seq<Seq<u8>>, k: int)
    requires
        0 <= k < hs.len(),
        hs[k].name == name,
        forall|j: int| 0 <= j < k ==> hs[j].name != name,
    ensures
        hdr_upsert(hs, name, values) == hs.update(k, SpecHeader { name, values }),
    decreases k,
{
    if k == 0 {
        assert(seq![SpecHeader { name, values }] + hs.drop_first() =~= hs.update(
            0,
            SpecHeader { name, values },
        ));
    } else {
        lemma_hdr_upsert_at(hs.drop_first(), name, values, k - 1);
        assert(seq![hs[0]] + hs.drop_first().update(k - 1, SpecHeader { name, values }) =~= hs
            .update(k, SpecHeader { name, values }));
    }
}

pub proof fn lemma_hdr_upsert_none(hs: Seq<SpecHeader>, name: Seq<u8>, values: Seq<Seq<u8>>)
    requires
        forall|j: int| 0 <= j < hs.len() ==> hs[j].name != name,
    ensures
        hdr_upsert(hs, name, values) == hs.push(SpecHeader { name, values }),
    decreases hs.len(),
{
    if hs.len() == 0 {
        assert(seq![SpecHeader { name, values }] =~= hs.push(SpecHeader { name, values }));
    } else {
        lemma_hdr_upsert_none(hs.drop_first(), name, values);
        assert(seq![hs[0]] + hs.drop_first().push(SpecHeader { name, values }) =~= hs.push(
            SpecHeader { name, values },
        ));
    }
}

/// Replaces the values of `name`, or appends the entry (overwrite).
pub fn upsert(hs: &mut Vec<Header>, name: Vec<u8>, values: Vec<Vec<u8>>)
    ensures
        hmodel(final(hs)@) == hdr_upsert(hmodel(old(hs)@), name@, values.deep_view()),
{
    let ghost prev = hmodel(hs@);
    match find_header(hs, &name) {
        Some(k) => {
            proof {
                lemma_hdr_upsert_at(prev, name@, values.deep_view(), k as int);
            }
            hs[k] = Header { name, values };
            proof {
                assert(hmodel(hs@) =~= prev.update(
                    k as int,
                    SpecHeader { name: hs@[k as int]@.name, values: hs@[k as int]@.values },
                ));
            }
        },
        None => {
            proof {
                lemma_hdr_upsert_none(prev, name@, values.deep_view());
            }
            hs.push(Header { name, values });
            proof {
                assert(hmodel(hs@) =~= prev.push(hs@[prev.len() as int]@));
            }
        },
    }
}

/// Looking a name up after a push: the push only matters if the name was
/// not mapped before.
pub proof fn lemma_hdr_lookup_push(hs: Seq<SpecHeader>, h: SpecHeader, name: Seq<u8>)
    ensures
        hdr_lookup(hs.push(h), name) == (match hdr_lookup(hs, name) {
            Some(v) => Some(v),
            None => if h.name == name {
                Some(h.values)
            } else {
                None
            },
        }),
    decreases hs.len(),
{
    if hs.len() == 0 {
        assert(hs.push(h)[0] == h);
        assert(hs.push(h).len() == 1);
        assert(hdr_lookup(hs, name) is None);
        if h.name != name {
            assert(hs.push(h).drop_first() =~= Seq::<SpecHeader>::empty());
            assert(hdr_lookup(Seq::<SpecHeader>::empty(), name) is None);
        }
    } else {
        assert(hs.push(h)[0] == hs[0]);
        assert(hs.push(h).drop_first() =~= hs.drop_first().push(h));
        lemma_hdr_lookup_push(hs.drop_first(), h, name);
    }
}

/// A header name as serialization keeps it parseable: no whitespace, no
/// colon, not empty.
pub open spec fn header_name_ok(name: Seq<u8>) -> bool {
    name.len() > 0 && forall|k: int|
        0 <= k < name.len() ==> !is_ws(name[k]) && name[k] != COLON
}

/// A header value as serialization keeps it parseable: non-empty, trimmed,
/// no line break, no comma.
pub open spec fn header_value_ok(v: Seq<u8>) -> bool {
    v.len() > 0 && !is_ws(v[0]) && !is_ws(v[v.len() - 1]) && forall|k: int|
        0 <= k < v.len() ==> v[k] != NL && v[k] != COMMA
}

pub open spec fn header_wf(h: SpecHeader) -> bool {
    header_name_ok(h.name) && h.values.len() > 0 && forall|i: int|
        0 <= i < h.values.len() ==> header_value_ok(#[trigger] h.values[i])
}

/// Every entry well formed, and names pairwise distinct.
pub open spec fn headers_wf(hs: Seq<SpecHeader>) -> bool {
    (forall|i: int| 0 <= i < hs.len() ==> header_wf(#[trigger] hs[i])) && (forall|i: int, j: int|
        0 <= i < j < hs.len() ==> hs[i].name != hs[j].name)
}

/// The state every fresh response starts from: HTTP/1.1, 200 OK, the fixed
/// server identifier and the default content type, an empty body.
pub open spec fn spec_default_response() -> SpecResponse {
    SpecResponse {
        status_line: SpecStatusLine {
            version: http11_b(),
            status_code: 200,
            reason_phrase: Some(ok_reason_b()),
        },
        headers: seq![
            SpecHeader { name: server_name_b(), values: seq![server_value_b()] },
            SpecHeader { name: content_type_b(), values: seq![text_plain_b()] },
        ],
        body: Seq::empty(),
    }
}

impl Response {
    /// The serializer's precondition: the headers will re-parse.
    pub open spec fn wf(&self) -> bool {
        headers_wf(self@.headers)
    }

    pub fn new() -> (r: Response)
        ensures
            r@ == spec_default_response(),
            r.wf(),
    {
        let mut headers: Vec<Header> = Vec::new();
        let mut sv: Vec<Vec<u8>> = Vec::new();
        sv.push(server_value_v());
        headers.push(Header { name: server_name_v(), values: sv });
        let mut tv: Vec<Vec<u8>> = Vec::new();
        tv.push(text_plain_v());
        headers.push(Header { name: content_type_v(), values: tv });
        let r = Response {
            status_line: StatusLine {
                version: http11_v(),
                status_code: 200,
                reason_phrase: Some(ok_reason_v()),
            },
            headers,
            body: Vec::new(),
        };
        proof {
            assert(r@.headers =~~= spec_default_response().headers);
            assert(r@ =~~= spec_default_response());
            lemma_default_response_wf();
        }
        r
    }
}

impl Default for Response {
    fn default() -> (r: Response)
        ensures
            r@ == spec_default_response(),
            r.wf(),
    {
        Response::new()
    }
}

pub proof fn lemma_default_response_wf()
    ensures
        headers_wf(spec_default_response().headers),
{
    let hs = spec_default_response().headers;
    assert(header_name_ok(server_name_b()));
    assert(header_name_ok(content_type_b()));
    assert(header_value_ok(server_value_b()));
    assert(header_value_ok(text_plain_b()));
    assert(server_name_b()[0] != content_type_b()[0]);
    assert(hs[0] == SpecHeader { name: server_name_b(), values: seq![server_value_b()] });
    assert(hs[1] == SpecHeader { name: content_type_b(), values: seq![text_plain_b()] });
    assert(hs[0].values[0] == server_value_b());
    assert(hs[1].values[0] == text_plain_b());
    assert(header_wf(hs[0]));
    assert(header_wf(hs[1]));
    assert(forall|i: int| 0 <= i < hs.len() ==> header_wf(#[trigger] hs[i]));
}

} // verus!
