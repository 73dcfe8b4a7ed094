//! The request parser: one start line, a header block terminated by an empty
//! line, then a body framed by `Content-Length`.
use vstd::prelude::*;
use crate::bytes::{
    find_from, trim, split_ws_from, split_commas_from, parse_decimal, find_byte, copy_range,
    trim_vec, split_ws_vec, split_commas, parse_usize_bytes, NL, COLON,
};
use crate::consts::{content_length_b, content_length_v};
use crate::msg::{
    SpecHeader, SpecRequest, SpecRequestLine, Header, Request, RequestLine, hmodel, hdr_lookup,
    hdr_insert_first_wins, insert_first_wins, find_header,
};

verus! {

/// Why a request could not be parsed.
#[derive(Clone, Copy, Debug, PartialEq, Eq, Structural)]
pub enum ParseError {
    /// The start line does not hold exactly three tokens.
    MalformedStartLine,
    /// A header line holds no colon.
    MalformedHeader,
    /// The input ends before the empty line that closes the header block.
    TruncatedHeaders,
    /// The input ends before `Content-Length` bytes of body have arrived.
    IncompleteBody,
}

/// Reads `name: value` lines at or after `i` until an empty line, folding
/// them into `acc` first-seen-wins. Returns the mapping and the position
/// just after the empty line.
pub open spec fn spec_parse_header_fields(s: Seq<u8>, i: int, acc: Seq<SpecHeader>) -> Result<
    (Seq<SpecHeader>, int),
    ParseError,
>
    decreases s.len() - i,
    when 0 <= i <= s.len()
    via spec_parse_header_fields_dec
{
    match find_from(s, i, NL) {
        None => Err(ParseError::TruncatedHeaders),
        Some(j) => {
            let line = trim(s.subrange(i, j));
            if line.len() == 0 {
                Ok((acc, j + 1))
            } else {
                match find_from(line, 0, COLON) {
                    None => Err(ParseError::MalformedHeader),
                    Some(c) => {
                        let name = trim(line.subrange(0, c));
                        let values = split_commas_from(line.subrange(c + 1, line.len() as int), 0);
                        spec_parse_header_fields(s, j + 1, hdr_insert_first_wins(acc, name, values))
                    },
                }
            }
        },
    }
}

#[via_fn]
proof fn spec_parse_header_fields_dec(s: Seq<u8>, i: int, acc: Seq<SpecHeader>) {
    crate::bytes::lemma_find_from_props(s, i, NL);
}

/// The body length a header mapping asks for: the first `Content-Length`
/// value, if it parses as a non-negative integer that fits the machine.
pub open spec fn spec_content_length(hs: Seq<SpecHeader>) -> Option<int> {
    match hdr_lookup(hs, content_length_b()) {
        Some(vs) => parse_decimal(vs[0]),
        None => None,
    }
}

/// The whole parse: on success, the request and how many input bytes it
/// consumed; otherwise which way the input is unusable.
pub open spec fn spec_parse_request(s: Seq<u8>) -> Result<(SpecRequest, int), ParseError> {
    match find_from(s, 0, NL) {
        None => Err(ParseError::TruncatedHeaders),
        Some(j) => {
            let toks = split_ws_from(s.subrange(0, j), 0);
            if toks.len() != 3 {
                Err(ParseError::MalformedStartLine)
            } else {
                let rl = SpecRequestLine { method: toks[0], target: toks[1], version: toks[2] };
                match spec_parse_header_fields(s, j + 1, Seq::empty()) {
                    Err(e) => Err(e),
                    Ok(p) => match spec_content_length(p.0) {
                        None => Ok(
                            (
                                SpecRequest {
                                    request_line: rl,
                                    headers: p.0,
                                    body: Seq::empty(),
                                },
                                p.1,
                            ),
                        ),
                        Some(n) => if p.1 + n <= s.len() {
                            Ok(
                                (
                                    SpecRequest {
                                        request_line: rl,
                                        headers: p.0,
                                        body: s.subrange(p.1, p.1 + n),
                                    },
                                    p.1 + n,
                                ),
                            )
                        } else {
                            Err(ParseError::IncompleteBody)
                        },
                    },
                }
            }
        },
    }
}

/// First-seen-wins over a whole header block: once `name` is mapped, no
/// later line — whatever it holds — changes what the name maps to.
pub proof fn lemma_first_seen_wins(
    s: Seq<u8>,
    i: int,
    acc: Seq<SpecHeader>,
    name: Seq<u8>,
    vs: Seq<Seq<u8>>,
)
    requires
        0 <= i <= s.len(),
        hdr_lookup(acc, name) == Some(vs),
        spec_parse_header_fields(s, i, acc) is Ok,
    ensures
        hdr_lookup(spec_parse_header_fields(s, i, acc)->Ok_0.0, name) == Some(vs),
    decreases s.len() - i,
{
    crate::bytes::lemma_find_from_props(s, i, NL);
    match find_from(s, i, NL) {
        None => {
        },
        Some(j) => {
            let line = trim(s.subrange(i, j));
            if line.len() == 0 {
            } else {
                match find_from(line, 0, COLON) {
                    None => {
                    },
                    Some(c) => {
                        let n2 = trim(line.subrange(0, c));
                        let v2 = split_commas_from(line.subrange(c + 1, line.len() as int), 0);
                        let acc2 = hdr_insert_first_wins(acc, n2, v2);
                        if hdr_lookup(acc, n2) is None {
                            crate::msg::lemma_hdr_lookup_push(
                                acc,
                                SpecHeader { name: n2, values: v2 },
                                name,
                            );
                        }
                        lemma_first_seen_wins(s, j + 1, acc2, name, vs);
                    },
                }
            }
        },
    }
}

/// The header block's end never lies past the input's end.
pub proof fn lemma_parse_header_fields_pos(s: Seq<u8>, i: int, acc: Seq<SpecHeader>)
    requires
        0 <= i <= s.len(),
        spec_parse_header_fields(s, i, acc) is Ok,
    ensures
        i < spec_parse_header_fields(s, i, acc)->Ok_0.1 <= s.len(),
    decreases s.len() - i,
{
    crate::bytes::lemma_find_from_props(s, i, NL);
    match find_from(s, i, NL) {
        None => {
        },
        Some(j) => {
            let line = trim(s.subrange(i, j));
            if line.len() != 0 {
                match find_from(line, 0, COLON) {
                    None => {
                    },
                    Some(c) => {
                        let n2 = trim(line.subrange(0, c));
                        let v2 = split_commas_from(line.subrange(c + 1, line.len() as int), 0);
                        lemma_parse_header_fields_pos(s, j + 1, hdr_insert_first_wins(acc, n2, v2));
                    },
                }
            }
        },
    }
}

/// Appending bytes to an input whose first occurrence of `b` is already
/// found does not move that occurrence.
proof fn lemma_find_from_prefix(s: Seq<u8>, e: Seq<u8>, i: int, b: u8)
    requires
        0 <= i,
        find_from(s, i, b) is Some,
    ensures
        find_from(s + e, i, b) == find_from(s, i, b),
    decreases s.len() - i,
{
    assert((s + e)[i] == s[i]);
    if s[i] != b {
        lemma_find_from_prefix(s, e, i + 1, b);
    }
}

/// A header block that parsed whole is unaffected by bytes beyond it.
proof fn lemma_parse_header_fields_prefix(s: Seq<u8>, e: Seq<u8>, i: int, acc: Seq<SpecHeader>)
    requires
        0 <= i <= s.len(),
        spec_parse_header_fields(s, i, acc) is Ok,
    ensures
        spec_parse_header_fields(s + e, i, acc) == spec_parse_header_fields(s, i, acc),
    decreases s.len() - i,
{
    crate::bytes::lemma_find_from_props(s, i, NL);
    match find_from(s, i, NL) {
        None => {
        },
        Some(j) => {
            lemma_find_from_prefix(s, e, i, NL);
            assert((s + e).subrange(i, j) =~= s.subrange(i, j));
            let line = trim(s.subrange(i, j));
            if line.len() != 0 {
                match find_from(line, 0, COLON) {
                    None => {
                    },
                    Some(c) => {
                        let n2 = trim(line.subrange(0, c));
                        let v2 = split_commas_from(line.subrange(c + 1, line.len() as int), 0);
                        lemma_parse_header_fields_prefix(s, e, j + 1, hdr_insert_first_wins(acc, n2, v2));
                    },
                }
            }
        },
    }
}

/// The parser consumes the start line, the header block, and exactly the
/// body its `Content-Length` asks for — and not a byte more: whatever
/// `extra` later arrives on the stream, the result is unchanged.
pub proof fn lemma_parser_consumes_exactly(s: Seq<u8>, extra: Seq<u8>)
    requires
        spec_parse_request(s) is Ok,
    ensures
        spec_parse_request(s + extra) == spec_parse_request(s),
        0 < spec_parse_request(s)->Ok_0.1 <= s.len(),
        (match spec_content_length(spec_parse_request(s)->Ok_0.0.headers) {
            Some(cl) => spec_parse_request(s)->Ok_0.0.body.len() == cl && spec_parse_request(
                s,
            )->Ok_0.1 == cl + spec_parse_header_fields(
                s,
                find_from(s, 0, NL)->Some_0 + 1,
                Seq::empty(),
            )->Ok_0.1,
            None => spec_parse_request(s)->Ok_0.0.body.len() == 0,
        }),
{
    crate::bytes::lemma_find_from_props(s, 0, NL);
    let j = find_from(s, 0, NL)->Some_0;
    lemma_find_from_prefix(s, extra, 0, NL);
    assert((s + extra).subrange(0, j) =~= s.subrange(0, j));
    lemma_parse_header_fields_prefix(s, extra, j + 1, Seq::empty());
    lemma_parse_header_fields_pos(s, j + 1, Seq::empty());
    let p = spec_parse_header_fields(s, j + 1, Seq::empty())->Ok_0;
    match spec_content_length(p.0) {
        None => {
        },
        Some(cl) => {
            match hdr_lookup(p.0, crate::consts::content_length_b()) {
                None => {
                },
                Some(vs) => {
                    let t = if vs[0].len() > 0 && vs[0][0] == crate::bytes::PLUS {
                        vs[0].drop_first()
                    } else {
                        vs[0]
                    };
                    assert(crate::bytes::all_digits(t));
                    crate::bytes::lemma_digits_val_nonneg(t);
                    assert(cl >= 0);
                    assert((s + extra).subrange(p.1, p.1 + cl) =~= s.subrange(p.1, p.1 + cl));
                },
            }
        },
    }
}

/// Reads the header block; every entry keeps at least one value.
fn parse_header_fields(input: &Vec<u8>, start: usize) -> (r: Result<(Vec<Header>, usize), ParseError>)
    requires
        start <= input@.len(),
    ensures
        match spec_parse_header_fields(input@, start as int, Seq::empty()) {
            Ok(p) => r matches Ok(q) && hmodel(q.0@) == p.0 && q.1 == p.1 && q.1 <= input@.len()
                && (forall|x: int| 0 <= x < q.0@.len() ==> (#[trigger] q.0@[x]@.values).len() >= 1),
            Err(e) => r matches Err(e2) && e2 == e,
        },
{
    let mut headers: Vec<Header> = Vec::new();
    proof {
        assert(hmodel(headers@) =~= Seq::<SpecHeader>::empty());
    }
    let mut i: usize = start;
    loop
        invariant
            start <= i <= input@.len(),
            spec_parse_header_fields(input@, start as int, Seq::empty())
                == spec_parse_header_fields(input@, i as int, hmodel(headers@)),
            forall|x: int| 0 <= x < headers@.len() ==> (#[trigger] headers@[x]@.values).len() >= 1,
        decreases input@.len() - i,
    {
        let ghost acc = hmodel(headers@);
        match find_byte(input, i, NL) {
            None => {
                return Err(ParseError::TruncatedHeaders);
            },
            Some(nl) => {
                let raw = copy_range(input, i, nl);
                let line = trim_vec(&raw);
                if line.len() == 0 {
                    proof {
                        assert(spec_parse_header_fields(input@, i as int, acc) == Ok::<
                            (Seq<SpecHeader>, int),
                            ParseError,
                        >((acc, nl + 1)));
                    }
                    return Ok((headers, nl + 1));
                }
                match find_byte(&line, 0, COLON) {
                    None => {
                        return Err(ParseError::MalformedHeader);
                    },
                    Some(c) => {
                        let rawname = copy_range(&line, 0, c);
                        let name = trim_vec(&rawname);
                        let rest = copy_range(&line, c + 1, line.len());
                        let values = split_commas(&rest);
                        proof {
                            assert(split_commas_from(rest@, 0).len() >= 1);
                            assert(values@.len() >= 1);
                        }
                        let ghost namespec = trim(line@.subrange(0, c as int));
                        let ghost valspec = split_commas_from(
                            line@.subrange(c + 1 as int, line@.len() as int),
                            0,
                        );
                        proof {
                            assert(name@ == namespec);
                            assert(values.deep_view() == valspec);
                            assert(spec_parse_header_fields(input@, i as int, acc)
                                == spec_parse_header_fields(
                                input@,
                                nl + 1 as int,
                                hdr_insert_first_wins(acc, namespec, valspec),
                            ));
                        }
                        proof {
                            assert forall|x: int| 0 <= x < acc.len() implies (#[trigger] acc[x].values).len()
                                >= 1 by {
                                assert(acc[x] == headers@[x]@);
                            }
                        }
                        insert_first_wins(&mut headers, name, values);
                        proof {
                            let newm = hmodel(headers@);
                            assert forall|x: int| 0 <= x < headers@.len() implies (#[trigger] headers@[x]@.values).len()
                                >= 1 by {
                                assert(headers@[x]@ == newm[x]);
                                if hdr_lookup(acc, namespec) is Some {
                                    assert(newm[x] == acc[x]);
                                } else {
                                    assert(newm == acc.push(
                                        SpecHeader { name: namespec, values: valspec },
                                    ));
                                    if x < acc.len() {
                                        assert(newm[x] == acc[x]);
                                    } else {
                                        assert(newm[x].values == valspec);
                                    }
                                }
                            }
                        }
                        i = nl + 1;
                    },
                }
            },
        }
    }
}

impl Request {
    /// Parses one request out of `input`. On success the returned count says
    /// how many leading bytes the request occupied; bytes after it are not
    /// read. The errors `TruncatedHeaders` and `IncompleteBody` also say
    /// that a longer input could still parse; the other two are final.
    pub fn parse(input: &Vec<u8>) -> (r: Result<(Request, usize), ParseError>)
        ensures
            (match spec_parse_request(input@) {
                Ok(m) => r matches Ok(p) && p.0@ == m.0 && p.1 == m.1,
                Err(e) => r matches Err(e2) && e2 == e,
            }),
    {
        let j = match find_byte(input, 0, NL) {
            Some(j) => j,
            None => {
                return Err(ParseError::TruncatedHeaders);
            },
        };
        let line0 = copy_range(input, 0, j);
        let mut toks = split_ws_vec(&line0);
        if toks.len() != 3 {
            return Err(ParseError::MalformedStartLine);
        }
        let ghost tokspec = split_ws_from(input@.subrange(0, j as int), 0);
        proof {
            assert(toks.deep_view() == tokspec);
            assert(toks.deep_view().len() == 3);
        }
        let version = match toks.pop() {
            Some(t) => t,
            None => vstd::pervasive::unreached(),
        };
        let target = match toks.pop() {
            Some(t) => t,
            None => vstd::pervasive::unreached(),
        };
        let method = match toks.pop() {
            Some(t) => t,
            None => vstd::pervasive::unreached(),
        };
        proof {
            assert(method@ =~= tokspec[0]);
            assert(target@ =~= tokspec[1]);
            assert(version@ =~= tokspec[2]);
        }
        let (headers, after) = match parse_header_fields(input, j + 1) {
            Ok(q) => q,
            Err(e) => {
                return Err(e);
            },
        };
        let request_line = RequestLine { method, target, version };
        let clname = content_length_v();
        match find_header(&headers, &clname) {
            None => {
                let req = Request { request_line, headers, body: Vec::new() };
                proof {
                    let m = spec_parse_request(input@)->Ok_0;
                    assert(req@ =~~= m.0);
                }
                Ok((req, after))
            },
            Some(k) => {
                let hk = &headers[k];
                let v0 = &hk.values[0];
                proof {
                    assert(hmodel(headers@)[k as int].values[0] =~= v0@);
                }
                match parse_usize_bytes(v0) {
                    None => {
                        let req = Request { request_line, headers, body: Vec::new() };
                        proof {
                            assert(spec_content_length(hmodel(req.headers@)) is None);
                            let m = spec_parse_request(input@)->Ok_0;
                            assert(req@ =~~= m.0);
                        }
                        Ok((req, after))
                    },
                    Some(n) => {
                        if n <= input.len() - after {
                            let body = copy_range(input, after, after + n);
                            let req = Request { request_line, headers, body };
                            proof {
                                let m = spec_parse_request(input@)->Ok_0;
                                assert(req@ =~~= m.0);
                            }
                            Ok((req, after + n))
                        } else {
                            Err(ParseError::IncompleteBody)
                        }
                    },
                }
            },
        }
    }
}

} // verus!
