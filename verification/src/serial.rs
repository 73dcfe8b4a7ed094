//! The response serializer: status line, header block, blank line, body —
//! with `Content-Length` recomputed from the body at the last moment.
use vstd::prelude::*;
use crate::bytes::{dec_digits, push_decimal, is_ws, all_digits, NL, CR, SP, COLON, COMMA};
use crate::consts::{comma_space_b, colon_space_b, crlf_b, content_length_b, content_length_v};
use crate::msg::{
    SpecHeader, SpecStatusLine, SpecResponse, StatusLine, Response, hmodel, hdr_upsert, upsert,
    headers_wf, header_wf, header_name_ok, header_value_ok,
};

verus! {

/// `<version> <code> <reason-or-empty>`.
pub open spec fn spec_status_line_bytes(sl: SpecStatusLine) -> Seq<u8> {
    sl.version + seq![SP] + dec_digits(sl.status_code as int) + seq![SP] + (match sl
        .reason_phrase {
        Some(r) => r,
        None => Seq::empty(),
    })
}

/// `", " <values[i]> ", " <values[i+1]> ...`
pub open spec fn join_rest(vals: Seq<Seq<u8>>, i: int) -> Seq<u8>
    decreases vals.len() - i,
{
    if 1 <= i < vals.len() {
        comma_space_b() + vals[i] + join_rest(vals, i + 1)
    } else {
        Seq::empty()
    }
}

/// The values joined with `", "`.
pub open spec fn join_values(vals: Seq<Seq<u8>>) -> Seq<u8> {
    if vals.len() == 0 {
        Seq::empty()
    } else {
        vals[0] + join_rest(vals, 1)
    }
}

/// `<name>: <joined values>` and the line break.
pub open spec fn header_line_bytes(h: SpecHeader) -> Seq<u8> {
    h.name + colon_space_b() + join_values(h.values) + crlf_b()
}

/// The rendered entries at or after `i`, in order.
pub open spec fn headers_bytes_from(hs: Seq<SpecHeader>, i: int) -> Seq<u8>
    decreases hs.len() - i,
{
    if 0 <= i < hs.len() {
        header_line_bytes(hs[i]) + headers_bytes_from(hs, i + 1)
    } else {
        Seq::empty()
    }
}

/// The exact wire form of a response value.
pub open spec fn spec_serialize_response(m: SpecResponse) -> Seq<u8> {
    spec_status_line_bytes(m.status_line) + crlf_b() + headers_bytes_from(m.headers, 0) + crlf_b()
        + m.body
}

/// The values joined with `", "`, as a fresh vector.
pub fn join_values_exec(vals: &Vec<Vec<u8>>) -> (r: Vec<u8>)
    ensures
        r@ == join_values(vals.deep_view()),
{
    let ghost vs = vals.deep_view();
    let mut out: Vec<u8> = Vec::new();
    if vals.len() == 0 {
        proof {
            assert(out@ =~= join_values(vs));
        }
        return out;
    }
    let mut t: usize = 0;
    while t < vals.len()
        invariant
            0 <= t <= vs.len(),
            vs.len() >= 1,
            vs == vals.deep_view(),
            t == 0 ==> out@ == Seq::<u8>::empty(),
            1 <= t ==> out@ + join_rest(vs, t as int) == join_values(vs),
        decreases vs.len() - t,
    {
        let ghost prev = out@;
        if t > 0 {
            out.push(COMMA);
            out.push(SP);
        }
        out.extend_from_slice(vals[t].as_slice());
        proof {
            assert(vs[t as int] =~= vals@[t as int]@);
            if t == 0 {
                assert(out@ =~= vs[0]);
                assert(vs[0] + join_rest(vs, 1) =~= join_values(vs));
            } else {
                assert(out@ =~= prev + comma_space_b() + vs[t as int]);
                assert(join_rest(vs, t as int) == comma_space_b() + vs[t as int] + join_rest(
                    vs,
                    t + 1 as int,
                ));
                assert(prev + comma_space_b() + vs[t as int] + join_rest(vs, t + 1 as int) =~= prev
                    + join_rest(vs, t as int));
            }
        }
        t = t + 1;
    }
    proof {
        assert(join_rest(vs, vs.len() as int) == Seq::<u8>::empty());
        assert(out@ + Seq::<u8>::empty() =~= out@);
    }
    out
}

impl StatusLine {
    pub fn to_bytes(&self) -> (r: Vec<u8>)
        ensures
            r@ == spec_status_line_bytes(self@),
    {
        let mut out: Vec<u8> = Vec::new();
        out.extend_from_slice(self.version.as_slice());
        out.push(SP);
        push_decimal(&mut out, self.status_code as usize);
        out.push(SP);
        match &self.reason_phrase {
            Some(r) => out.extend_from_slice(r.as_slice()),
            None => {
            },
        }
        proof {
            assert(out@ =~= spec_status_line_bytes(self@));
        }
        out
    }
}

/// The refreshed `Content-Length` entry is itself well formed.
pub proof fn lemma_content_length_header_wf(n: int)
    requires
        0 <= n,
    ensures
        header_wf(SpecHeader { name: content_length_b(), values: seq![dec_digits(n)] }),
{
    crate::bytes::lemma_dec_digits_roundtrip(n);
    let d = dec_digits(n);
    assert(header_name_ok(content_length_b()));
    assert forall|k: int| 0 <= k < d.len() implies d[k] != NL && d[k] != COMMA by {
        assert(crate::bytes::is_digit(d[k]));
    }
    assert(crate::bytes::is_digit(d[0]));
    assert(crate::bytes::is_digit(d[d.len() - 1]));
    assert(header_value_ok(d));
    assert(seq![d].len() == 1 && seq![d][0] == d);
}

/// Overwriting one entry with a well-formed one keeps the block well formed,
/// and afterwards the name maps to the new values.
pub proof fn lemma_hdr_upsert_wf(hs: Seq<SpecHeader>, name: Seq<u8>, values: Seq<Seq<u8>>)
    requires
        headers_wf(hs),
        header_wf(SpecHeader { name, values }),
    ensures
        headers_wf(hdr_upsert(hs, name, values)),
        crate::msg::hdr_lookup(hdr_upsert(hs, name, values), name) == Some(values),
    decreases hs.len(),
{
    let out = hdr_upsert(hs, name, values);
    if hs.len() == 0 {
        assert(out =~= seq![SpecHeader { name, values }]);
    } else if hs[0].name == name {
        assert(out =~= seq![SpecHeader { name, values }] + hs.drop_first());
        assert forall|i: int| 0 <= i < out.len() implies header_wf(#[trigger] out[i]) by {
            if i > 0 {
                assert(out[i] == hs[i]);
            }
        }
        assert forall|i: int, j: int| 0 <= i < j < out.len() implies out[i].name != out[j].name by {
            assert(out[j] == hs[j]);
            if i > 0 {
                assert(out[i] == hs[i]);
            }
        }
    } else {
        assert(headers_wf(hs.drop_first())) by {
            assert(forall|i: int|
                0 <= i < hs.drop_first().len() ==> hs.drop_first()[i] == hs[i + 1]);
        }
        lemma_hdr_upsert_wf(hs.drop_first(), name, values);
        let rec = hdr_upsert(hs.drop_first(), name, values);
        assert(out =~= seq![hs[0]] + rec);
        assert forall|i: int| 0 <= i < out.len() implies header_wf(#[trigger] out[i]) by {
            if i > 0 {
                assert(out[i] == rec[i - 1]);
            }
        }
        assert forall|i: int, j: int| 0 <= i < j < out.len() implies out[i].name != out[j].name by {
            if i > 0 {
                assert(out[i] == rec[i - 1] && out[j] == rec[j - 1]);
            } else {
                assert(out[j] == rec[j - 1]);
                lemma_upsert_names(hs.drop_first(), name, values, j - 1);
            }
        }
        assert(crate::msg::hdr_lookup(out, name) == crate::msg::hdr_lookup(out.drop_first(), name))
            by {
            assert(out[0] == hs[0]);
        }
        assert(out.drop_first() =~= rec);
    }
}

/// Every name in the overwritten block was there before, or is the new one.
proof fn lemma_upsert_names(hs: Seq<SpecHeader>, name: Seq<u8>, values: Seq<Seq<u8>>, j: int)
    requires
        0 <= j < hdr_upsert(hs, name, values).len(),
    ensures
        hdr_upsert(hs, name, values)[j].name == name || exists|k: int|
            0 <= k < hs.len() && hs[k].name == hdr_upsert(hs, name, values)[j].name,
    decreases hs.len(),
{
    let out = hdr_upsert(hs, name, values);
    if hs.len() == 0 {
    } else if hs[0].name == name {
        if j > 0 {
            assert(out[j] == hs.drop_first()[j - 1]);
            assert(hs[j] == out[j]);
        }
    } else {
        if j == 0 {
            assert(out[0] == hs[0]);
        } else {
            let rec = hdr_upsert(hs.drop_first(), name, values);
            assert(out[j] == rec[j - 1]);
            lemma_upsert_names(hs.drop_first(), name, values, j - 1);
            if rec[j - 1].name != name {
                let k = choose|k: int|
                    0 <= k < hs.drop_first().len() && hs.drop_first()[k].name == rec[j - 1].name;
                assert(hs[k + 1].name == out[j].name);
            }
        }
    }
}

impl Response {
    /// Renders the wire bytes, first overwriting `Content-Length` with the
    /// current body length; the headers keep their order otherwise.
    pub fn to_bytes(&mut self) -> (r: Vec<u8>)
        requires
            old(self).wf(),
        ensures
            final(self)@.status_line == old(self)@.status_line,
            final(self)@.body == old(self)@.body,
            final(self)@.headers == hdr_upsert(
                old(self)@.headers,
                content_length_b(),
                seq![dec_digits(old(self)@.body.len() as int)],
            ),
            final(self).wf(),
            r@ == spec_serialize_response(final(self)@),
    {
        let mut clv: Vec<u8> = Vec::new();
        push_decimal(&mut clv, self.body.len());
        let mut vals: Vec<Vec<u8>> = Vec::new();
        vals.push(clv);
        proof {
            assert(vals.deep_view() =~~= seq![dec_digits(old(self)@.body.len() as int)]);
            lemma_content_length_header_wf(old(self)@.body.len() as int);
            lemma_hdr_upsert_wf(
                old(self)@.headers,
                content_length_b(),
                seq![dec_digits(old(self)@.body.len() as int)],
            );
        }
        upsert(&mut self.headers, content_length_v(), vals);
        let ghost m = self@;
        let mut out = self.status_line.to_bytes();
        out.push(CR);
        out.push(NL);
        proof {
            assert(out@ =~= spec_status_line_bytes(m.status_line) + crlf_b());
        }
        let mut k: usize = 0;
        while k < self.headers.len()
            invariant
                0 <= k <= self.headers@.len(),
                self@ == m,
                self.wf(),
                out@ + headers_bytes_from(m.headers, k as int) == spec_status_line_bytes(
                    m.status_line,
                ) + crlf_b() + headers_bytes_from(m.headers, 0),
            decreases self.headers@.len() - k,
        {
            let ghost pre = out@;
            let ghost hk = m.headers[k as int];
            let h = &self.headers[k];
            proof {
                assert(h@ == hk);
                assert(header_wf(hk));
            }
            out.extend_from_slice(h.name.as_slice());
            out.push(COLON);
            out.push(SP);
            proof {
                assert(out@ =~= pre + hk.name + colon_space_b());
            }
            let ghost base = out@;
            let ghost vs = hk.values;
            let mut t: usize = 0;
            while t < h.values.len()
                invariant
                    0 <= t <= vs.len(),
                    vs.len() >= 1,
                    vs == h@.values,
                    h@ == hk,
                    t == 0 ==> out@ == base,
                    1 <= t ==> out@ + join_rest(vs, t as int) == base + join_values(vs),
                decreases vs.len() - t,
            {
                let ghost prev = out@;
                if t > 0 {
                    out.push(COMMA);
                    out.push(SP);
                }
                out.extend_from_slice(h.values[t].as_slice());
                proof {
                    assert(vs[t as int] =~= h.values@[t as int]@);
                    if t == 0 {
                        assert(out@ =~= base + vs[0]);
                        assert(base + vs[0] + join_rest(vs, 1) =~= base + join_values(vs));
                    } else {
                        assert(out@ =~= prev + comma_space_b() + vs[t as int]);
                        assert(join_rest(vs, t as int) == comma_space_b() + vs[t as int]
                            + join_rest(vs, t + 1 as int));
                        assert(prev + comma_space_b() + vs[t as int] + join_rest(vs, t + 1 as int)
                            =~= prev + join_rest(vs, t as int));
                    }
                }
                t = t + 1;
            }
            proof {
                assert(join_rest(vs, vs.len() as int) == Seq::<u8>::empty());
                if vs.len() == 1 {
                    assert(out@ =~= base + join_values(vs));
                } else {
                    assert(out@ + Seq::<u8>::empty() =~= out@);
                }
                assert(out@ == base + join_values(vs));
            }
            out.push(CR);
            out.push(NL);
            proof {
                assert(out@ =~= pre + header_line_bytes(hk));
                assert(headers_bytes_from(m.headers, k as int) == header_line_bytes(hk)
                    + headers_bytes_from(m.headers, k + 1 as int));
                assert(pre + header_line_bytes(hk) + headers_bytes_from(m.headers, k + 1 as int)
                    =~= pre + headers_bytes_from(m.headers, k as int));
            }
            k = k + 1;
        }
        proof {
            assert(headers_bytes_from(m.headers, m.headers.len() as int) == Seq::<u8>::empty());
            assert(out@ + Seq::<u8>::empty() =~= out@);
        }
        out.push(CR);
        out.push(NL);
        out.extend_from_slice(self.body.as_slice());
        proof {
            assert(out@ =~= spec_status_line_bytes(m.status_line) + crlf_b() + headers_bytes_from(
                m.headers,
                0,
            ) + crlf_b() + m.body);
        }
        out
    }
}

} // verus!
