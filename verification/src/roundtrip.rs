//! Serializing a response and re-reading its header block as `name: value`
//! lines gives back exactly the headers it was built from — in particular
//! the `Content-Length` it carries re-parses to the body's length.
use vstd::prelude::*;
use crate::bytes::{
    find_from, trim, split_commas_from, parse_decimal, dec_digits, is_ws, sk_ws, bk_ws,
    lemma_sk_ws_end, lemma_bk_ws_end, lemma_trim_of_trimmed, lemma_find_from_props,
    lemma_dec_digits_roundtrip, NL, CR, SP, COLON, COMMA, PLUS,
};
use crate::consts::{crlf_b, comma_space_b, colon_space_b, content_length_b};
use crate::msg::{
    SpecHeader, SpecResponse, hdr_lookup, hdr_insert_first_wins, lemma_hdr_lookup_none,
    headers_wf, header_wf, header_name_ok, header_value_ok,
};
use crate::parse::{spec_parse_header_fields, spec_content_length, ParseError};
use crate::serial::{
    join_rest, join_values, header_line_bytes, headers_bytes_from, spec_status_line_bytes,
    spec_serialize_response,
};

verus! {

proof fn lemma_find_from_is(s: Seq<u8>, i: int, p: int, b: u8)
    requires
        0 <= i <= p < s.len(),
        s[p] == b,
        forall|k: int| i <= k < p ==> s[k] != b,
    ensures
        find_from(s, i, b) == Some(p),
    decreases p - i,
{
    if i < p {
        lemma_find_from_is(s, i + 1, p, b);
    }
}

proof fn lemma_find_from_none(s: Seq<u8>, i: int, b: u8)
    requires
        0 <= i <= s.len(),
        forall|k: int| i <= k < s.len() ==> s[k] != b,
    ensures
        find_from(s, i, b) is None,
    decreases s.len() - i,
{
    if i < s.len() {
        lemma_find_from_none(s, i + 1, b);
    }
}

/// Joined well-formed values hold no line break.
proof fn lemma_join_rest_no_nl(vs: Seq<Seq<u8>>, i: int)
    requires
        1 <= i,
        forall|x: int| 0 <= x < vs.len() ==> header_value_ok(#[trigger] vs[x]),
    ensures
        forall|k: int|
            0 <= k < join_rest(vs, i).len() ==> #[trigger] join_rest(vs, i)[k] != NL,
    decreases vs.len() - i,
{
    if 1 <= i < vs.len() {
        lemma_join_rest_no_nl(vs, i + 1);
        assert forall|k: int|
            0 <= k < join_rest(vs, i).len() implies #[trigger] join_rest(vs, i)[k] != NL by {
            let j = join_rest(vs, i);
            let cs = comma_space_b();
            if k < 2 {
                assert(j[k] == cs[k]);
            } else if k < 2 + vs[i].len() {
                assert(j[k] == vs[i][k - 2]);
            } else {
                assert(j[k] == join_rest(vs, i + 1)[k - 2 - vs[i].len()]);
            }
        }
    }
}

proof fn lemma_join_values_no_nl(vs: Seq<Seq<u8>>)
    requires
        forall|x: int| 0 <= x < vs.len() ==> header_value_ok(#[trigger] vs[x]),
    ensures
        forall|k: int|
            0 <= k < join_values(vs).len() ==> #[trigger] join_values(vs)[k] != NL,
{
    if vs.len() > 0 {
        lemma_join_rest_no_nl(vs, 1);
        assert forall|k: int|
            0 <= k < join_values(vs).len() implies #[trigger] join_values(vs)[k] != NL by {
            if k < vs[0].len() {
                assert(join_values(vs)[k] == vs[0][k]);
            } else {
                assert(join_values(vs)[k] == join_rest(vs, 1)[k - vs[0].len()]);
            }
        }
    }
}

/// Joined well-formed values are non-empty and end with a non-space byte.
proof fn lemma_join_rest_ends(vs: Seq<Seq<u8>>, i: int)
    requires
        1 <= i < vs.len(),
        forall|x: int| 0 <= x < vs.len() ==> header_value_ok(#[trigger] vs[x]),
    ensures
        join_rest(vs, i).len() > 0,
        !is_ws(join_rest(vs, i)[join_rest(vs, i).len() - 1]),
    decreases vs.len() - i,
{
    let j = join_rest(vs, i);
    if i + 1 < vs.len() {
        lemma_join_rest_ends(vs, i + 1);
        assert(j[j.len() - 1] == join_rest(vs, i + 1)[join_rest(vs, i + 1).len() - 1]);
    } else {
        assert(join_rest(vs, i + 1) == Seq::<u8>::empty());
        assert(j[j.len() - 1] == vs[i][vs[i].len() - 1]);
    }
}

proof fn lemma_join_values_ends(vs: Seq<Seq<u8>>)
    requires
        vs.len() >= 1,
        forall|x: int| 0 <= x < vs.len() ==> header_value_ok(#[trigger] vs[x]),
    ensures
        join_values(vs).len() > 0,
        !is_ws(join_values(vs)[join_values(vs).len() - 1]),
{
    let j = join_values(vs);
    if vs.len() == 1 {
        assert(join_rest(vs, 1) == Seq::<u8>::empty());
        assert(j =~= vs[0]);
    } else {
        lemma_join_rest_ends(vs, 1);
        assert(j[j.len() - 1] == join_rest(vs, 1)[join_rest(vs, 1).len() - 1]);
    }
}

proof fn lemma_join_rest_drop(vs: Seq<Seq<u8>>, i: int)
    requires
        1 <= i,
        vs.len() >= 1,
    ensures
        join_rest(vs, i + 1) == join_rest(vs.drop_first(), i),
    decreases vs.len() - i,
{
    if i + 1 < vs.len() {
        lemma_join_rest_drop(vs, i + 1);
        assert(vs.drop_first()[i] == vs[i + 1]);
    } else {
        assert(join_rest(vs, i + 1) == Seq::<u8>::empty());
        assert(join_rest(vs.drop_first(), i) == Seq::<u8>::empty());
    }
}

/// For two or more values the join decomposes head-first.
proof fn lemma_join_drop(vs: Seq<Seq<u8>>)
    requires
        vs.len() >= 2,
    ensures
        join_values(vs) == vs[0] + comma_space_b() + join_values(vs.drop_first()),
{
    lemma_join_rest_drop(vs, 1);
    assert(vs.drop_first()[0] == vs[1]);
    assert(join_rest(vs, 1) == comma_space_b() + vs[1] + join_rest(vs, 2));
    assert(join_values(vs.drop_first()) == vs[1] + join_rest(vs.drop_first(), 1));
    assert(vs[0] + comma_space_b() + (vs[1] + join_rest(vs, 2)) =~= vs[0] + (comma_space_b()
        + vs[1] + join_rest(vs, 2)));
}

proof fn lemma_find_from_shift(s: Seq<u8>, i: int, j: int, b: u8)
    requires
        0 <= i <= j <= s.len(),
    ensures
        (match find_from(s, j, b) {
            Some(p) => find_from(s.skip(i), j - i, b) == Some(p - i),
            None => find_from(s.skip(i), j - i, b) is None,
        }),
    decreases s.len() - j,
{
    if j < s.len() {
        assert(s.skip(i)[j - i] == s[j]);
        if s[j] != b {
            lemma_find_from_shift(s, i, j + 1, b);
        }
    }
}

proof fn lemma_split_commas_shift(s: Seq<u8>, i: int, j: int)
    requires
        0 <= i <= j <= s.len(),
    ensures
        split_commas_from(s, j) == split_commas_from(s.skip(i), j - i),
    decreases s.len() - j,
{
    lemma_find_from_props(s, j, COMMA);
    lemma_find_from_shift(s, i, j, COMMA);
    match find_from(s, j, COMMA) {
        Some(p) => {
            assert(s.subrange(j, p) =~= s.skip(i).subrange(j - i, p - i));
            lemma_split_commas_shift(s, i, p + 1);
        },
        None => {
            assert(s.subrange(j, s.len() as int) =~= s.skip(i).subrange(
                j - i,
                s.skip(i).len() as int,
            ));
        },
    }
}

/// Splitting `" "` plus the joined values on commas gives the values back.
proof fn lemma_split_join(vs: Seq<Seq<u8>>)
    requires
        vs.len() >= 1,
        forall|x: int| 0 <= x < vs.len() ==> header_value_ok(#[trigger] vs[x]),
    ensures
        split_commas_from(seq![SP] + join_values(vs), 0) == vs,
    decreases vs.len(),
{
    let s = seq![SP] + join_values(vs);
    let v0 = vs[0];
    if vs.len() == 1 {
        assert(join_rest(vs, 1) == Seq::<u8>::empty());
        assert(s =~= seq![SP] + v0);
        assert forall|k: int| 0 <= k < s.len() implies s[k] != COMMA by {
            if k > 0 {
                assert(s[k] == v0[k - 1]);
            }
        }
        lemma_find_from_none(s, 0, COMMA);
        assert(!is_ws(s[1]));
        lemma_sk_ws_end(s, 0, 1);
        lemma_bk_ws_end(s, 1, s.len() as int, s.len() as int);
        assert(trim(s.subrange(0, s.len() as int)) =~= v0) by {
            assert(s.subrange(0, s.len() as int) =~= s);
            assert(trim(s) == s.subrange(1, s.len() as int));
            assert(s.subrange(1, s.len() as int) =~= v0);
        }
        assert(split_commas_from(s, 0) =~= vs);
    } else {
        lemma_join_drop(vs);
        let c: int = 1 + v0.len() as int;
        assert(s =~= seq![SP] + v0 + comma_space_b() + join_values(vs.drop_first()));
        assert(s[c] == comma_space_b()[0]);
        assert forall|k: int| 0 <= k < c implies s[k] != COMMA by {
            if k > 0 {
                assert(s[k] == v0[k - 1]);
            }
        }
        lemma_find_from_is(s, 0, c, COMMA);
        assert(!is_ws(s[1]));
        lemma_sk_ws_end(s.subrange(0, c), 0, 1);
        lemma_bk_ws_end(s.subrange(0, c), 1, c, c);
        assert(trim(s.subrange(0, c)) =~= v0) by {
            assert(forall|k: int| 1 <= k < c ==> s.subrange(0, c)[k] == v0[k - 1]);
            assert(trim(s.subrange(0, c)) == s.subrange(0, c).subrange(1, c));
            assert(s.subrange(0, c).subrange(1, c) =~= v0);
        }
        lemma_split_commas_shift(s, c + 1, c + 1);
        assert(s.skip(c + 1) =~= seq![SP] + join_values(vs.drop_first()));
        lemma_split_join(vs.drop_first());
        assert(split_commas_from(s, c + 1) == vs.drop_first());
        assert(seq![trim(s.subrange(0, c))] + vs.drop_first() =~= vs);
    }
}

/// Parsing from a later position equals parsing the suffix, shifted.
proof fn lemma_phf_shift(s: Seq<u8>, i: int, j: int, acc: Seq<SpecHeader>)
    requires
        0 <= i <= j <= s.len(),
    ensures
        (match spec_parse_header_fields(s.skip(i), j - i, acc) {
            Ok(p) => spec_parse_header_fields(s, j, acc) == Ok::<(Seq<SpecHeader>, int), ParseError>(
                (p.0, p.1 + i),
            ),
            Err(e) => spec_parse_header_fields(s, j, acc) == Err::<
                (Seq<SpecHeader>, int),
                ParseError,
            >(e),
        }),
    decreases s.len() - j,
{
    lemma_find_from_props(s, j, NL);
    lemma_find_from_shift(s, i, j, NL);
    match find_from(s, j, NL) {
        None => {
        },
        Some(p) => {
            assert(s.subrange(j, p) =~= s.skip(i).subrange(j - i, p - i));
            let line = trim(s.subrange(j, p));
            if line.len() != 0 {
                match find_from(line, 0, COLON) {
                    None => {
                    },
                    Some(c) => {
                        lemma_phf_shift(
                            s,
                            i,
                            p + 1,
                            hdr_insert_first_wins(
                                acc,
                                trim(line.subrange(0, c)),
                                split_commas_from(line.subrange(c + 1, line.len() as int), 0),
                            ),
                        );
                    },
                }
            }
        },
    }
}

/// The lines folded into `acc`, first-seen-wins, in order.
pub open spec fn fold_first_wins(acc: Seq<SpecHeader>, hs: Seq<SpecHeader>) -> Seq<SpecHeader>
    decreases hs.len(),
{
    if hs.len() == 0 {
        acc
    } else {
        fold_first_wins(hdr_insert_first_wins(acc, hs[0].name, hs[0].values), hs.drop_first())
    }
}

proof fn lemma_fold_all_new(acc: Seq<SpecHeader>, hs: Seq<SpecHeader>)
    requires
        forall|i: int, j: int| 0 <= i < j < hs.len() ==> hs[i].name != hs[j].name,
        forall|i: int, j: int|
            0 <= i < acc.len() && 0 <= j < hs.len() ==> acc[i].name != hs[j].name,
    ensures
        fold_first_wins(acc, hs) == acc + hs,
    decreases hs.len(),
{
    if hs.len() == 0 {
        assert(acc + hs =~= acc);
    } else {
        let h = SpecHeader { name: hs[0].name, values: hs[0].values };
        assert(hdr_lookup(acc, hs[0].name) is None) by {
            lemma_hdr_lookup_none(acc, hs[0].name);
        }
        assert(hdr_insert_first_wins(acc, hs[0].name, hs[0].values) == acc.push(h));
        assert(hs[0] =~~= h);
        lemma_fold_all_new(acc.push(h), hs.drop_first());
        assert(acc.push(h) + hs.drop_first() =~= acc + hs);
    }
}

proof fn lemma_hbf_drop(hs: Seq<SpecHeader>, i: int)
    requires
        0 <= i,
        hs.len() >= 1,
    ensures
        headers_bytes_from(hs, i + 1) == headers_bytes_from(hs.drop_first(), i),
    decreases hs.len() - i,
{
    if i + 1 < hs.len() {
        lemma_hbf_drop(hs, i + 1);
        assert(hs.drop_first()[i] == hs[i + 1]);
    } else {
        assert(headers_bytes_from(hs, i + 1) == Seq::<u8>::empty());
        assert(headers_bytes_from(hs.drop_first(), i) == Seq::<u8>::empty());
    }
}

/// One rendered block, then the empty line, then anything: parsing reads
/// back exactly the rendered entries and stops right after the empty line.
#[verifier::rlimit(60)]
proof fn lemma_parse_rendered(hs: Seq<SpecHeader>, rest: Seq<u8>, acc: Seq<SpecHeader>)
    requires
        forall|x: int| 0 <= x < hs.len() ==> header_wf(#[trigger] hs[x]),
    ensures
        spec_parse_header_fields(headers_bytes_from(hs, 0) + crlf_b() + rest, 0, acc) == Ok::<
            (Seq<SpecHeader>, int),
            ParseError,
        >((fold_first_wins(acc, hs), headers_bytes_from(hs, 0).len() as int + 2)),
    decreases hs.len(),
{
    let s = headers_bytes_from(hs, 0) + crlf_b() + rest;
    if hs.len() == 0 {
        assert(headers_bytes_from(hs, 0) == Seq::<u8>::empty());
        assert(s[0] == CR && s[1] == NL);
        lemma_find_from_is(s, 0, 1, NL);
        let raw = s.subrange(0, 1);
        assert(raw =~= seq![CR]);
        assert(is_ws(raw[0]));
        assert(sk_ws(raw, 1) == 1);
        assert(sk_ws(raw, 0) == 1);
        assert(bk_ws(raw, 1, 1) == 1);
        assert(trim(raw) =~= Seq::<u8>::empty());
        assert(fold_first_wins(acc, hs) == acc);
    } else {
        let h = hs[0];
        assert(header_wf(h));
        let jv = join_values(h.values);
        let content = h.name + colon_space_b() + jv;
        let nlen = h.name.len() as int;
        let hl = header_line_bytes(h);
        assert(hl =~= content + crlf_b());
        let tail = headers_bytes_from(hs, 1) + crlf_b() + rest;
        assert(s =~= content + crlf_b() + tail);
        let clen = content.len() as int;
        lemma_join_values_no_nl(h.values);
        lemma_join_values_ends(h.values);
        assert forall|k: int| 0 <= k < clen + 1 implies s[k] != NL by {
            if k < nlen {
                assert(s[k] == h.name[k]);
                assert(!is_ws(h.name[k]));
            } else if k < nlen + 2 {
                assert(s[k] == colon_space_b()[k - nlen]);
            } else if k < clen {
                assert(s[k] == jv[k - nlen - 2]);
            } else {
                assert(s[k] == CR);
            }
        }
        assert(s[clen + 1] == NL);
        lemma_find_from_is(s, 0, clen + 1, NL);
        let raw = s.subrange(0, clen + 1);
        assert(raw =~= content + seq![CR]);
        assert(raw[0] == h.name[0]);
        assert(!is_ws(raw[0]));
        assert(sk_ws(raw, 0) == 0);
        assert(raw[clen - 1] == jv[jv.len() - 1]);
        lemma_bk_ws_end(raw, 0, clen, clen + 1);
        let line = trim(raw);
        assert(line =~= content) by {
            assert(trim(raw) == raw.subrange(0, clen));
            assert(raw.subrange(0, clen) =~= content);
        }
        assert(line.len() == clen > 0);
        assert forall|k: int| 0 <= k < nlen implies line[k] != COLON by {
            assert(line[k] == h.name[k]);
        }
        assert(line[nlen] == COLON);
        lemma_find_from_is(line, 0, nlen, COLON);
        assert(trim(line.subrange(0, nlen)) == h.name) by {
            assert(line.subrange(0, nlen) =~= h.name);
            lemma_trim_of_trimmed(h.name);
        }
        assert(line.subrange(nlen + 1, clen) =~= seq![SP] + jv);
        lemma_split_join(h.values);
        assert(split_commas_from(line.subrange(nlen + 1, clen), 0) == h.values);
        let acc2 = hdr_insert_first_wins(acc, h.name, h.values);
        assert(spec_parse_header_fields(s, 0, acc) == spec_parse_header_fields(s, clen + 2, acc2));
        lemma_hbf_drop(hs, 0);
        assert(s.skip(clen + 2) =~= headers_bytes_from(hs.drop_first(), 0) + crlf_b() + rest);
        assert(forall|x: int|
            0 <= x < hs.drop_first().len() ==> header_wf(#[trigger] hs.drop_first()[x]));
        lemma_parse_rendered(hs.drop_first(), rest, acc2);
        lemma_phf_shift(s, clen + 2, clen + 2, acc2);
        assert(fold_first_wins(acc, hs) == fold_first_wins(acc2, hs.drop_first())) by {
            assert(hs[0] =~~= SpecHeader { name: h.name, values: h.values });
        }
        assert(headers_bytes_from(hs, 0).len() + 2 == clen + 2 + headers_bytes_from(
            hs.drop_first(),
            0,
        ).len() + 2);
    }
}

/// Round trip: re-parsing the header block of a serialized response as
/// `name: value` lines recovers exactly the response's headers, and the
/// `Content-Length` among them re-parses to the body's length.
pub proof fn lemma_response_content_length_roundtrip(m: SpecResponse)
    requires
        headers_wf(m.headers),
        hdr_lookup(m.headers, content_length_b()) == Some(
            seq![dec_digits(m.body.len() as int)],
        ),
        m.body.len() <= usize::MAX,
    ensures
        ({
            let raw = spec_serialize_response(m);
            let hstart = spec_status_line_bytes(m.status_line).len() + 2;
            &&& spec_parse_header_fields(raw, hstart as int, Seq::empty()) == Ok::<
                (Seq<SpecHeader>, int),
                ParseError,
            >((m.headers, raw.len() - m.body.len()))
            &&& spec_content_length(m.headers) == Some(m.body.len() as int)
        }),
{
    let raw = spec_serialize_response(m);
    let sl = spec_status_line_bytes(m.status_line) + crlf_b();
    let hb = headers_bytes_from(m.headers, 0);
    let hstart = sl.len() as int;
    assert(raw =~= sl + (hb + crlf_b() + m.body));
    assert(raw.skip(hstart) =~= hb + crlf_b() + m.body);
    lemma_parse_rendered(m.headers, m.body, Seq::empty());
    lemma_fold_all_new(Seq::empty(), m.headers);
    assert(Seq::<SpecHeader>::empty() + m.headers =~= m.headers);
    lemma_phf_shift(raw, hstart, hstart, Seq::empty());
    assert(spec_parse_header_fields(raw, hstart, Seq::empty()) == Ok::<
        (Seq<SpecHeader>, int),
        ParseError,
    >((m.headers, hb.len() + 2 + hstart)));
    assert(raw.len() - m.body.len() == hstart + hb.len() + 2);
    let d = dec_digits(m.body.len() as int);
    lemma_dec_digits_roundtrip(m.body.len() as int);
    assert(seq![d][0] == d);
    assert(crate::bytes::is_digit(d[0]));
    assert(d[0] != PLUS);
    assert(parse_decimal(d) == Some(m.body.len() as int));
}

/// The same, phrased over what `Response::to_bytes` leaves behind: a
/// well-formed response whose `Content-Length` was just refreshed meets the
/// round trip's premises.
pub proof fn lemma_serialized_response_roundtrip(before: Seq<SpecHeader>, m: SpecResponse)
    requires
        headers_wf(before),
        m.headers == crate::msg::hdr_upsert(
            before,
            content_length_b(),
            seq![dec_digits(m.body.len() as int)],
        ),
        m.body.len() <= usize::MAX,
    ensures
        spec_parse_header_fields(
            spec_serialize_response(m),
            spec_status_line_bytes(m.status_line).len() as int + 2,
            Seq::empty(),
        ) == Ok::<(Seq<SpecHeader>, int), ParseError>(
            (m.headers, spec_serialize_response(m).len() - m.body.len()),
        ),
        spec_content_length(m.headers) == Some(m.body.len() as int),
{
    crate::serial::lemma_content_length_header_wf(m.body.len() as int);
    crate::serial::lemma_hdr_upsert_wf(
        before,
        content_length_b(),
        seq![dec_digits(m.body.len() as int)],
    );
    lemma_response_content_length_roundtrip(m);
}

} // verus!
