//! Byte-level utilities shared by the request parser and the response
//! serializer: whitespace trimming, token splitting, decimal numbers.
use vstd::prelude::*;

verus! {

pub const NL: u8 = 0x0a;

pub const CR: u8 = 0x0d;

pub const SP: u8 = 0x20;

pub const COLON: u8 = 0x3a;

pub const COMMA: u8 = 0x2c;

pub const PLUS: u8 = 0x2b;

/// ASCII whitespace, as `char::is_whitespace` classifies ASCII bytes.
pub open spec fn is_ws(b: u8) -> bool {
    b == 0x09 || b == 0x0a || b == 0x0b || b == 0x0c || b == 0x0d || b == 0x20
}

pub fn is_ws_byte(b: u8) -> (r: bool)
    ensures
        r == is_ws(b),
{
    b == 0x09 || b == 0x0a || b == 0x0b || b == 0x0c || b == 0x0d || b == 0x20
}

/// Index of the first occurrence of `b` in `s` at or after `i`.
pub open spec fn find_from(s: Seq<u8>, i: int, b: u8) -> Option<int>
    decreases s.len() - i,
{
    if i < 0 || i >= s.len() {
        None
    } else if s[i] == b {
        Some(i)
    } else {
        find_from(s, i + 1, b)
    }
}

pub proof fn lemma_find_from_props(s: Seq<u8>, i: int, b: u8)
    requires
        0 <= i <= s.len(),
    ensures
        match find_from(s, i, b) {
            Some(j) => i <= j < s.len() && s[j] == b && (forall|k: int| i <= k < j ==> s[k] != b),
            None => forall|k: int| i <= k < s.len() ==> s[k] != b,
        },
    decreases s.len() - i,
{
    if i < s.len() && s[i] != b {
        lemma_find_from_props(s, i + 1, b);
    }
}

pub fn find_byte(v: &Vec<u8>, from: usize, b: u8) -> (r: Option<usize>)
    requires
        from <= v@.len(),
    ensures
        v@.len() <= usize::MAX,
        match r {
            Some(j) => find_from(v@, from as int, b) == Some(j as int) && from <= j < v@.len(),
            None => find_from(v@, from as int, b) is None,
        },
{
    let n = v.len();
    let mut i: usize = from;
    while i < n
        invariant
            from <= i <= v@.len(),
            n == v@.len(),
            find_from(v@, from as int, b) == find_from(v@, i as int, b),
        decreases v@.len() - i,
    {
        if v[i] == b {
            return Some(i);
        }
        i = i + 1;
    }
    None
}

/// Copy of `v[lo..hi]`.
pub fn copy_range(v: &Vec<u8>, lo: usize, hi: usize) -> (r: Vec<u8>)
    requires
        lo <= hi <= v@.len(),
    ensures
        r@ == v@.subrange(lo as int, hi as int),
{
    let mut r: Vec<u8> = Vec::new();
    let mut i: usize = lo;
    while i < hi
        invariant
            lo <= i <= hi <= v@.len(),
            r@ == v@.subrange(lo as int, i as int),
        decreases hi - i,
    {
        r.push(v[i]);
        proof {
            assert(v@.subrange(lo as int, i + 1 as int) =~= v@.subrange(lo as int, i as int).push(
                v@[i as int],
            ));
        }
        i = i + 1;
    }
    r
}

/// First index at or after `i` that does not hold whitespace.
pub open spec fn sk_ws(s: Seq<u8>, i: int) -> int
    decreases s.len() - i,
{
    if 0 <= i < s.len() && is_ws(s[i]) {
        sk_ws(s, i + 1)
    } else {
        i
    }
}

pub proof fn lemma_sk_ws_props(s: Seq<u8>, i: int)
    requires
        0 <= i <= s.len(),
    ensures
        i <= sk_ws(s, i) <= s.len(),
        sk_ws(s, i) < s.len() ==> !is_ws(s[sk_ws(s, i)]),
        forall|k: int| i <= k < sk_ws(s, i) ==> is_ws(s[k]),
    decreases s.len() - i,
{
    if i < s.len() && is_ws(s[i]) {
        lemma_sk_ws_props(s, i + 1);
    }
}

/// Last index above `lo` with no trailing whitespace at or after it, scanning
/// down from `j`.
pub open spec fn bk_ws(s: Seq<u8>, lo: int, j: int) -> int
    decreases j,
{
    if 0 <= lo < j <= s.len() && is_ws(s[j - 1]) {
        bk_ws(s, lo, j - 1)
    } else {
        j
    }
}

/// `s` with leading and trailing whitespace removed.
pub open spec fn trim(s: Seq<u8>) -> Seq<u8> {
    let a = sk_ws(s, 0);
    s.subrange(a, bk_ws(s, a, s.len() as int))
}

pub proof fn lemma_trim_of_trimmed(s: Seq<u8>)
    requires
        s.len() > 0 ==> !is_ws(s[0]) && !is_ws(s[s.len() - 1]),
    ensures
        trim(s) == s,
{
    if s.len() == 0 {
        assert(trim(s) =~= s);
    } else {
        assert(sk_ws(s, 0) == 0);
        assert(bk_ws(s, 0, s.len() as int) == s.len());
        assert(trim(s) =~= s);
    }
}

pub fn trim_vec(v: &Vec<u8>) -> (r: Vec<u8>)
    ensures
        r@ == trim(v@),
{
    let mut lo: usize = 0;
    while lo < v.len() && is_ws_byte(v[lo])
        invariant
            0 <= lo <= v@.len(),
            forall|k: int| 0 <= k < lo ==> is_ws(v@[k]),
        decreases v@.len() - lo,
    {
        lo = lo + 1;
    }
    proof {
        lemma_sk_ws_end(v@, 0, lo as int);
    }
    let mut hi: usize = v.len();
    while hi > lo && is_ws_byte(v[hi - 1])
        invariant
            lo <= hi <= v@.len(),
            forall|k: int| hi <= k < v@.len() ==> is_ws(v@[k]),
        decreases hi,
    {
        hi = hi - 1;
    }
    proof {
        lemma_bk_ws_end(v@, lo as int, hi as int, v@.len() as int);
    }
    copy_range(v, lo, hi)
}

pub proof fn lemma_sk_ws_end(s: Seq<u8>, i0: int, i: int)
    requires
        0 <= i0 <= i <= s.len(),
        forall|k: int| i0 <= k < i ==> is_ws(s[k]),
        i == s.len() || !is_ws(s[i]),
    ensures
        sk_ws(s, i0) == i,
    decreases i - i0,
{
    if i0 < i {
        lemma_sk_ws_end(s, i0 + 1, i);
    }
}

pub proof fn lemma_bk_ws_end(s: Seq<u8>, lo: int, j: int, j0: int)
    requires
        0 <= lo <= j <= j0 <= s.len(),
        forall|k: int| j <= k < j0 ==> is_ws(s[k]),
        j == lo || !is_ws(s[j - 1]),
    ensures
        bk_ws(s, lo, j0) == j,
    decreases j0 - j,
{
    if j < j0 {
        lemma_bk_ws_end(s, lo, j, j0 - 1);
    }
}

/// End of the token (maximal whitespace-free run) that starts at `i`.
pub open spec fn tk_end(s: Seq<u8>, i: int) -> int
    decreases s.len() - i,
{
    if 0 <= i < s.len() && !is_ws(s[i]) {
        tk_end(s, i + 1)
    } else {
        i
    }
}

pub proof fn lemma_tk_end_props(s: Seq<u8>, i: int)
    requires
        0 <= i <= s.len(),
    ensures
        i <= tk_end(s, i) <= s.len(),
        tk_end(s, i) < s.len() ==> is_ws(s[tk_end(s, i)]),
        forall|k: int| i <= k < tk_end(s, i) ==> !is_ws(s[k]),
    decreases s.len() - i,
{
    if i < s.len() && !is_ws(s[i]) {
        lemma_tk_end_props(s, i + 1);
    }
}

/// The whitespace-separated tokens of `s` at or after `i`, in order.
pub open spec fn split_ws_from(s: Seq<u8>, i: int) -> Seq<Seq<u8>>
    decreases s.len() - i,
    when 0 <= i <= s.len()
    via split_ws_from_dec
{
    let a = sk_ws(s, i);
    if a >= s.len() {
        Seq::empty()
    } else {
        seq![s.subrange(a, tk_end(s, a))] + split_ws_from(s, tk_end(s, a))
    }
}

#[via_fn]
proof fn split_ws_from_dec(s: Seq<u8>, i: int) {
    lemma_sk_ws_props(s, i);
    if sk_ws(s, i) < s.len() {
        lemma_tk_end_props(s, sk_ws(s, i));
    }
}

pub fn split_ws_vec(v: &Vec<u8>) -> (r: Vec<Vec<u8>>)
    ensures
        r.deep_view() == split_ws_from(v@, 0),
{
    let mut toks: Vec<Vec<u8>> = Vec::new();
    let mut i: usize = 0;
    loop
        invariant
            0 <= i <= v@.len(),
            split_ws_from(v@, 0) == toks.deep_view() + split_ws_from(v@, i as int),
        decreases v@.len() - i,
    {
        let ghost i0: int = i as int;
        // advance over whitespace
        while i < v.len() && is_ws_byte(v[i])
            invariant
                i0 <= i <= v@.len(),
                split_ws_from(v@, 0) == toks.deep_view() + split_ws_from(v@, i as int),
            decreases v@.len() - i,
        {
            proof {
                assert(sk_ws(v@, i as int) == sk_ws(v@, i + 1 as int));
                assert(split_ws_from(v@, i as int) == split_ws_from(v@, i + 1 as int));
            }
            i = i + 1;
        }
        if i == v.len() {
            proof {
                assert(split_ws_from(v@, i as int) =~= Seq::<Seq<u8>>::empty());
                assert(toks.deep_view() + Seq::<Seq<u8>>::empty() =~= toks.deep_view());
            }
            return toks;
        }
        proof {
            assert(!is_ws(v@[i as int]));
            assert(sk_ws(v@, i as int) == i);
            lemma_tk_end_props(v@, i as int);
        }
        let mut j: usize = i + 1;
        while j < v.len() && !is_ws_byte(v[j])
            invariant
                i < j <= v@.len(),
                forall|k: int| i <= k < j ==> !is_ws(v@[k]),
            decreases v@.len() - j,
        {
            j = j + 1;
        }
        proof {
            lemma_tk_end_is(v@, i as int, j as int);
        }
        let tok = copy_range(v, i, j);
        let ghost old_toks = toks.deep_view();
        toks.push(tok);
        proof {
            assert(toks.deep_view() =~~= old_toks.push(v@.subrange(i as int, j as int)));
            assert(split_ws_from(v@, i as int) == seq![v@.subrange(i as int, j as int)]
                + split_ws_from(v@, j as int));
            assert(old_toks + split_ws_from(v@, i as int) =~~= toks.deep_view() + split_ws_from(
                v@,
                j as int,
            ));
        }
        i = j;
    }
}

/// Element-wise equality of two byte vectors.
pub fn vec_eq(a: &Vec<u8>, b: &Vec<u8>) -> (r: bool)
    ensures
        r == (a@ == b@),
{
    let r = a == b;
    proof {
        if a@ == b@ {
            assert(forall|i: int| 0 <= i < a@.len() ==> a@[i] == b@[i]);
        }
        if r {
            assert(a@ =~= b@);
        }
    }
    r
}

pub proof fn lemma_tk_end_is(s: Seq<u8>, i: int, j: int)
    requires
        0 <= i <= j <= s.len(),
        forall|k: int| i <= k < j ==> !is_ws(s[k]),
        j == s.len() || is_ws(s[j]),
    ensures
        tk_end(s, i) == j,
    decreases j - i,
{
    if i < j {
        lemma_tk_end_is(s, i + 1, j);
    }
}

/// The comma-separated pieces of `s` at or after `i`, each trimmed.
/// There is always at least one piece.
pub open spec fn split_commas_from(s: Seq<u8>, i: int) -> Seq<Seq<u8>>
    decreases s.len() - i,
    when 0 <= i <= s.len()
    via split_commas_from_dec
{
    match find_from(s, i, COMMA) {
        Some(j) => seq![trim(s.subrange(i, j))] + split_commas_from(s, j + 1),
        None => seq![trim(s.subrange(i, s.len() as int))],
    }
}

#[via_fn]
proof fn split_commas_from_dec(s: Seq<u8>, i: int) {
    lemma_find_from_props(s, i, COMMA);
}

pub fn split_commas(v: &Vec<u8>) -> (r: Vec<Vec<u8>>)
    ensures
        r.deep_view() == split_commas_from(v@, 0),
{
    let vlen = v.len();
    let mut pieces: Vec<Vec<u8>> = Vec::new();
    let mut i: usize = 0;
    loop
        invariant
            0 <= i <= v@.len(),
            v@.len() == vlen,
            split_commas_from(v@, 0) == pieces.deep_view() + split_commas_from(v@, i as int),
        decreases v@.len() - i,
    {
        let ghost old_pieces = pieces.deep_view();
        match find_byte(v, i, COMMA) {
            Some(j) => {
                let raw = copy_range(v, i, j);
                let piece = trim_vec(&raw);
                pieces.push(piece);
                proof {
                    assert(pieces.deep_view() =~~= old_pieces.push(
                        trim(v@.subrange(i as int, j as int)),
                    ));
                    assert(split_commas_from(v@, i as int) == seq![
                        trim(v@.subrange(i as int, j as int)),
                    ] + split_commas_from(v@, j + 1 as int));
                    assert(old_pieces + split_commas_from(v@, i as int) =~~= pieces.deep_view()
                        + split_commas_from(v@, j + 1 as int));
                }
                i = j + 1;
            },
            None => {
                let raw = copy_range(v, i, v.len());
                let piece = trim_vec(&raw);
                pieces.push(piece);
                proof {
                    assert(pieces.deep_view() =~~= old_pieces.push(
                        trim(v@.subrange(i as int, v@.len() as int)),
                    ));
                    assert(split_commas_from(v@, i as int) == seq![
                        trim(v@.subrange(i as int, v@.len() as int)),
                    ]);
                    assert(old_pieces + split_commas_from(v@, i as int) =~~= pieces.deep_view());
                }
                return pieces;
            },
        }
    }
}

pub open spec fn is_digit(b: u8) -> bool {
    0x30 <= b <= 0x39
}

pub open spec fn all_digits(s: Seq<u8>) -> bool {
    forall|k: int| 0 <= k < s.len() ==> is_digit(s[k])
}

/// Value of a big-endian decimal digit string.
pub open spec fn digits_val(s: Seq<u8>) -> int
    decreases s.len(),
{
    if s.len() == 0 {
        0
    } else {
        digits_val(s.drop_last()) * 10 + (s.last() - 0x30)
    }
}

/// What `str::parse::<usize>` accepts of a byte string: an optional leading
/// `+`, then one or more decimal digits, the value fitting the type.
pub open spec fn parse_decimal(s: Seq<u8>) -> Option<int> {
    let t = if s.len() > 0 && s[0] == PLUS {
        s.drop_first()
    } else {
        s
    };
    if t.len() > 0 && all_digits(t) && digits_val(t) <= usize::MAX {
        Some(digits_val(t))
    } else {
        None
    }
}

pub proof fn lemma_digits_val_nonneg(s: Seq<u8>)
    requires
        all_digits(s),
    ensures
        digits_val(s) >= 0,
    decreases s.len(),
{
    if s.len() > 0 {
        assert(all_digits(s.drop_last()));
        lemma_digits_val_nonneg(s.drop_last());
    }
}

pub proof fn lemma_digits_val_step(s: Seq<u8>, i: int)
    requires
        0 <= i < s.len(),
    ensures
        digits_val(s.take(i + 1)) == digits_val(s.take(i)) * 10 + (s[i] - 0x30),
{
    assert(s.take(i + 1).drop_last() =~= s.take(i));
    assert(s.take(i + 1).last() == s[i]);
}

pub proof fn lemma_digits_val_grows(s: Seq<u8>, i: int)
    requires
        all_digits(s),
        0 <= i <= s.len(),
    ensures
        digits_val(s) >= digits_val(s.take(i)),
    decreases s.len() - i,
{
    if i == s.len() {
        assert(s.take(i) =~= s);
    } else {
        lemma_digits_val_step(s, i);
        assert(all_digits(s.take(i)));
        lemma_digits_val_nonneg(s.take(i));
        lemma_digits_val_grows(s, i + 1);
    }
}

/// Mirrors `str::parse::<usize>` on bytes.
pub fn parse_usize_bytes(v: &Vec<u8>) -> (r: Option<usize>)
    ensures
        match r {
            Some(n) => parse_decimal(v@) == Some(n as int),
            None => parse_decimal(v@) is None,
        },
{
    let start: usize = if v.len() > 0 && v[0] == PLUS {
        1
    } else {
        0
    };
    let ghost t = if v@.len() > 0 && v@[0] == PLUS {
        v@.drop_first()
    } else {
        v@
    };
    proof {
        assert(t =~= v@.subrange(start as int, v@.len() as int));
    }
    if v.len() == start {
        return None;
    }
    let mut cur: usize = 0;
    let mut i: usize = start;
    while i < v.len()
        invariant
            start <= i <= v@.len(),
            t == (if v@.len() > 0 && v@[0] == PLUS {
                v@.drop_first()
            } else {
                v@
            }),
            t == v@.subrange(start as int, v@.len() as int),
            cur == digits_val(t.take(i - start)),
            forall|k: int| 0 <= k < i - start ==> is_digit(t[k]),
        decreases v@.len() - i,
    {
        let b = v[i];
        proof {
            assert(t[i - start] == v@[i as int]);
        }
        if !(0x30 <= b && b <= 0x39) {
            proof {
                assert(!is_digit(t[i - start]));
                assert(!all_digits(t));
                assert(parse_decimal(v@) is None);
            }
            return None;
        }
        let d: usize = (b - 0x30) as usize;
        proof {
            lemma_digits_val_step(t, i - start);
        }
        if cur > (usize::MAX - d) / 10 {
            proof {
                assert(cur * 10 + d > usize::MAX) by (nonlinear_arith)
                    requires
                        cur > (usize::MAX - d) / 10,
                        d <= 9,
                ;
                assert(digits_val(t.take(i - start + 1)) > usize::MAX);
                if all_digits(t) && digits_val(t) <= usize::MAX {
                    lemma_digits_val_grows(t, i - start + 1);
                    assert(false);
                }
                assert(parse_decimal(v@) is None);
            }
            return None;
        }
        proof {
            assert(cur * 10 + d <= usize::MAX) by (nonlinear_arith)
                requires
                    cur <= (usize::MAX - d) / 10,
                    d <= 9,
            ;
        }
        cur = cur * 10 + d;
        i = i + 1;
    }
    proof {
        assert(t.take(i - start) =~= t);
        assert(all_digits(t));
    }
    Some(cur)
}

/// Big-endian decimal digit string of a non-negative number.
pub open spec fn dec_digits(n: int) -> Seq<u8>
    decreases n,
{
    if n < 0 {
        Seq::empty()
    } else if n < 10 {
        seq![(0x30 + n) as u8]
    } else {
        dec_digits(n / 10) + seq![(0x30 + n % 10) as u8]
    }
}

/// Appends the decimal rendering of `n`.
pub fn push_decimal(out: &mut Vec<u8>, n: usize)
    ensures
        final(out)@ == old(out)@ + dec_digits(n as int),
    decreases n,
{
    if n < 10 {
        out.push((0x30 + n) as u8);
        proof {
            assert(out@ =~= old(out)@ + dec_digits(n as int));
        }
    } else {
        push_decimal(out, n / 10);
        out.push((0x30 + n % 10) as u8);
        proof {
            assert(out@ =~= old(out)@ + dec_digits(n as int));
        }
    }
}

pub proof fn lemma_dec_digits_roundtrip(n: int)
    requires
        0 <= n,
    ensures
        dec_digits(n).len() > 0,
        all_digits(dec_digits(n)),
        digits_val(dec_digits(n)) == n,
    decreases n,
{
    if n < 10 {
        assert(seq![(0x30 + n) as u8].drop_last() =~= Seq::<u8>::empty());
        assert(digits_val(Seq::<u8>::empty()) == 0);
        assert(digits_val(seq![(0x30 + n) as u8]) == (0x30 + n) as u8 - 0x30);
    } else {
        lemma_dec_digits_roundtrip(n / 10);
        let d = dec_digits(n / 10) + seq![(0x30 + n % 10) as u8];
        assert(d.drop_last() =~= dec_digits(n / 10));
        assert(d.last() == (0x30 + n % 10) as u8);
        assert(digits_val(d) == digits_val(dec_digits(n / 10)) * 10 + n % 10);
    }
}

pub open spec fn lower_byte(b: u8) -> u8 {
    if 0x41 <= b <= 0x5a {
        (b + 0x20) as u8
    } else {
        b
    }
}

/// ASCII lowercasing, byte for byte.
pub open spec fn lower(s: Seq<u8>) -> Seq<u8> {
    Seq::new(s.len(), |i: int| lower_byte(s[i]))
}

pub fn lower_vec(v: &Vec<u8>) -> (r: Vec<u8>)
    ensures
        r@ == lower(v@),
{
    let mut r: Vec<u8> = Vec::new();
    let mut i: usize = 0;
    while i < v.len()
        invariant
            0 <= i <= v@.len(),
            r@ =~= lower(v@).take(i as int),
        decreases v@.len() - i,
    {
        let b = v[i];
        if 0x41 <= b && b <= 0x5a {
            r.push(b + 0x20);
        } else {
            r.push(b);
        }
        i = i + 1;
    }
    proof {
        assert(lower(v@).take(v@.len() as int) =~= lower(v@));
    }
    r
}

pub open spec fn starts_with(s: Seq<u8>, p: Seq<u8>) -> bool {
    s.len() >= p.len() && s.subrange(0, p.len() as int) == p
}

pub fn starts_with_vec(v: &Vec<u8>, p: &Vec<u8>) -> (r: bool)
    ensures
        r == starts_with(v@, p@),
{
    if v.len() < p.len() {
        return false;
    }
    let mut i: usize = 0;
    while i < p.len()
        invariant
            0 <= i <= p@.len() <= v@.len(),
            forall|k: int| 0 <= k < i ==> v@[k] == p@[k],
        decreases p@.len() - i,
    {
        if v[i] != p[i] {
            proof {
                if v@.subrange(0, p@.len() as int) == p@ {
                    assert(v@.subrange(0, p@.len() as int)[i as int] == p@[i as int]);
                }
            }
            return false;
        }
        i = i + 1;
    }
    proof {
        assert(v@.subrange(0, p@.len() as int) =~= p@);
    }
    true
}

} // verus!
