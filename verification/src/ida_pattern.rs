use vstd::prelude::*;

use vstd::string::StringSliceAdditionalSpecFns;

use crate::error::Error;

verus! {

/// ASCII whitespace, which separates the tokens of a pattern.
pub open spec fn is_space(c: u8) -> bool {
    c == 0x20 || (0x09 <= c && c <= 0x0d)
}

/// The value of an ASCII hex digit.
pub open spec fn hex_value(c: u8) -> Option<u8> {
    if 0x30 <= c && c <= 0x39 {
        Some((c - 0x30) as u8)
    } else if 0x41 <= c && c <= 0x46 {
        Some((c - 0x41 + 10) as u8)
    } else if 0x61 <= c && c <= 0x66 {
        Some((c - 0x61 + 10) as u8)
    } else {
        None
    }
}

/// Number of bytes before the first whitespace of `b`.
pub open spec fn token_len(b: Seq<u8>) -> nat
    decreases b.len(),
{
    if b.len() == 0 || is_space(b[0]) {
        0
    } else {
        1 + token_len(b.drop_first())
    }
}

/// What a token stands for: `?` and `??` for any byte, two hex digits for
/// that byte; nothing else is a token.
pub open spec fn token_value(t: Seq<u8>) -> Option<Option<u8>> {
    if t == seq![0x3fu8] || t == seq![0x3fu8, 0x3fu8] {
        Some(None)
    } else if t.len() == 2 && hex_value(t[0]) is Some && hex_value(t[1]) is Some {
        Some(Some((hex_value(t[0])->0 * 16 + hex_value(t[1])->0) as u8))
    } else {
        None
    }
}

/// The bytes of an IDA-style pattern, `None` standing for any byte: the
/// whitespace-separated tokens of `b` in order, or `None` where one of them
/// is no token.
pub open spec fn parse_pattern(b: Seq<u8>) -> Option<Seq<Option<u8>>>
    decreases b.len(),
{
    if b.len() == 0 {
        Some(Seq::empty())
    } else if is_space(b[0]) {
        parse_pattern(b.drop_first())
    } else {
        let n = token_len(b);
        proof {
            lemma_token_len_bound(b);
        }
        if n == 0 {
            None
        } else {
            match token_value(b.take(n as int)) {
                Some(v) => match parse_pattern(b.skip(n as int)) {
                    Some(rest) => Some(seq![v] + rest),
                    None => None,
                },
                None => None,
            }
        }
    }
}

/// The pattern matches `buf` at position `p`.
pub open spec fn matches_at(pat: Seq<Option<u8>>, buf: Seq<u8>, p: int) -> bool {
    &&& 0 <= p
    &&& p + pat.len() <= buf.len()
    &&& forall|q: int| #![trigger pat[q]] 0 <= q < pat.len() ==> (pat[q] matches Some(c) ==> buf[p + q] == c)
}

/// `off` is the first position of `buf` at which the pattern matches.
pub open spec fn first_match_at(pat: Seq<Option<u8>>, buf: Seq<u8>, off: int) -> bool {
    &&& matches_at(pat, buf, off)
    &&& forall|p: int| p < off ==> !#[trigger] matches_at(pat, buf, p)
}

pub proof fn lemma_token_len_bound(b: Seq<u8>)
    ensures
        token_len(b) <= b.len(),
        forall|k: int| 0 <= k < token_len(b) ==> !is_space(#[trigger] b[k]),
        token_len(b) < b.len() ==> is_space(b[token_len(b) as int]),
    decreases b.len(),
{
    if b.len() > 0 && !is_space(b[0]) {
        lemma_token_len_bound(b.drop_first());
        assert forall|k: int| 0 <= k < token_len(b) implies !is_space(#[trigger] b[k]) by {
            if k > 0 {
                assert(b[k] == b.drop_first()[k - 1]);
            }
        }
        if token_len(b) < b.len() {
            assert(b[token_len(b) as int] == b.drop_first()[token_len(b.drop_first()) as int]);
        }
    }
}

proof fn lemma_token_len_split(b: Seq<u8>, k: int)
    requires
        0 <= k <= b.len(),
        forall|j: int| 0 <= j < k ==> !is_space(#[trigger] b[j]),
    ensures
        token_len(b) == k + token_len(b.skip(k)),
    decreases k,
{
    if k > 0 {
        assert(!is_space(b[0]));
        assert(b.drop_first().skip(k - 1) =~= b.skip(k));
        assert forall|j: int| 0 <= j < k - 1 implies !is_space(#[trigger] b.drop_first()[j]) by {
            assert(b.drop_first()[j] == b[j + 1]);
        }
        lemma_token_len_split(b.drop_first(), k - 1);
    } else {
        assert(b.skip(0) =~= b);
    }
}

fn is_space_byte(c: u8) -> (r: bool)
    ensures
        r == is_space(c),
{
    c == 0x20 || (0x09 <= c && c <= 0x0d)
}

fn hex_digit(c: u8) -> (r: Option<u8>)
    ensures
        r == hex_value(c),
{
    if 0x30 <= c && c <= 0x39 {
        Some(c - 0x30)
    } else if 0x41 <= c && c <= 0x46 {
        Some(c - 0x41 + 10)
    } else if 0x61 <= c && c <= 0x66 {
        Some(c - 0x61 + 10)
    } else {
        None
    }
}

/// The value of the token `b[start..end]`.
fn parse_token(b: &[u8], start: usize, end: usize) -> (r: Option<Option<u8>>)
    requires
        start <= end <= b@.len(),
    ensures
        r == token_value(b@.subrange(start as int, end as int)),
{
    let ghost t = b@.subrange(start as int, end as int);
    let n = end - start;
    if n == 1 && b[start] == 0x3f {
        assert(t =~= seq![0x3fu8]);
        Some(None)
    } else if n == 2 && b[start] == 0x3f && b[start + 1] == 0x3f {
        assert(t =~= seq![0x3fu8, 0x3fu8]);
        Some(None)
    } else if n == 2 {
        proof {
            assert(t.len() != seq![0x3fu8].len());
            if t == seq![0x3fu8, 0x3fu8] {
                assert(t[0] == 0x3f && t[1] == 0x3f);
            }
        }
        match (hex_digit(b[start]), hex_digit(b[start + 1])) {
            (Some(hi), Some(lo)) => Some(Some(hi * 16 + lo)),
            _ => None,
        }
    } else {
        proof {
            if n == 1 {
                assert(t.len() != seq![0x3fu8, 0x3fu8].len());
                if t == seq![0x3fu8] {
                    assert(t[0] == 0x3f);
                }
            } else {
                assert(t.len() != seq![0x3fu8].len());
                assert(t.len() != seq![0x3fu8, 0x3fu8].len());
            }
        }
        None
    }
}

/// `p` followed by what `rest` holds, or nothing where `rest` holds nothing.
pub open spec fn prepend(p: Seq<Option<u8>>, rest: Option<Seq<Option<u8>>>) -> Option<Seq<Option<u8>>> {
    match rest {
        Some(r) => Some(p + r),
        None => None,
    }
}

/// Parses an IDA-style pattern such as `"48 8B ?? 05"`: whitespace-separated
/// tokens, each two hex digits for a byte or `?`/`??` for any byte.
pub fn parse_ida_pattern(pattern: &str) -> (r: Option<Vec<Option<u8>>>)
    ensures
        match parse_pattern(pattern.spec_bytes()) {
            Some(pat) => r matches Some(v) && v@ == pat,
            None => r is None,
        },
{
    let b = pattern.as_bytes();
    let ghost bs = b@;
    let mut out: Vec<Option<u8>> = Vec::new();
    let mut i: usize = 0;
    assert(bs.skip(0) =~= bs);
    proof {
        if let Some(r) = parse_pattern(bs) {
            assert(out@ + r =~= r);
        }
    }
    while i < b.len()
        invariant
            bs == b@,
            bs == pattern.spec_bytes(),
            i <= b@.len(),
            parse_pattern(bs) == prepend(out@, parse_pattern(bs.skip(i as int))),
        decreases b.len() - i,
    {
        let ghost s = bs.skip(i as int);
        if is_space_byte(b[i]) {
            assert(s.drop_first() =~= bs.skip(i + 1));
            i = i + 1;
        } else {
            let mut j: usize = i;
            while j < b.len() && !is_space_byte(b[j])
                invariant
                    bs == b@,
                    bs == pattern.spec_bytes(),
                    i < b@.len(),
                    s == bs.skip(i as int),
                    parse_pattern(bs) == prepend(out@, parse_pattern(bs.skip(i as int))),
                    i <= j <= b@.len(),
                    forall|k: int| i <= k < j ==> !is_space(#[trigger] bs[k]),
                decreases b.len() - j,
            {
                j = j + 1;
            }
            proof {
                assert forall|k: int| 0 <= k < j - i implies !is_space(#[trigger] s[k]) by {
                    assert(s[k] == bs[i + k]);
                }
                lemma_token_len_split(s, j - i);
                assert(s.skip(j - i) =~= bs.skip(j as int));
                if j < b@.len() {
                    assert(s.skip(j - i)[0] == bs[j as int]);
                }
                assert(token_len(s) == j - i);
                assert(s.take(j - i) =~= bs.subrange(i as int, j as int));
                assert(s[0] == bs[i as int]);
                assert(j > i);
            }
            match parse_token(b, i, j) {
                Some(v) => {
                    let ghost before = out@;
                    out.push(Some(v).unwrap());
                    proof {
                        match parse_pattern(bs.skip(j as int)) {
                            Some(rest) => {
                                assert(before + (seq![v] + rest) =~= out@ + rest);
                            },
                            None => {},
                        }
                    }
                    i = j;
                },
                None => {
                    proof {
                        assert(s.len() > 0 && !is_space(s[0]));
                        assert(token_value(s.take(token_len(s) as int)) is None);
                        assert(parse_pattern(s) is None);
                    }
                    return None;
                },
            }
        }
    }
    assert(bs.skip(i as int) =~= Seq::<u8>::empty());
    assert(out@ + Seq::<Option<u8>>::empty() =~= out@);
    Some(out)
}

/// Whether the pattern matches `buf` at position `p`.
fn match_at(pat: &Vec<Option<u8>>, buf: &[u8], p: usize) -> (r: bool)
    requires
        p + pat@.len() <= buf@.len(),
    ensures
        r == matches_at(pat@, buf@, p as int),
{
    let blen = buf.len();
    let mut q: usize = 0;
    while q < pat.len()
        invariant
            blen == buf@.len(),
            p + pat@.len() <= buf@.len(),
            q <= pat@.len(),
            forall|k: int| #![trigger pat@[k]] 0 <= k < q ==> (pat@[k] matches Some(c) ==> buf@[p + k] == c),
        decreases pat.len() - q,
    {
        match pat[q] {
            Some(c) => {
                if buf[p + q] != c {
                    return false;
                }
            },
            None => {},
        }
        q = q + 1;
    }
    true
}

/// Finds the first position of `buf` at which the IDA-style `pattern`
/// matches, and gives it with the position just after the match.
pub fn find_ida_pattern(pattern: &str, buf: &[u8]) -> (r: Result<(usize, usize), Error>)
    ensures
        r matches Err(e) ==> e == Error::MalformedPattern || e == Error::PatternNotFound,
        r == Err::<(usize, usize), Error>(Error::MalformedPattern) <==> parse_pattern(pattern.spec_bytes()) is None,
        r == Err::<(usize, usize), Error>(Error::PatternNotFound) ==> (parse_pattern(pattern.spec_bytes()) matches Some(pat)
            && forall|p: int| !#[trigger] matches_at(pat, buf@, p)),
        r matches Ok((start, end)) ==> (parse_pattern(pattern.spec_bytes()) matches Some(pat)
            && first_match_at(pat, buf@, start as int) && end == start + pat.len()),
{
    let pat = match parse_ida_pattern(pattern) {
        Some(pat) => pat,
        None => {
            return Err(Error::MalformedPattern);
        },
    };
    if pat.len() > buf.len() {
        return Err(Error::PatternNotFound);
    }
    let blen = buf.len();
    let last = blen - pat.len();
    let mut p: usize = 0;
    loop
        invariant
            parse_pattern(pattern.spec_bytes()) == Some(pat@),
            blen == buf@.len(),
            last == buf@.len() - pat@.len(),
            p <= last,
            forall|p2: int| p2 < p ==> !#[trigger] matches_at(pat@, buf@, p2),
        decreases last - p,
    {
        if match_at(&pat, buf, p) {
            return Ok((p, p + pat.len()));
        }
        if p == last {
            assert forall|p2: int| !#[trigger] matches_at(pat@, buf@, p2) by {
                if p2 > last {
                    assert(p2 + pat@.len() > buf@.len());
                }
            }
            return Err(Error::PatternNotFound);
        }
        p = p + 1;
    }
}

} // verus!
