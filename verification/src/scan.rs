use vstd::prelude::*;

use crate::syntax_err::{ErrV, SyntaxError};
use crate::tokeniser::{BracketType, Token, TokenKindV, TokenType, TokenV};

verus! {

// ---------------------------------------------------------------------------
// Bracket bookkeeping: four independent signed counters, one per family.
// ---------------------------------------------------------------------------

/// What one token contributes to the counter of bracket family `bk`.
pub open spec fn delta(kind: TokenKindV, bk: BracketType) -> int {
    match kind {
        TokenKindV::OpenBracket(b) => if b == bk {
            1
        } else {
            0
        },
        TokenKindV::CloseBracket(b) => if b == bk {
            -1
        } else {
            0
        },
        _ => 0,
    }
}

/// Counter of bracket family `bk` after the first `n` tokens.
pub open spec fn cnt(toks: Seq<TokenV>, bk: BracketType, n: int) -> int
    decreases n,
{
    if n <= 0 || n > toks.len() {
        0
    } else {
        cnt(toks, bk, n - 1) + delta(toks[n - 1].kind, bk)
    }
}

/// Sum of all four bracket counters after the first `n` tokens.
pub open spec fn sum_cnt(toks: Seq<TokenV>, n: int) -> int {
    cnt(toks, BracketType::Parenthesis, n) + cnt(toks, BracketType::Brace, n) + cnt(
        toks,
        BracketType::Bracket,
        n,
    ) + cnt(toks, BracketType::Angle, n)
}

/// The delimiters a top-level scan can split on.
#[derive(Copy, Clone, Debug, PartialEq, Eq, Structural)]
pub enum Delimiter {
    Comma,
    Semicolon,
    Dot,
    /// The `->` token.
    Arrow,
    Colon,
    /// Any operator token.
    Operator,
}

pub open spec fn is_delim(kind: TokenKindV, d: Delimiter) -> bool {
    match (kind, d) {
        (TokenKindV::Comma, Delimiter::Comma) => true,
        (TokenKindV::Semicolon, Delimiter::Semicolon) => true,
        (TokenKindV::Dot, Delimiter::Dot) => true,
        (TokenKindV::Lambda, Delimiter::Arrow) => true,
        (TokenKindV::Colon, Delimiter::Colon) => true,
        (TokenKindV::Operator(_), Delimiter::Operator) => true,
        _ => false,
    }
}


pub(crate) fn token_matches(t: &Token, d: Delimiter) -> (b: bool)
    ensures
        b == is_delim(t.deep_view().kind, d),
{
    match (&t.token_type, d) {
        (TokenType::Comma, Delimiter::Comma) => true,
        (TokenType::Semicolon, Delimiter::Semicolon) => true,
        (TokenType::Dot, Delimiter::Dot) => true,
        (TokenType::Lambda, Delimiter::Arrow) => true,
        (TokenType::Colon, Delimiter::Colon) => true,
        (TokenType::Operator(_), Delimiter::Operator) => true,
        _ => false,
    }
}

/// Applies one token to the four counters.
fn apply_token(t: &Token, p: i128, b: i128, k: i128, a: i128) -> (r: (i128, i128, i128, i128))
    requires
        -0x10000000000000000 <= p <= 0x10000000000000000,
        -0x10000000000000000 <= b <= 0x10000000000000000,
        -0x10000000000000000 <= k <= 0x10000000000000000,
        -0x10000000000000000 <= a <= 0x10000000000000000,
    ensures
        r.0 == p + delta(t.deep_view().kind, BracketType::Parenthesis),
        r.1 == b + delta(t.deep_view().kind, BracketType::Brace),
        r.2 == k + delta(t.deep_view().kind, BracketType::Bracket),
        r.3 == a + delta(t.deep_view().kind, BracketType::Angle),
{
    match &t.token_type {
        TokenType::OpenBracket(bracket) => match bracket {
            BracketType::Parenthesis => (p + 1, b, k, a),
            BracketType::Brace => (p, b + 1, k, a),
            BracketType::Bracket => (p, b, k + 1, a),
            BracketType::Angle => (p, b, k, a + 1),
        },
        TokenType::CloseBracket(bracket) => match bracket {
            BracketType::Parenthesis => (p - 1, b, k, a),
            BracketType::Brace => (p, b - 1, k, a),
            BracketType::Bracket => (p, b, k - 1, a),
            BracketType::Angle => (p, b, k, a - 1),
        },
        _ => (p, b, k, a),
    }
}

/// A subrange of a slice has the matching subrange as its model.
pub(crate) proof fn lemma_slice_deep_view_subrange(full: &[Token], sub: &[Token], lo: int, hi: int)
    requires
        0 <= lo <= hi <= full@.len(),
        sub@ == full@.subrange(lo, hi),
    ensures
        sub.deep_view() == full.deep_view().subrange(lo, hi),
{
    assert(sub.deep_view() =~= full.deep_view().subrange(lo, hi));
}

// ---------------------------------------------------------------------------
// Bracket-balanced region extraction.
// ---------------------------------------------------------------------------

/// Scans from `i` with the given counters; yields the index of the token at
/// which the sum of all four counters first returns to exactly 0, or `None`
/// when a counter goes negative or the input ends first.
pub open spec fn enclosed_scan(
    toks: Seq<TokenV>,
    i: int,
    p: int,
    b: int,
    k: int,
    a: int,
) -> Option<int>
    decreases toks.len() - i,
{
    if i < 0 || i >= toks.len() {
        None
    } else {
        let p2 = p + delta(toks[i].kind, BracketType::Parenthesis);
        let b2 = b + delta(toks[i].kind, BracketType::Brace);
        let k2 = k + delta(toks[i].kind, BracketType::Bracket);
        let a2 = a + delta(toks[i].kind, BracketType::Angle);
        if p2 < 0 || b2 < 0 || k2 < 0 || a2 < 0 {
            None
        } else if p2 + b2 + k2 + a2 == 0 {
            Some(i)
        } else {
            enclosed_scan(toks, i + 1, p2, b2, k2, a2)
        }
    }
}

/// Index of the closing token of the region opened by the first token, or
/// `None` on a mismatch.
pub open spec fn enclosed_end(toks: Seq<TokenV>) -> Option<int> {
    enclosed_scan(toks, 0, 0, 0, 0, 0)
}

proof fn lemma_enclosed_scan_ge(toks: Seq<TokenV>, i: int, p: int, b: int, k: int, a: int)
    ensures
        enclosed_scan(toks, i, p, b, k, a) matches Some(e) ==> i <= e < toks.len(),
    decreases toks.len() - i,
{
    if 0 <= i < toks.len() {
        let p2 = p + delta(toks[i].kind, BracketType::Parenthesis);
        let b2 = b + delta(toks[i].kind, BracketType::Brace);
        let k2 = k + delta(toks[i].kind, BracketType::Bracket);
        let a2 = a + delta(toks[i].kind, BracketType::Angle);
        lemma_enclosed_scan_ge(toks, i + 1, p2, b2, k2, a2);
    }
}

fn enclosed_scan_x(tokens: &[Token], i: usize, p: i128, b: i128, k: i128, a: i128) -> (r: Option<
    usize,
>)
    requires
        i <= tokens@.len(),
        -(i as i128) <= p <= i as i128,
        -(i as i128) <= b <= i as i128,
        -(i as i128) <= k <= i as i128,
        -(i as i128) <= a <= i as i128,
    ensures
        match r {
            Some(e) => enclosed_scan(tokens.deep_view(), i as int, p as int, b as int, k as int, a as int)
                == Some(e as int) && i <= e < tokens@.len(),
            None => enclosed_scan(tokens.deep_view(), i as int, p as int, b as int, k as int, a as int)
                is None,
        },
    decreases tokens@.len() - i,
{
    if i >= tokens.len() {
        return None;
    }
    let t = vstd::slice::slice_index_get(tokens, i);
    assert(t.deep_view() == tokens.deep_view()[i as int]);
    let (p2, b2, k2, a2) = apply_token(t, p, b, k, a);
    if p2 < 0 || b2 < 0 || k2 < 0 || a2 < 0 {
        None
    } else if p2 + b2 + k2 + a2 == 0 {
        Some(i)
    } else {
        enclosed_scan_x(tokens, i + 1, p2, b2, k2, a2)
    }
}

/// Given a token sequence whose first token is an opening bracket, returns
/// the slice strictly between that bracket and the position where the sum
/// of the four bracket counters first returns to exactly 0.  A counter
/// going negative, or the end arriving first, is a `BracketMismatch` at the
/// first token's position.
pub fn get_enclosed_tokens(tokens: &[Token]) -> (r: Result<&[Token], SyntaxError>)
    requires
        tokens@.len() >= 1,
        tokens@[0].token_type is OpenBracket,
    ensures
        match r {
            Ok(sub) => {
                &&& enclosed_end(tokens.deep_view()) matches Some(e)
                &&& 1 <= enclosed_end(tokens.deep_view())->Some_0 < tokens@.len()
                &&& sub.deep_view() == tokens.deep_view().subrange(1, enclosed_end(
                    tokens.deep_view(),
                )->Some_0)
            },
            Err(e) => {
                &&& enclosed_end(tokens.deep_view()) is None
                &&& e.deep_view() == ErrV::BracketMismatch(
                    tokens.deep_view()[0].line,
                    tokens.deep_view()[0].column,
                )
            },
        },
{
    match enclosed_scan_x(tokens, 0, 0, 0, 0, 0) {
        Some(e) => {
            proof {
                let tv = tokens.deep_view();
                assert(tv[0] == tokens@[0].deep_view());
                let p2 = delta(tv[0].kind, BracketType::Parenthesis);
                let b2 = delta(tv[0].kind, BracketType::Brace);
                let k2 = delta(tv[0].kind, BracketType::Bracket);
                let a2 = delta(tv[0].kind, BracketType::Angle);
                assert(p2 + b2 + k2 + a2 == 1);
                assert(enclosed_scan(tv, 0, 0, 0, 0, 0) == enclosed_scan(tv, 1, p2, b2, k2, a2));
                lemma_enclosed_scan_ge(tv, 1, p2, b2, k2, a2);
            }
            let sub = vstd::slice::slice_subrange(tokens, 1, e);
            proof {
                lemma_slice_deep_view_subrange(tokens, sub, 1, e as int);
            }
            Ok(sub)
        },
        None => {
            let t0 = vstd::slice::slice_index_get(tokens, 0);
            Err(SyntaxError::BracketMismatch(t0.line, t0.column))
        },
    }
}

/// Bridge from the scan to the prefix counters: when the scan starting at
/// `i` with the counters of the first `i` tokens reports a close at `e`,
/// the summed counters return to exactly 0 right after `e`, never reach 0
/// between, and no single counter is negative anywhere in between.
pub proof fn lemma_enclosed_scan_counts(toks: Seq<TokenV>, i: int)
    requires
        0 <= i,
    ensures
        enclosed_scan(
            toks,
            i,
            cnt(toks, BracketType::Parenthesis, i),
            cnt(toks, BracketType::Brace, i),
            cnt(toks, BracketType::Bracket, i),
            cnt(toks, BracketType::Angle, i),
        ) matches Some(e) ==> {
            &&& i <= e < toks.len()
            &&& sum_cnt(toks, e + 1) == 0
            &&& forall|m: int| i < m <= e ==> sum_cnt(toks, m) != 0
            &&& forall|m: int, bk: BracketType| i < m <= e + 1 ==> cnt(toks, bk, m) >= 0
        },
    decreases toks.len() - i,
{
    let p = cnt(toks, BracketType::Parenthesis, i);
    let b = cnt(toks, BracketType::Brace, i);
    let k = cnt(toks, BracketType::Bracket, i);
    let a = cnt(toks, BracketType::Angle, i);
    if i < toks.len() {
        let p2 = p + delta(toks[i].kind, BracketType::Parenthesis);
        let b2 = b + delta(toks[i].kind, BracketType::Brace);
        let k2 = k + delta(toks[i].kind, BracketType::Bracket);
        let a2 = a + delta(toks[i].kind, BracketType::Angle);
        assert(p2 == cnt(toks, BracketType::Parenthesis, i + 1));
        assert(b2 == cnt(toks, BracketType::Brace, i + 1));
        assert(k2 == cnt(toks, BracketType::Bracket, i + 1));
        assert(a2 == cnt(toks, BracketType::Angle, i + 1));
        if p2 < 0 || b2 < 0 || k2 < 0 || a2 < 0 {
        } else if p2 + b2 + k2 + a2 == 0 {
            assert forall|m: int, bk: BracketType| i < m <= i + 1 implies cnt(toks, bk, m)
                >= 0 by {
                assert(m == i + 1);
            }
        } else {
            lemma_enclosed_scan_counts(toks, i + 1);
        }
    }
}

/// Law of the balanced-region scan: at the position `get_enclosed_tokens`
/// reports, the sum of the four bracket counters returns to exactly 0, the
/// sum never touches 0 at any earlier interior position, and no single
/// counter is negative anywhere up to and including the close.
pub proof fn lemma_enclosed_balanced(toks: Seq<TokenV>)
    ensures
        enclosed_end(toks) matches Some(e) ==> {
            &&& 0 <= e < toks.len()
            &&& sum_cnt(toks, e + 1) == 0
            &&& forall|m: int| 0 < m <= e ==> sum_cnt(toks, m) != 0
            &&& forall|m: int, bk: BracketType| 0 <= m <= e + 1 ==> cnt(toks, bk, m) >= 0
        },
{
    lemma_enclosed_scan_counts(toks, 0);
}

// ---------------------------------------------------------------------------
// Bracket-aware top-level split.
// ---------------------------------------------------------------------------

/// The splitting scan: walks from `i` with the given counters and an open
/// section starting at `start`; whenever the summed counters are 0 at a
/// delimiter, closes the section (keeping the delimiter iff `keep`); a
/// negative counter fails the whole walk; trailing tokens form a final
/// section.
pub open spec fn split_scan(
    toks: Seq<TokenV>,
    d: Delimiter,
    keep: bool,
    i: int,
    start: int,
    p: int,
    b: int,
    k: int,
    a: int,
) -> Result<Seq<Seq<TokenV>>, ()>
    decreases toks.len() - i,
{
    if i < 0 || i >= toks.len() {
        if start < toks.len() {
            Ok(seq![toks.subrange(start, toks.len() as int)])
        } else {
            Ok(Seq::empty())
        }
    } else {
        let p2 = p + delta(toks[i].kind, BracketType::Parenthesis);
        let b2 = b + delta(toks[i].kind, BracketType::Brace);
        let k2 = k + delta(toks[i].kind, BracketType::Bracket);
        let a2 = a + delta(toks[i].kind, BracketType::Angle);
        if p2 < 0 || b2 < 0 || k2 < 0 || a2 < 0 {
            Err(())
        } else if p2 + b2 + k2 + a2 == 0 && is_delim(toks[i].kind, d) {
            match split_scan(toks, d, keep, i + 1, i + 1, p2, b2, k2, a2) {
                Err(u) => Err(u),
                Ok(rest) => Ok(
                    seq![
                        toks.subrange(
                            start,
                            if keep {
                                i + 1
                            } else {
                                i
                            },
                        ),
                    ] + rest,
                ),
            }
        } else {
            split_scan(toks, d, keep, i + 1, start, p2, b2, k2, a2)
        }
    }
}

/// What `top_level_split` returns on a token sequence.
pub open spec fn split_spec(toks: Seq<TokenV>, d: Delimiter, keep: bool) -> Result<
    Seq<Seq<TokenV>>,
    (),
> {
    split_scan(toks, d, keep, 0, 0, 0, 0, 0, 0)
}

fn split_scan_x<'a>(
    tokens: &'a [Token],
    d: Delimiter,
    keep: bool,
    i: usize,
    start: usize,
    p: i128,
    b: i128,
    k: i128,
    a: i128,
) -> (r: Result<Vec<&'a [Token]>, ()>)
    requires
        start <= i <= tokens@.len(),
        -(i as i128) <= p <= i as i128,
        -(i as i128) <= b <= i as i128,
        -(i as i128) <= k <= i as i128,
        -(i as i128) <= a <= i as i128,
    ensures
        match r {
            Ok(v) => split_scan(
                tokens.deep_view(),
                d,
                keep,
                i as int,
                start as int,
                p as int,
                b as int,
                k as int,
                a as int,
            ) == Ok::<Seq<Seq<TokenV>>, ()>(v.deep_view()),
            Err(_) => split_scan(
                tokens.deep_view(),
                d,
                keep,
                i as int,
                start as int,
                p as int,
                b as int,
                k as int,
                a as int,
            ) == Err::<Seq<Seq<TokenV>>, ()>(()),
        },
    decreases tokens@.len() - i,
{
    let n = tokens.len();
    if i >= n {
        if start < n {
            let sec = vstd::slice::slice_subrange(tokens, start, n);
            proof {
                lemma_slice_deep_view_subrange(tokens, sec, start as int, n as int);
            }
            let v: Vec<&[Token]> = vec![sec];
            assert(v.deep_view() =~= seq![sec.deep_view()]);
            return Ok(v);
        } else {
            let v: Vec<&[Token]> = Vec::new();
            assert(v.deep_view() =~= Seq::<Seq<TokenV>>::empty());
            return Ok(v);
        }
    }
    let t = vstd::slice::slice_index_get(tokens, i);
    assert(t.deep_view() == tokens.deep_view()[i as int]);
    let (p2, b2, k2, a2) = apply_token(t, p, b, k, a);
    if p2 < 0 || b2 < 0 || k2 < 0 || a2 < 0 {
        Err(())
    } else if p2 + b2 + k2 + a2 == 0 && token_matches(t, d) {
        match split_scan_x(tokens, d, keep, i + 1, i + 1, p2, b2, k2, a2) {
            Err(u) => Err(u),
            Ok(mut rest) => {
                let sec = vstd::slice::slice_subrange(
                    tokens,
                    start,
                    if keep {
                        i + 1
                    } else {
                        i
                    },
                );
                let ghost old_rest = rest.deep_view();
                rest.insert(0, sec);
                proof {
                    lemma_slice_deep_view_subrange(
                        tokens,
                        sec,
                        start as int,
                        if keep {
                            i + 1
                        } else {
                            i as int
                        },
                    );
                    assert(rest.deep_view() =~= seq![sec.deep_view()] + old_rest);
                }
                Ok(rest)
            },
        }
    } else {
        split_scan_x(tokens, d, keep, i + 1, start, p2, b2, k2, a2)
    }
}

/// Walks the sequence with the four-counter bracket bookkeeping; whenever
/// the bracket sum is 0 at a token matching the delimiter, the slice since
/// the last split point becomes one section (including the delimiter iff
/// `keep_delimiter`).  Trailing tokens form a final section; an input with
/// no delimiter yields one section spanning the whole input, and an empty
/// input yields no section.  Any counter going negative is a
/// `BracketMismatch` at the first token's position.
pub fn top_level_split<'a>(tokens: &'a [Token], delimiter: Delimiter, keep_delimiter: bool) -> (r:
    Result<Vec<&'a [Token]>, SyntaxError>)
    ensures
        match r {
            Ok(v) => split_spec(tokens.deep_view(), delimiter, keep_delimiter) == Ok::<
                Seq<Seq<TokenV>>,
                (),
            >(v.deep_view()),
            Err(e) => {
                &&& split_spec(tokens.deep_view(), delimiter, keep_delimiter) == Err::<
                    Seq<Seq<TokenV>>,
                    (),
                >(())
                &&& tokens@.len() >= 1
                &&& e.deep_view() == ErrV::BracketMismatch(
                    tokens.deep_view()[0].line,
                    tokens.deep_view()[0].column,
                )
            },
        },
{
    match split_scan_x(tokens, delimiter, keep_delimiter, 0, 0, 0, 0, 0, 0) {
        Ok(v) => Ok(v),
        Err(_) => {
            let t0 = vstd::slice::slice_index_get(tokens, 0);
            Err(SyntaxError::BracketMismatch(t0.line, t0.column))
        },
    }
}

// ---------------------------------------------------------------------------
// Facts about the split used by the grammar and stated as laws.
// ---------------------------------------------------------------------------



/// Concatenation of a sequence of sections.
pub open spec fn concat_secs(secs: Seq<Seq<TokenV>>) -> Seq<TokenV>
    decreases secs.len(),
{
    if secs.len() == 0 {
        Seq::empty()
    } else {
        secs[0] + concat_secs(secs.subrange(1, secs.len() as int))
    }
}

/// Sections re-joined with one delimiter token between consecutive
/// sections (`ds` may also carry one trailing delimiter after the last
/// section, as happens when the input ended with a delimiter).
pub open spec fn interleave(secs: Seq<Seq<TokenV>>, ds: Seq<TokenV>) -> Seq<TokenV>
    decreases secs.len(),
{
    if secs.len() == 0 {
        Seq::empty()
    } else if ds.len() == 0 {
        concat_secs(secs)
    } else {
        secs[0] + seq![ds[0]] + interleave(
            secs.subrange(1, secs.len() as int),
            ds.subrange(1, ds.len() as int),
        )
    }
}

/// Generalised re-joining law over the splitting scan: a successful split
/// of the tokens from `start` re-joins, with the delimiters re-inserted
/// when they were dropped, to exactly the tokens from `start`.
pub proof fn lemma_split_scan_rejoin(
    toks: Seq<TokenV>,
    d: Delimiter,
    keep: bool,
    i: int,
    start: int,
    p: int,
    b: int,
    k: int,
    a: int,
)
    requires
        0 <= start <= i <= toks.len(),
    ensures
        split_scan(toks, d, keep, i, start, p, b, k, a) matches Ok(secs) ==> if keep {
            concat_secs(secs) == toks.subrange(start, toks.len() as int)
        } else {
            exists|ds: Seq<TokenV>|
                (forall|x: int| 0 <= x < ds.len() ==> is_delim(#[trigger] ds[x].kind, d))
                    && interleave(secs, ds) == toks.subrange(start, toks.len() as int)
        },
    decreases toks.len() - i,
{
    let n = toks.len() as int;
    if i >= n {
        if split_scan(toks, d, keep, i, start, p, b, k, a) is Ok {
            let secs = split_scan(toks, d, keep, i, start, p, b, k, a)->Ok_0;
            if start < n {
                assert(secs == seq![toks.subrange(start, n)]);
                assert(secs.subrange(1, secs.len() as int) =~= Seq::<Seq<TokenV>>::empty());
                assert(concat_secs(Seq::<Seq<TokenV>>::empty()) =~= Seq::<TokenV>::empty());
                assert(concat_secs(secs) =~= toks.subrange(start, n));
                if !keep {
                    let ds = Seq::<TokenV>::empty();
                    assert(interleave(secs, ds) == concat_secs(secs));
                }
            } else {
                assert(secs =~= Seq::<Seq<TokenV>>::empty());
                assert(concat_secs(secs) =~= toks.subrange(start, n));
                if !keep {
                    let ds = Seq::<TokenV>::empty();
                    assert(interleave(secs, ds) =~= toks.subrange(start, n));
                }
            }
        }
    } else {
        let p2 = p + delta(toks[i].kind, BracketType::Parenthesis);
        let b2 = b + delta(toks[i].kind, BracketType::Brace);
        let k2 = k + delta(toks[i].kind, BracketType::Bracket);
        let a2 = a + delta(toks[i].kind, BracketType::Angle);
        if p2 < 0 || b2 < 0 || k2 < 0 || a2 < 0 {
        } else if p2 + b2 + k2 + a2 == 0 && is_delim(toks[i].kind, d) {
            lemma_split_scan_rejoin(toks, d, keep, i + 1, i + 1, p2, b2, k2, a2);
            if split_scan(toks, d, keep, i, start, p, b, k, a) is Ok {
                let secs = split_scan(toks, d, keep, i, start, p, b, k, a)->Ok_0;
                let rest = split_scan(toks, d, keep, i + 1, i + 1, p2, b2, k2, a2)->Ok_0;
                let sec0 = toks.subrange(
                    start,
                    if keep {
                        i + 1
                    } else {
                        i
                    },
                );
                assert(secs == seq![sec0] + rest);
                assert(secs.subrange(1, secs.len() as int) =~= rest);
                if keep {
                    assert(concat_secs(secs) == sec0 + concat_secs(rest));
                    assert(sec0 + toks.subrange(i + 1, n) =~= toks.subrange(start, n));
                } else {
                    let ds0 = choose|ds: Seq<TokenV>|
                        (forall|x: int| 0 <= x < ds.len() ==> is_delim(#[trigger] ds[x].kind, d))
                            && interleave(rest, ds) == toks.subrange(i + 1, n);
                    let ds = seq![toks[i]] + ds0;
                    assert(ds.subrange(1, ds.len() as int) =~= ds0);
                    if rest.len() == 0 {
                        assert(toks.subrange(i + 1, n) =~= Seq::<TokenV>::empty());
                        assert(interleave(secs, ds) == sec0 + seq![ds[0]] + interleave(rest, ds0));
                        assert(interleave(rest, ds0) =~= Seq::<TokenV>::empty());
                    } else {
                        assert(interleave(secs, ds) == sec0 + seq![ds[0]] + interleave(rest, ds0));
                    }
                    assert(sec0 + seq![toks[i]] + toks.subrange(i + 1, n) =~= toks.subrange(
                        start,
                        n,
                    ));
                    assert(forall|x: int|
                        0 <= x < ds.len() ==> is_delim(#[trigger] ds[x].kind, d));
                    assert(interleave(secs, ds) == toks.subrange(start, n));
                }
            }
        } else {
            lemma_split_scan_rejoin(toks, d, keep, i + 1, start, p2, b2, k2, a2);
        }
    }
}

/// Law: `top_level_split` is a left inverse of concatenation.  With the
/// delimiters kept, concatenating the sections reproduces the input; with
/// the delimiters dropped, re-inserting one delimiter token between the
/// sections reproduces the input.
pub proof fn lemma_split_rejoin(toks: Seq<TokenV>, d: Delimiter, keep: bool)
    ensures
        split_spec(toks, d, keep) matches Ok(secs) ==> if keep {
            concat_secs(secs) == toks
        } else {
            exists|ds: Seq<TokenV>|
                (forall|x: int| 0 <= x < ds.len() ==> is_delim(#[trigger] ds[x].kind, d))
                    && interleave(secs, ds) == toks
        },
{
    lemma_split_scan_rejoin(toks, d, keep, 0, 0, 0, 0, 0, 0);
    assert(toks.subrange(0, toks.len() as int) =~= toks);
}

// ---------------------------------------------------------------------------
// First top-level occurrence of a delimiter.
// ---------------------------------------------------------------------------

pub open spec fn find_top_from(
    toks: Seq<TokenV>,
    d: Delimiter,
    i: int,
    p: int,
    b: int,
    k: int,
    a: int,
) -> Option<int>
    decreases toks.len() - i,
{
    if i < 0 || i >= toks.len() {
        None
    } else {
        let p2 = p + delta(toks[i].kind, BracketType::Parenthesis);
        let b2 = b + delta(toks[i].kind, BracketType::Brace);
        let k2 = k + delta(toks[i].kind, BracketType::Bracket);
        let a2 = a + delta(toks[i].kind, BracketType::Angle);
        if p2 + b2 + k2 + a2 == 0 && is_delim(toks[i].kind, d) {
            Some(i)
        } else {
            find_top_from(toks, d, i + 1, p2, b2, k2, a2)
        }
    }
}

/// Position of the first delimiter standing at bracket depth zero.
pub open spec fn find_top(toks: Seq<TokenV>, d: Delimiter) -> Option<int> {
    find_top_from(toks, d, 0, 0, 0, 0, 0)
}


fn find_top_from_x(tokens: &[Token], d: Delimiter, i: usize, p: i128, b: i128, k: i128, a: i128)
    -> (r: Option<usize>)
    requires
        i <= tokens@.len(),
        -(i as i128) <= p <= i as i128,
        -(i as i128) <= b <= i as i128,
        -(i as i128) <= k <= i as i128,
        -(i as i128) <= a <= i as i128,
    ensures
        match r {
            Some(m) => find_top_from(
                tokens.deep_view(),
                d,
                i as int,
                p as int,
                b as int,
                k as int,
                a as int,
            ) == Some(m as int) && i <= m < tokens@.len(),
            None => find_top_from(
                tokens.deep_view(),
                d,
                i as int,
                p as int,
                b as int,
                k as int,
                a as int,
            ) is None,
        },
    decreases tokens@.len() - i,
{
    if i >= tokens.len() {
        return None;
    }
    let t = vstd::slice::slice_index_get(tokens, i);
    assert(t.deep_view() == tokens.deep_view()[i as int]);
    let (p2, b2, k2, a2) = apply_token(t, p, b, k, a);
    if p2 + b2 + k2 + a2 == 0 && token_matches(t, d) {
        Some(i)
    } else {
        find_top_from_x(tokens, d, i + 1, p2, b2, k2, a2)
    }
}

/// First position at which the delimiter stands with all four bracket
/// counters summing to zero.
pub fn find_top_level(tokens: &[Token], d: Delimiter) -> (r: Option<usize>)
    ensures
        match r {
            Some(m) => find_top(tokens.deep_view(), d) == Some(m as int) && m < tokens@.len(),
            None => find_top(tokens.deep_view(), d) is None,
        },
{
    find_top_from_x(tokens, d, 0, 0, 0, 0, 0)
}

} // verus!
