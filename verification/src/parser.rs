use vstd::prelude::*;

use crate::syntax_err::{ErrV, SyntaxError};
use crate::tokeniser::{BracketType, OperatorType, Token, TokenKindV, TokenType, TokenV};

verus! {

// ---------------------------------------------------------------------------
// The abstract syntax tree and its mathematical model.
// ---------------------------------------------------------------------------

/// One item of a flat, not yet precedence-ordered expression.
#[derive(Debug)]
pub enum OpOrExpr {
    Operator(OperatorType),
    Expr(Box<ASTNode>),
    Literal(LiteralToken),
}

/// One call argument: keyed (`name: value`) or positional.
#[derive(Debug)]
pub enum KeyOrNoKey {
    Key(String, Box<ASTNode>),
    NoKey(Box<ASTNode>),
}

/// A literal operand of an expression.  A number keeps its matched text;
/// evaluation recovers its value.
#[derive(Debug)]
pub enum LiteralToken {
    Symbol(String),
    String(String),
    Number(String),
    Boolean(bool),
}

/// One dictionary entry: keyed (`key: value`) or positional.
#[derive(Debug)]
pub enum DictKey {
    Key(Box<ASTNode>, Box<ASTNode>),
    NoKey(Box<ASTNode>),
}

/// A node of the abstract syntax tree.  Every node owns its children.
#[derive(Debug)]
pub enum ASTNode {
    Call(Box<ASTNode>, Vec<KeyOrNoKey>),
    Lambda(Vec<String>, Box<ASTNode>),
    Expression(Vec<OpOrExpr>),
    Dict(Vec<DictKey>),
    Index(Vec<Box<ASTNode>>),
    Nothing,
}

/// Mathematical model of an AST node.
#[verifier::ext_equal]
pub enum AstV {
    Call(Box<AstV>, Seq<ArgV>),
    Lambda(Seq<Seq<char>>, Box<AstV>),
    Expression(Seq<OpOrExprV>),
    Dict(Seq<DictKeyV>),
    Index(Seq<AstV>),
    Nothing,
}

#[verifier::ext_equal]
pub enum OpOrExprV {
    Operator(OperatorType),
    Expr(Box<AstV>),
    Literal(LiteralV),
}

#[verifier::ext_equal]
pub enum ArgV {
    Key(Seq<char>, Box<AstV>),
    NoKey(Box<AstV>),
}

#[verifier::ext_equal]
pub enum LiteralV {
    Symbol(Seq<char>),
    String(Seq<char>),
    Number(Seq<char>),
    Boolean(bool),
}

#[verifier::ext_equal]
pub enum DictKeyV {
    Key(Box<AstV>, Box<AstV>),
    NoKey(Box<AstV>),
}

impl DeepView for LiteralToken {
    type V = LiteralV;

    open spec fn deep_view(&self) -> LiteralV {
        match self {
            LiteralToken::Symbol(s) => LiteralV::Symbol(s@),
            LiteralToken::String(s) => LiteralV::String(s@),
            LiteralToken::Number(s) => LiteralV::Number(s@),
            LiteralToken::Boolean(b) => LiteralV::Boolean(*b),
        }
    }
}

pub open spec fn ast_view(a: ASTNode) -> AstV
    decreases a,
    via ast_view_dec
{
    match a {
        ASTNode::Call(callee, args) => AstV::Call(
            Box::new(ast_view(*callee)),
            args_view(args@),
        ),
        ASTNode::Lambda(params, body) => AstV::Lambda(
            Seq::new(params@.len(), |i: int| params@[i]@),
            Box::new(ast_view(*body)),
        ),
        ASTNode::Expression(items) => AstV::Expression(items_view(items@)),
        ASTNode::Dict(entries) => AstV::Dict(entries_view(entries@)),
        ASTNode::Index(segments) => AstV::Index(segments_view(segments@)),
        ASTNode::Nothing => AstV::Nothing,
    }
}

#[via_fn]
proof fn ast_view_dec(a: ASTNode) {
    match a {
        ASTNode::Call(callee, args) => {
            assert(decreases_to!(a => args));
            assert(decreases_to!(args => args@));
        },
        ASTNode::Expression(items) => {
            assert(decreases_to!(a => items));
            assert(decreases_to!(items => items@));
        },
        ASTNode::Dict(entries) => {
            assert(decreases_to!(a => entries));
            assert(decreases_to!(entries => entries@));
        },
        ASTNode::Index(segments) => {
            assert(decreases_to!(a => segments));
            assert(decreases_to!(segments => segments@));
        },
        _ => {},
    }
}

pub open spec fn args_view(s: Seq<KeyOrNoKey>) -> Seq<ArgV>
    decreases s,
{
    if s.len() == 0 {
        Seq::empty()
    } else {
        seq![arg_view(s[0])] + args_view(s.subrange(1, s.len() as int))
    }
}

pub open spec fn items_view(s: Seq<OpOrExpr>) -> Seq<OpOrExprV>
    decreases s,
{
    if s.len() == 0 {
        Seq::empty()
    } else {
        seq![item_view(s[0])] + items_view(s.subrange(1, s.len() as int))
    }
}

pub open spec fn entries_view(s: Seq<DictKey>) -> Seq<DictKeyV>
    decreases s,
{
    if s.len() == 0 {
        Seq::empty()
    } else {
        seq![entry_view(s[0])] + entries_view(s.subrange(1, s.len() as int))
    }
}

pub open spec fn segments_view(s: Seq<Box<ASTNode>>) -> Seq<AstV>
    decreases s,
{
    if s.len() == 0 {
        Seq::empty()
    } else {
        seq![ast_view(*s[0])] + segments_view(s.subrange(1, s.len() as int))
    }
}

pub proof fn lemma_args_view(s: Seq<KeyOrNoKey>)
    ensures
        args_view(s).len() == s.len(),
        forall|i: int| 0 <= i < s.len() ==> args_view(s)[i] == arg_view(#[trigger] s[i]),
    decreases s.len(),
{
    if s.len() > 0 {
        lemma_args_view(s.subrange(1, s.len() as int));
        assert forall|i: int| 0 <= i < s.len() implies args_view(s)[i] == arg_view(#[trigger] s[i]) by {
            if i > 0 {
                assert(s.subrange(1, s.len() as int)[i - 1] == s[i]);
            }
        }
    }
}

pub proof fn lemma_items_view(s: Seq<OpOrExpr>)
    ensures
        items_view(s).len() == s.len(),
        forall|i: int| 0 <= i < s.len() ==> items_view(s)[i] == item_view(#[trigger] s[i]),
    decreases s.len(),
{
    if s.len() > 0 {
        lemma_items_view(s.subrange(1, s.len() as int));
        assert forall|i: int| 0 <= i < s.len() implies items_view(s)[i] == item_view(#[trigger] s[i]) by {
            if i > 0 {
                assert(s.subrange(1, s.len() as int)[i - 1] == s[i]);
            }
        }
    }
}

pub proof fn lemma_entries_view(s: Seq<DictKey>)
    ensures
        entries_view(s).len() == s.len(),
        forall|i: int| 0 <= i < s.len() ==> entries_view(s)[i] == entry_view(#[trigger] s[i]),
    decreases s.len(),
{
    if s.len() > 0 {
        lemma_entries_view(s.subrange(1, s.len() as int));
        assert forall|i: int| 0 <= i < s.len() implies entries_view(s)[i] == entry_view(#[trigger] s[i]) by {
            if i > 0 {
                assert(s.subrange(1, s.len() as int)[i - 1] == s[i]);
            }
        }
    }
}

pub proof fn lemma_segments_view(s: Seq<Box<ASTNode>>)
    ensures
        segments_view(s).len() == s.len(),
        forall|i: int| 0 <= i < s.len() ==> segments_view(s)[i] == ast_view(*#[trigger] s[i]),
    decreases s.len(),
{
    if s.len() > 0 {
        lemma_segments_view(s.subrange(1, s.len() as int));
        assert forall|i: int| 0 <= i < s.len() implies segments_view(s)[i] == ast_view(*#[trigger] s[i]) by {
            if i > 0 {
                assert(s.subrange(1, s.len() as int)[i - 1] == s[i]);
            }
        }
    }
}

pub open spec fn arg_view(a: KeyOrNoKey) -> ArgV
    decreases a,
{
    match a {
        KeyOrNoKey::Key(name, v) => ArgV::Key(name@, Box::new(ast_view(*v))),
        KeyOrNoKey::NoKey(v) => ArgV::NoKey(Box::new(ast_view(*v))),
    }
}

pub open spec fn item_view(it: OpOrExpr) -> OpOrExprV
    decreases it,
{
    match it {
        OpOrExpr::Operator(op) => OpOrExprV::Operator(op),
        OpOrExpr::Expr(e) => OpOrExprV::Expr(Box::new(ast_view(*e))),
        OpOrExpr::Literal(l) => OpOrExprV::Literal(l.deep_view()),
    }
}

pub open spec fn entry_view(e: DictKey) -> DictKeyV
    decreases e,
{
    match e {
        DictKey::Key(k, v) => DictKeyV::Key(Box::new(ast_view(*k)), Box::new(ast_view(*v))),
        DictKey::NoKey(v) => DictKeyV::NoKey(Box::new(ast_view(*v))),
    }
}

impl DeepView for OpOrExpr {
    type V = OpOrExprV;

    open spec fn deep_view(&self) -> OpOrExprV {
        item_view(*self)
    }
}

impl DeepView for KeyOrNoKey {
    type V = ArgV;

    open spec fn deep_view(&self) -> ArgV {
        arg_view(*self)
    }
}

impl DeepView for DictKey {
    type V = DictKeyV;

    open spec fn deep_view(&self) -> DictKeyV {
        entry_view(*self)
    }
}

impl DeepView for ASTNode {
    type V = AstV;

    open spec fn deep_view(&self) -> AstV {
        ast_view(*self)
    }
}


// ---------------------------------------------------------------------------
// The grammar's specification.  `parse_spec` tries the five rules in the
// fixed priority order: lambda, dict, index, call, expression; the first
// rule to succeed decides, and only when all five fail does the span fail
// with `InvalidSyntax` at its first token.
// ---------------------------------------------------------------------------

/// Strips the optional one-letter prefix and the surrounding quote pair
/// from a string lexeme; escape sequences stay as written.
pub open spec fn strip_quotes(s: Seq<char>) -> Seq<char> {
    if s.len() >= 2 && crate::matchers::is_quote_char(s[0]) {
        s.subrange(1, s.len() - 1)
    } else if s.len() >= 3 && crate::matchers::is_lower_char(s[0]) && crate::matchers::is_quote_char(
        s[1],
    ) {
        s.subrange(2, s.len() - 1)
    } else {
        s
    }
}

/// The literal a single token stands for, if any.
pub open spec fn literal_of(kind: TokenKindV) -> Option<LiteralV> {
    match kind {
        TokenKindV::Symbol(t) => Some(LiteralV::Symbol(t)),
        TokenKindV::String(t) => Some(LiteralV::String(strip_quotes(t))),
        TokenKindV::Number(t) => Some(LiteralV::Number(t)),
        TokenKindV::Boolean(b) => Some(LiteralV::Boolean(b)),
        _ => None,
    }
}

/// Scan for the last opening parenthesis standing at parenthesis depth 0,
/// carrying the best candidate found so far; 0 when there is none.
pub open spec fn last_open_paren_from(toks: Seq<TokenV>, i: int, depth: int, best: int) -> int
    decreases toks.len() - i,
{
    if i < 0 || i >= toks.len() {
        best
    } else if toks[i].kind == TokenKindV::OpenBracket(BracketType::Parenthesis) {
        last_open_paren_from(
            toks,
            i + 1,
            depth + 1,
            if depth == 0 {
                i
            } else {
                best
            },
        )
    } else if toks[i].kind == TokenKindV::CloseBracket(BracketType::Parenthesis) {
        last_open_paren_from(toks, i + 1, depth - 1, best)
    } else {
        last_open_paren_from(toks, i + 1, depth, best)
    }
}

pub open spec fn last_open_paren(toks: Seq<TokenV>) -> int {
    last_open_paren_from(toks, 0, 0, 0)
}

/// Position of the first token of a span, for error reporting.
pub open spec fn err_at(toks: Seq<TokenV>) -> ErrV {
    ErrV::InvalidSyntax(toks[0].line, toks[0].column)
}

pub open spec fn parse_spec(toks: Seq<TokenV>) -> Result<AstV, ErrV>
    decreases toks.len(), 6int, 0int,
{
    if toks.len() == 0 {
        Err(ErrV::UnexpectedEOF)
    } else if toks.len() >= 2 && toks[0].kind == TokenKindV::OpenBracket(BracketType::Parenthesis)
        && crate::scan::enclosed_end(toks) == Some(toks.len() - 1) {
        parse_spec(toks.subrange(1, toks.len() - 1))
    } else {
        let l = lambda_spec(toks);
        if l is Ok {
            l
        } else {
            let d = dict_spec(toks);
            if d is Ok {
                d
            } else {
                let x = index_spec(toks);
                if x is Ok {
                    x
                } else {
                    let c = call_spec(toks);
                    if c is Ok {
                        c
                    } else {
                        let e = expr_spec(toks);
                        if e is Ok {
                            e
                        } else {
                            Err(err_at(toks))
                        }
                    }
                }
            }
        }
    }
}

/// The parameter names of a lambda head: every semicolon section must be
/// exactly one bare symbol, whose lexeme is the name.
pub open spec fn params_of(secs: Seq<Seq<TokenV>>) -> Option<Seq<Seq<char>>>
    decreases secs.len(),
{
    if secs.len() == 0 {
        Some(Seq::empty())
    } else if secs[0].len() == 1 && secs[0][0].kind is Symbol {
        match params_of(secs.subrange(1, secs.len() as int)) {
            Some(rest) => Some(seq![secs[0][0].lexeme] + rest),
            None => None,
        }
    } else {
        None
    }
}

/// Lambda rule: parameters separated by top-level semicolons, a top-level
/// arrow, then the body.  Every parameter span must be one bare symbol.
pub open spec fn lambda_spec(toks: Seq<TokenV>) -> Result<AstV, ErrV>
    decreases toks.len(), 5int, 0int,
    via lambda_spec_dec
{
    if toks.len() == 0 {
        Err(ErrV::UnexpectedEOF)
    } else {
        match crate::scan::find_top(toks, crate::scan::Delimiter::Arrow) {
            Option::None => Err(err_at(toks)),
            Option::Some(pos) => if 0 <= pos < toks.len() {
                let argts = toks.subrange(0, pos);
                match crate::scan::split_spec(argts, crate::scan::Delimiter::Semicolon, false) {
                    Err(_) => Err(ErrV::BracketMismatch(toks[0].line, toks[0].column)),
                    Ok(secs) => match params_of(secs) {
                        Option::None => Err(err_at(toks)),
                        Option::Some(params) => match parse_spec(
                            toks.subrange(pos + 1, toks.len() as int),
                        ) {
                            Ok(body) => Ok(AstV::Lambda(params, Box::new(body))),
                            Err(e) => Err(e),
                        },
                    },
                }
            } else {
                Err(err_at(toks))
            },
        }
    }
}

#[via_fn]
proof fn lambda_spec_dec(toks: Seq<TokenV>) {
}

/// Dict entries: each comma section is split at its first top-level colon
/// into key and value, or parsed whole as a positional entry.  `limit`
/// bounds every section strictly; the splitting lemmas supply it.
pub open spec fn dict_entries_spec(secs: Seq<Seq<TokenV>>, limit: int) -> Result<
    Seq<DictKeyV>,
    ErrV,
>
    decreases limit, 3int, secs.len(),
{
    if secs.len() == 0 {
        Ok(Seq::empty())
    } else {
        let sec = secs[0];
        let head: Result<DictKeyV, ErrV> = match crate::scan::find_top(
            sec,
            crate::scan::Delimiter::Colon,
        ) {
            Option::Some(c) => if 0 <= c < sec.len() && sec.len() <= limit {
                match parse_spec(sec.subrange(0, c)) {
                    Ok(key) => match parse_spec(sec.subrange(c + 1, sec.len() as int)) {
                        Ok(value) => Ok(DictKeyV::Key(Box::new(key), Box::new(value))),
                        Err(e) => Err(e),
                    },
                    Err(e) => Err(e),
                }
            } else {
                Err(ErrV::UnexpectedEOF)
            },
            Option::None => if sec.len() < limit {
                match parse_spec(sec) {
                    Ok(v) => Ok(DictKeyV::NoKey(Box::new(v))),
                    Err(e) => Err(e),
                }
            } else {
                Err(ErrV::UnexpectedEOF)
            },
        };
        match head {
            Err(e) => Err(e),
            Ok(entry) => match dict_entries_spec(secs.subrange(1, secs.len() as int), limit) {
                Ok(rest) => Ok(seq![entry] + rest),
                Err(e) => Err(e),
            },
        }
    }
}

/// Dict rule: the whole span is one brace-delimited group; its interior is
/// split on top-level commas into entries.
pub open spec fn dict_spec(toks: Seq<TokenV>) -> Result<AstV, ErrV>
    decreases toks.len(), 4int, 0int,
{
    if toks.len() == 0 {
        Err(ErrV::UnexpectedEOF)
    } else if !(toks[0].kind == TokenKindV::OpenBracket(BracketType::Brace)) {
        Err(err_at(toks))
    } else if !(crate::scan::enclosed_end(toks) == Some(toks.len() - 1)) {
        Err(ErrV::BracketMismatch(toks[0].line, toks[0].column))
    } else {
        let interior = toks.subrange(1, toks.len() - 1);
        match crate::scan::split_spec(interior, crate::scan::Delimiter::Comma, false) {
            Err(_) => Err(ErrV::BracketMismatch(interior[0].line, interior[0].column)),
            Ok(secs) => match dict_entries_spec(secs, toks.len() as int - 1) {
                Ok(entries) => Ok(AstV::Dict(entries)),
                Err(e) => Err(e),
            },
        }
    }
}

/// Index segments, each parsed recursively; every segment must parse.
pub open spec fn index_segments_spec(secs: Seq<Seq<TokenV>>, limit: int) -> Result<
    Seq<AstV>,
    ErrV,
>
    decreases limit, 2int, secs.len(),
{
    if secs.len() == 0 {
        Ok(Seq::empty())
    } else if secs[0].len() < limit {
        match parse_spec(secs[0]) {
            Err(e) => Err(e),
            Ok(seg) => match index_segments_spec(secs.subrange(1, secs.len() as int), limit) {
                Ok(rest) => Ok(seq![seg] + rest),
                Err(e) => Err(e),
            },
        }
    } else {
        Err(ErrV::UnexpectedEOF)
    }
}

/// Index rule: at least two tokens and at least one top-level dot; the
/// span splits on top-level dots and every segment must parse on its own.
pub open spec fn index_spec(toks: Seq<TokenV>) -> Result<AstV, ErrV>
    decreases toks.len(), 3int, 1int,
{
    if toks.len() == 0 {
        Err(ErrV::UnexpectedEOF)
    } else if toks.len() <= 1 || crate::scan::find_top(toks, crate::scan::Delimiter::Dot)
        is None {
        Err(err_at(toks))
    } else {
        match crate::scan::split_spec(toks, crate::scan::Delimiter::Dot, false) {
            Err(_) => Err(ErrV::BracketMismatch(toks[0].line, toks[0].column)),
            Ok(secs) => match index_segments_spec(secs, toks.len() as int) {
                Ok(segs) => Ok(AstV::Index(segs)),
                Err(_) => Err(err_at(toks)),
            },
        }
    }
}

/// Call arguments: a comma section whose second token is a colon is keyed
/// by its first token's lexeme; any other section is positional.
pub open spec fn call_args_spec(secs: Seq<Seq<TokenV>>, limit: int) -> Result<Seq<ArgV>, ErrV>
    decreases limit, 3int, secs.len(),
{
    if secs.len() == 0 {
        Ok(Seq::empty())
    } else {
        let sec = secs[0];
        let head: Result<ArgV, ErrV> = if sec.len() > 1 && sec[1].kind is Colon {
            if sec.len() <= limit {
                match parse_spec(sec.subrange(2, sec.len() as int)) {
                    Ok(v) => Ok(ArgV::Key(sec[0].lexeme, Box::new(v))),
                    Err(e) => Err(e),
                }
            } else {
                Err(ErrV::UnexpectedEOF)
            }
        } else {
            if sec.len() < limit {
                match parse_spec(sec) {
                    Ok(v) => Ok(ArgV::NoKey(Box::new(v))),
                    Err(e) => Err(e),
                }
            } else {
                Err(ErrV::UnexpectedEOF)
            }
        };
        match head {
            Err(e) => Err(e),
            Ok(arg) => match call_args_spec(secs.subrange(1, secs.len() as int), limit) {
                Ok(rest) => Ok(seq![arg] + rest),
                Err(e) => Err(e),
            },
        }
    }
}

/// Call rule: the span ends in a closing parenthesis; the last top-level
/// opening parenthesis separates the callee from the argument list, the
/// callee must not end in a dot, and the parenthesised group must reach
/// the end of the span.
pub open spec fn call_spec(toks: Seq<TokenV>) -> Result<AstV, ErrV>
    decreases toks.len(), 2int, 0int,
{
    if toks.len() < 3 || !(toks[toks.len() - 1].kind == TokenKindV::CloseBracket(
        BracketType::Parenthesis,
    )) {
        Err(ErrV::UnexpectedEOF)
    } else {
        let index = last_open_paren(toks);
        if !(0 <= index < toks.len()) {
            Err(err_at(toks))
        } else if index > 0 && toks[index - 1].kind is Dot {
            Err(ErrV::InvalidSyntax(toks[index - 1].line, toks[index - 1].column))
        } else if !(toks[index].kind == TokenKindV::OpenBracket(BracketType::Parenthesis)) {
            Err(ErrV::BracketMismatch(toks[index].line, toks[index].column))
        } else {
            let enclosed = toks.subrange(index, toks.len() as int);
            if !(crate::scan::enclosed_end(enclosed) == Some(enclosed.len() - 1)) {
                Err(ErrV::BracketMismatch(enclosed[0].line, enclosed[0].column))
            } else {
                let interior = toks.subrange(index + 1, toks.len() - 1);
                match crate::scan::split_spec(interior, crate::scan::Delimiter::Comma, false) {
                    Err(_) => Err(ErrV::BracketMismatch(interior[0].line, interior[0].column)),
                    Ok(secs) => match call_args_spec(secs, toks.len() as int - 1) {
                        Err(e) => Err(e),
                        Ok(args) => match parse_spec(toks.subrange(0, index)) {
                            Ok(callee) => Ok(AstV::Call(Box::new(callee), args)),
                            Err(e) => Err(e),
                        },
                    },
                }
            }
        }
    }
}

/// Expression operands: every section but the last ends in exactly one
/// operator token; operands parse recursively and flatten, in source
/// order, to alternating sub-expressions and operators.
pub open spec fn expr_items_spec(secs: Seq<Seq<TokenV>>, limit: int) -> Result<
    Seq<OpOrExprV>,
    ErrV,
>
    decreases limit, 0int, secs.len(),
{
    if secs.len() == 0 {
        Ok(Seq::empty())
    } else if secs.len() == 1 {
        let sec = secs[0];
        if sec.len() < limit {
            match parse_spec(sec) {
                Ok(v) => Ok(seq![OpOrExprV::Expr(Box::new(v))]),
                Err(e) => Err(e),
            }
        } else {
            Err(ErrV::UnexpectedEOF)
        }
    } else {
        let sec = secs[0];
        if sec.len() >= 1 && sec.len() <= limit {
            match sec[sec.len() - 1].kind {
                TokenKindV::Operator(op) => match parse_spec(sec.subrange(0, sec.len() - 1)) {
                    Ok(v) => match expr_items_spec(secs.subrange(1, secs.len() as int), limit) {
                        Ok(rest) => Ok(
                            seq![OpOrExprV::Expr(Box::new(v)), OpOrExprV::Operator(op)] + rest,
                        ),
                        Err(e) => Err(e),
                    },
                    Err(e) => Err(e),
                },
                _ => Err(ErrV::UnexpectedEOF),
            }
        } else {
            Err(ErrV::UnexpectedEOF)
        }
    }
}

/// Expression rule: with no top-level operator the span must be a single
/// literal token; otherwise the span splits on top-level operators, the
/// span must not end in an operator, and the sections flatten into one
/// flat expression in source order.
pub open spec fn expr_spec(toks: Seq<TokenV>) -> Result<AstV, ErrV>
    decreases toks.len(), 1int, 0int,
{
    if toks.len() == 0 {
        Err(ErrV::UnexpectedEOF)
    } else {
        match crate::scan::find_top(toks, crate::scan::Delimiter::Operator) {
            Option::None => if toks.len() == 1 {
                match literal_of(toks[0].kind) {
                    Option::Some(l) => Ok(AstV::Expression(seq![OpOrExprV::Literal(l)])),
                    Option::None => Err(err_at(toks)),
                }
            } else {
                Err(err_at(toks))
            },
            Option::Some(_) => match crate::scan::split_spec(
                toks,
                crate::scan::Delimiter::Operator,
                true,
            ) {
                Err(_) => Err(ErrV::BracketMismatch(toks[0].line, toks[0].column)),
                Ok(secs) => if secs.len() == 0 {
                    Err(ErrV::UnexpectedEOF)
                } else {
                    let lastsec = secs[secs.len() - 1];
                    if lastsec.len() >= 1 && lastsec[lastsec.len() - 1].kind is Operator {
                        Err(err_at(toks))
                    } else {
                        match expr_items_spec(secs, toks.len() as int) {
                            Ok(items) => Ok(AstV::Expression(items)),
                            Err(e) => Err(e),
                        }
                    }
                },
            },
        }
    }
}


// ---------------------------------------------------------------------------
// The executable parser.
// ---------------------------------------------------------------------------

fn strip_quotes_x(s: &String) -> (r: String)
    ensures
        r@ == strip_quotes(s@),
{
    let st = s.as_str();
    let n = st.unicode_len();
    if n >= 2 && crate::matchers::quote_char(st.get_char(0)) {
        st.substring_char(1, n - 1).to_owned()
    } else if n >= 3 && crate::matchers::lower_char(st.get_char(0)) && crate::matchers::quote_char(
        st.get_char(1),
    ) {
        st.substring_char(2, n - 1).to_owned()
    } else {
        s.clone()
    }
}

fn last_open_paren_x(tokens: &[Token], i: usize, depth: i128, best: usize) -> (r: usize)
    requires
        i <= tokens@.len(),
        -(i as i128) <= depth <= i as i128,
        best < tokens@.len(),
    ensures
        r as int == last_open_paren_from(
            tokens.deep_view(),
            i as int,
            depth as int,
            best as int,
        ),
        r < tokens@.len(),
    decreases tokens@.len() - i,
{
    if i >= tokens.len() {
        return best;
    }
    let t = vstd::slice::slice_index_get(tokens, i);
    assert(t.deep_view() == tokens.deep_view()[i as int]);
    if matches!(t.token_type, TokenType::OpenBracket(BracketType::Parenthesis)) {
        last_open_paren_x(
            tokens,
            i + 1,
            depth + 1,
            if depth == 0 {
                i
            } else {
                best
            },
        )
    } else if matches!(t.token_type, TokenType::CloseBracket(BracketType::Parenthesis)) {
        last_open_paren_x(tokens, i + 1, depth - 1, best)
    } else {
        last_open_paren_x(tokens, i + 1, depth, best)
    }
}

/// Checks that every parameter section is one bare symbol and collects
/// the parameter names, from section `j` on.
fn lambda_params(secs: &Vec<&[Token]>, j: usize) -> (r: Result<Vec<String>, ()>)
    requires
        j <= secs@.len(),
    ensures
        match r {
            Ok(v) => params_of(secs.deep_view().subrange(j as int, secs.deep_view().len() as int))
                == Some(v.deep_view()),
            Err(_) => params_of(
                secs.deep_view().subrange(j as int, secs.deep_view().len() as int),
            ) is None,
        },
    decreases secs@.len() - j,
{
    let ghost whole = secs.deep_view().subrange(j as int, secs.deep_view().len() as int);
    if j == secs.len() {
        let v: Vec<String> = Vec::new();
        assert(whole =~= Seq::<Seq<TokenV>>::empty());
        assert(v.deep_view() =~= Seq::<Seq<char>>::empty());
        return Ok(v);
    }
    let sec: &[Token] = secs[j];
    proof {
        assert(sec.deep_view() == whole[0]);
        assert(whole.subrange(1, whole.len() as int) =~= secs.deep_view().subrange(
            j + 1,
            secs.deep_view().len() as int,
        ));
    }
    if sec.len() != 1 {
        return Err(());
    }
    let st = vstd::slice::slice_index_get(sec, 0);
    proof {
        assert(st.deep_view() == whole[0][0]);
    }
    if !matches!(st.token_type, TokenType::Symbol(_)) {
        return Err(());
    }
    match lambda_params(secs, j + 1) {
        Err(u) => Err(u),
        Ok(mut rest) => {
            let ghost old_rest = rest.deep_view();
            rest.insert(0, st.lexeme.clone());
            proof {
                assert(rest.deep_view() =~= seq![rest@[0]@] + old_rest);
                assert(rest@[0]@ == whole[0][0].lexeme);
            }
            Ok(rest)
        },
    }
}

/// Lambda rule: parameter names separated by top-level semicolons, a
/// top-level arrow, then the body, parsed recursively.
#[verifier::spinoff_prover]
#[verifier::rlimit(100)]
pub fn parse_lambda(tokens: &[Token]) -> (r: Result<ASTNode, SyntaxError>)
    ensures
        match r {
            Ok(node) => lambda_spec(tokens.deep_view()) == Ok::<AstV, ErrV>(node.deep_view()),
            Err(e) => lambda_spec(tokens.deep_view()) == Err::<AstV, ErrV>(e.deep_view()),
        },
    decreases tokens@.len(), 5int, 0int,
{
    let ghost tv = tokens.deep_view();
    let n = tokens.len();
    if n == 0 {
        return Err(SyntaxError::UnexpectedEOF());
    }
    let t0 = vstd::slice::slice_index_get(tokens, 0);
    proof {
        assert(t0.deep_view() == tv[0]);
    }
    match crate::scan::find_top_level(tokens, crate::scan::Delimiter::Arrow) {
        None => Err(SyntaxError::InvalidSyntax(t0.line, t0.column)),
        Some(pos) => {
            let args = vstd::slice::slice_subrange(tokens, 0, pos);
            proof {
                crate::scan::lemma_slice_deep_view_subrange(tokens, args, 0, pos as int);
            }
            match crate::scan::top_level_split(args, crate::scan::Delimiter::Semicolon, false) {
                Err(e) => {
                    proof {
                        assert(args.deep_view()[0] == tv[0]);
                    }
                    Err(e)
                },
                Ok(secs) => {
                    let ghost secsv = crate::scan::split_spec(
                        args.deep_view(),
                        crate::scan::Delimiter::Semicolon,
                        false,
                    )->Ok_0;
                    proof {
                        assert(secs.deep_view() == secsv);
                    }
                    match lambda_params(&secs, 0) {
                        Err(_) => {
                            proof {
                                assert(secs.deep_view().subrange(
                                    0,
                                    secs.deep_view().len() as int,
                                ) =~= secsv);
                                assert(params_of(secsv) is None);
                            }
                            Err(SyntaxError::InvalidSyntax(t0.line, t0.column))
                        },
                        Ok(params) => {
                            proof {
                                assert(secs.deep_view().subrange(
                                    0,
                                    secs.deep_view().len() as int,
                                ) =~= secsv);
                                assert(params_of(secsv) == Some(params.deep_view()));
                            }
                            let body_slice = vstd::slice::slice_subrange(tokens, pos + 1, n);
                            proof {
                                crate::scan::lemma_slice_deep_view_subrange(
                                    tokens,
                                    body_slice,
                                    pos + 1,
                                    n as int,
                                );
                            }
                            match parse(body_slice) {
                                Ok(body) => {
                                    let node = ASTNode::Lambda(params, body);
                                    proof {
                                        assert(Seq::new(params@.len(), |i: int| params@[i]@)
                                            =~= params.deep_view());
                                        assert(node.deep_view() == AstV::Lambda(
                                            params.deep_view(),
                                            Box::new(body.deep_view()),
                                        ));
                                        assert(lambda_spec(tv) == Ok::<AstV, ErrV>(
                                            node.deep_view(),
                                        ));
                                    }
                                    Ok(node)
                                },
                                Err(e) => Err(e),
                            }
                        },
                    }
                },
            }
        },
    }
}

/// Parses the comma sections of a dict body from `j` on; each section
/// splits at its first top-level colon into key and value, or stands
/// whole as a positional entry.
fn parse_dict_entries(secs: &Vec<&[Token]>, j: usize, limit: usize) -> (r: Result<
    Vec<DictKey>,
    SyntaxError,
>)
    requires
        j <= secs@.len(),
    ensures
        match r {
            Ok(v) => dict_entries_spec(
                secs.deep_view().subrange(j as int, secs.deep_view().len() as int),
                limit as int,
            ) == Ok::<Seq<DictKeyV>, ErrV>(v.deep_view()),
            Err(e) => dict_entries_spec(
                secs.deep_view().subrange(j as int, secs.deep_view().len() as int),
                limit as int,
            ) == Err::<Seq<DictKeyV>, ErrV>(e.deep_view()),
        },
    decreases limit, 3int, secs@.len() - j,
{
    let ghost whole = secs.deep_view().subrange(j as int, secs.deep_view().len() as int);
    if j == secs.len() {
        let v: Vec<DictKey> = Vec::new();
        assert(v.deep_view() =~= Seq::<DictKeyV>::empty());
        assert(whole =~= Seq::<Seq<TokenV>>::empty());
        return Ok(v);
    }
    let sec: &[Token] = secs[j];
    proof {
        assert(sec.deep_view() == whole[0]);
        assert(whole.subrange(1, whole.len() as int) =~= secs.deep_view().subrange(
            j + 1,
            secs.deep_view().len() as int,
        ));
    }
    let entry: DictKey = match crate::scan::find_top_level(sec, crate::scan::Delimiter::Colon) {
        Some(c) => {
            if sec.len() <= limit {
                let key_s = vstd::slice::slice_subrange(sec, 0, c);
                proof {
                    crate::scan::lemma_slice_deep_view_subrange(sec, key_s, 0, c as int);
                }
                match parse(key_s) {
                    Err(e) => {
                        return Err(e);
                    },
                    Ok(key) => {
                        let val_s = vstd::slice::slice_subrange(sec, c + 1, sec.len());
                        proof {
                            crate::scan::lemma_slice_deep_view_subrange(
                                sec,
                                val_s,
                                c + 1,
                                sec@.len() as int,
                            );
                        }
                        match parse(val_s) {
                            Err(e) => {
                                return Err(e);
                            },
                            Ok(value) => DictKey::Key(key, value),
                        }
                    },
                }
            } else {
                return Err(SyntaxError::UnexpectedEOF());
            }
        },
        None => {
            if sec.len() < limit {
                match parse(sec) {
                    Err(e) => {
                        return Err(e);
                    },
                    Ok(v) => DictKey::NoKey(v),
                }
            } else {
                return Err(SyntaxError::UnexpectedEOF());
            }
        },
    };
    match parse_dict_entries(secs, j + 1, limit) {
        Err(e) => Err(e),
        Ok(mut rest) => {
            let ghost old_rest = rest.deep_view();
            rest.insert(0, entry);
            proof {
                assert(rest.deep_view() =~= seq![entry.deep_view()] + old_rest);
            }
            Ok(rest)
        },
    }
}

/// Dict rule: the whole span is one brace-delimited group whose interior
/// splits on top-level commas into entries.
pub fn parse_dict(tokens: &[Token]) -> (r: Result<ASTNode, SyntaxError>)
    ensures
        match r {
            Ok(node) => dict_spec(tokens.deep_view()) == Ok::<AstV, ErrV>(node.deep_view()),
            Err(e) => dict_spec(tokens.deep_view()) == Err::<AstV, ErrV>(e.deep_view()),
        },
    decreases tokens@.len(), 4int, 0int,
{
    let ghost tv = tokens.deep_view();
    let n = tokens.len();
    if n == 0 {
        return Err(SyntaxError::UnexpectedEOF());
    }
    let t0 = vstd::slice::slice_index_get(tokens, 0);
    proof {
        assert(t0.deep_view() == tv[0]);
    }
    if !matches!(t0.token_type, TokenType::OpenBracket(BracketType::Brace)) {
        return Err(SyntaxError::InvalidSyntax(t0.line, t0.column));
    }
    match crate::scan::get_enclosed_tokens(tokens) {
        Err(_) => Err(SyntaxError::BracketMismatch(t0.line, t0.column)),
        Ok(interior) => {
            proof {
                assert(interior.deep_view().len() == interior@.len());
                assert(interior@.len() < n);
            }
            if interior.len() + 2 != n {
                return Err(SyntaxError::BracketMismatch(t0.line, t0.column));
            }
            proof {
                assert(interior.deep_view() =~= tv.subrange(1, n - 1));
            }
            match crate::scan::top_level_split(interior, crate::scan::Delimiter::Comma, false) {
                Err(e) => {
                    proof {
                        assert(interior.deep_view()[0] == tv.subrange(1, n - 1)[0]);
                    }
                    Err(e)
                },
                Ok(secs) => {
                    proof {
                        assert(secs.deep_view().subrange(0, secs.deep_view().len() as int)
                            =~= secs.deep_view());
                    }
                    match parse_dict_entries(&secs, 0, n - 1) {
                        Err(e) => Err(e),
                        Ok(entries) => {
                            let node = ASTNode::Dict(entries);
                            proof {
                                lemma_entries_view(entries@);
                                assert(entries_view(entries@) =~= entries.deep_view());
                            }
                            Ok(node)
                        },
                    }
                },
            }
        },
    }
}

/// Parses index segments from `j` on; every segment must parse.
fn parse_index_segments(secs: &Vec<&[Token]>, j: usize, limit: usize) -> (r: Result<
    Vec<Box<ASTNode>>,
    SyntaxError,
>)
    requires
        j <= secs@.len(),
    ensures
        match r {
            Ok(v) => index_segments_spec(
                secs.deep_view().subrange(j as int, secs.deep_view().len() as int),
                limit as int,
            ) == Ok::<Seq<AstV>, ErrV>(v.deep_view()),
            Err(e) => index_segments_spec(
                secs.deep_view().subrange(j as int, secs.deep_view().len() as int),
                limit as int,
            ) == Err::<Seq<AstV>, ErrV>(e.deep_view()),
        },
    decreases limit, 2int, secs@.len() - j,
{
    let ghost whole = secs.deep_view().subrange(j as int, secs.deep_view().len() as int);
    if j == secs.len() {
        let v: Vec<Box<ASTNode>> = Vec::new();
        assert(v.deep_view() =~= Seq::<AstV>::empty());
        assert(whole =~= Seq::<Seq<TokenV>>::empty());
        return Ok(v);
    }
    let sec: &[Token] = secs[j];
    proof {
        assert(sec.deep_view() == whole[0]);
        assert(whole.subrange(1, whole.len() as int) =~= secs.deep_view().subrange(
            j + 1,
            secs.deep_view().len() as int,
        ));
    }
    if sec.len() < limit {
        match parse(sec) {
            Err(e) => Err(e),
            Ok(seg) => match parse_index_segments(secs, j + 1, limit) {
                Err(e) => Err(e),
                Ok(mut rest) => {
                    let ghost old_rest = rest.deep_view();
                    rest.insert(0, seg);
                    proof {
                        assert(rest.deep_view() =~= seq![rest@[0].deep_view()] + old_rest);
                    }
                    Ok(rest)
                },
            },
        }
    } else {
        Err(SyntaxError::UnexpectedEOF())
    }
}

/// Index rule: at least two tokens and at least one top-level dot; the
/// span splits on top-level dots and every segment must parse on its own.
pub fn parse_index(tokens: &[Token]) -> (r: Result<ASTNode, SyntaxError>)
    ensures
        match r {
            Ok(node) => index_spec(tokens.deep_view()) == Ok::<AstV, ErrV>(node.deep_view()),
            Err(e) => index_spec(tokens.deep_view()) == Err::<AstV, ErrV>(e.deep_view()),
        },
    decreases tokens@.len(), 3int, 1int,
{
    let ghost tv = tokens.deep_view();
    let n = tokens.len();
    if n == 0 {
        return Err(SyntaxError::UnexpectedEOF());
    }
    let t0 = vstd::slice::slice_index_get(tokens, 0);
    proof {
        assert(t0.deep_view() == tv[0]);
    }
    if n <= 1 {
        return Err(SyntaxError::InvalidSyntax(t0.line, t0.column));
    }
    if crate::scan::find_top_level(tokens, crate::scan::Delimiter::Dot).is_none() {
        return Err(SyntaxError::InvalidSyntax(t0.line, t0.column));
    }
    match crate::scan::top_level_split(tokens, crate::scan::Delimiter::Dot, false) {
        Err(_) => Err(SyntaxError::BracketMismatch(t0.line, t0.column)),
        Ok(secs) => {
            proof {
                assert(secs.deep_view().subrange(0, secs.deep_view().len() as int)
                    =~= secs.deep_view());
            }
            match parse_index_segments(&secs, 0, n) {
                Err(_) => Err(SyntaxError::InvalidSyntax(t0.line, t0.column)),
                Ok(segments) => {
                    let node = ASTNode::Index(segments);
                    proof {
                        lemma_segments_view(segments@);
                        assert(segments_view(segments@) =~= segments.deep_view());
                    }
                    Ok(node)
                },
            }
        },
    }
}

/// Parses call arguments from `j` on: a section whose second token is a
/// colon is keyed by its first token's lexeme; any other section is
/// positional.
fn parse_call_args(secs: &Vec<&[Token]>, j: usize, limit: usize) -> (r: Result<
    Vec<KeyOrNoKey>,
    SyntaxError,
>)
    requires
        j <= secs@.len(),
    ensures
        match r {
            Ok(v) => call_args_spec(
                secs.deep_view().subrange(j as int, secs.deep_view().len() as int),
                limit as int,
            ) == Ok::<Seq<ArgV>, ErrV>(v.deep_view()),
            Err(e) => call_args_spec(
                secs.deep_view().subrange(j as int, secs.deep_view().len() as int),
                limit as int,
            ) == Err::<Seq<ArgV>, ErrV>(e.deep_view()),
        },
    decreases limit, 3int, secs@.len() - j,
{
    let ghost whole = secs.deep_view().subrange(j as int, secs.deep_view().len() as int);
    if j == secs.len() {
        let v: Vec<KeyOrNoKey> = Vec::new();
        assert(v.deep_view() =~= Seq::<ArgV>::empty());
        assert(whole =~= Seq::<Seq<TokenV>>::empty());
        return Ok(v);
    }
    let sec: &[Token] = secs[j];
    proof {
        assert(sec.deep_view() == whole[0]);
        assert(whole.subrange(1, whole.len() as int) =~= secs.deep_view().subrange(
            j + 1,
            secs.deep_view().len() as int,
        ));
    }
    let keyed = sec.len() > 1 && {
        let t1 = vstd::slice::slice_index_get(sec, 1);
        proof {
            assert(t1.deep_view() == whole[0][1]);
        }
        matches!(t1.token_type, TokenType::Colon)
    };
    let arg: KeyOrNoKey = if keyed {
        if sec.len() <= limit {
            let val_s = vstd::slice::slice_subrange(sec, 2, sec.len());
            proof {
                crate::scan::lemma_slice_deep_view_subrange(sec, val_s, 2, sec@.len() as int);
            }
            match parse(val_s) {
                Err(e) => {
                    return Err(e);
                },
                Ok(v) => {
                    let k0 = vstd::slice::slice_index_get(sec, 0);
                    proof {
                        assert(k0.deep_view() == whole[0][0]);
                    }
                    KeyOrNoKey::Key(k0.lexeme.clone(), v)
                },
            }
        } else {
            return Err(SyntaxError::UnexpectedEOF());
        }
    } else {
        if sec.len() < limit {
            match parse(sec) {
                Err(e) => {
                    return Err(e);
                },
                Ok(v) => KeyOrNoKey::NoKey(v),
            }
        } else {
            return Err(SyntaxError::UnexpectedEOF());
        }
    };
    match parse_call_args(secs, j + 1, limit) {
        Err(e) => Err(e),
        Ok(mut rest) => {
            let ghost old_rest = rest.deep_view();
            rest.insert(0, arg);
            proof {
                assert(rest.deep_view() =~= seq![arg.deep_view()] + old_rest);
            }
            Ok(rest)
        },
    }
}

/// Call rule: the span ends in a closing parenthesis; the last top-level
/// opening parenthesis separates the callee from the argument list, the
/// callee must not end in a dot, and the parenthesised group must reach
/// the end of the span.  Callee and arguments parse recursively.
pub fn parse_call(tokens: &[Token]) -> (r: Result<ASTNode, SyntaxError>)
    ensures
        match r {
            Ok(node) => call_spec(tokens.deep_view()) == Ok::<AstV, ErrV>(node.deep_view()),
            Err(e) => call_spec(tokens.deep_view()) == Err::<AstV, ErrV>(e.deep_view()),
        },
    decreases tokens@.len(), 2int, 0int,
{
    let ghost tv = tokens.deep_view();
    let n = tokens.len();
    if n < 3 {
        return Err(SyntaxError::UnexpectedEOF());
    }
    let tl = vstd::slice::slice_index_get(tokens, n - 1);
    proof {
        assert(tl.deep_view() == tv[n - 1]);
    }
    if !matches!(tl.token_type, TokenType::CloseBracket(BracketType::Parenthesis)) {
        return Err(SyntaxError::UnexpectedEOF());
    }
    let t0 = vstd::slice::slice_index_get(tokens, 0);
    proof {
        assert(t0.deep_view() == tv[0]);
    }
    let index = last_open_paren_x(tokens, 0, 0, 0);
    if index > 0 {
        let td = vstd::slice::slice_index_get(tokens, index - 1);
        proof {
            assert(td.deep_view() == tv[index - 1]);
        }
        if matches!(td.token_type, TokenType::Dot) {
            return Err(SyntaxError::InvalidSyntax(td.line, td.column));
        }
    }
    let ti = vstd::slice::slice_index_get(tokens, index);
    proof {
        assert(ti.deep_view() == tv[index as int]);
    }
    if !matches!(ti.token_type, TokenType::OpenBracket(BracketType::Parenthesis)) {
        return Err(SyntaxError::BracketMismatch(ti.line, ti.column));
    }
    let enclosed = vstd::slice::slice_subrange(tokens, index, n);
    proof {
        crate::scan::lemma_slice_deep_view_subrange(tokens, enclosed, index as int, n as int);
        assert(enclosed.deep_view()[0] == tv[index as int]);
    }
    match crate::scan::get_enclosed_tokens(enclosed) {
        Err(_) => Err(SyntaxError::BracketMismatch(ti.line, ti.column)),
        Ok(interior) => {
            proof {
                assert(interior.deep_view().len() == interior@.len());
                assert(interior@.len() < enclosed@.len());
            }
            if interior.len() + 2 != enclosed.len() {
                return Err(SyntaxError::BracketMismatch(ti.line, ti.column));
            }
            proof {
                assert(interior.deep_view() =~= tv.subrange(index + 1, n - 1));
            }
            match crate::scan::top_level_split(interior, crate::scan::Delimiter::Comma, false) {
                Err(e) => {
                    proof {
                        assert(interior.deep_view()[0] == tv.subrange(index + 1, n - 1)[0]);
                    }
                    Err(e)
                },
                Ok(secs) => {
                    proof {
                        assert(secs.deep_view().subrange(0, secs.deep_view().len() as int)
                            =~= secs.deep_view());
                    }
                    match parse_call_args(&secs, 0, n - 1) {
                        Err(e) => Err(e),
                        Ok(args) => {
                            let function = vstd::slice::slice_subrange(tokens, 0, index);
                            proof {
                                crate::scan::lemma_slice_deep_view_subrange(
                                    tokens,
                                    function,
                                    0,
                                    index as int,
                                );
                            }
                            match parse(function) {
                                Err(e) => Err(e),
                                Ok(callee) => {
                                    let node = ASTNode::Call(callee, args);
                                    proof {
                                        lemma_args_view(args@);
                                        assert(args_view(args@) =~= args.deep_view());
                                    }
                                    Ok(node)
                                },
                            }
                        },
                    }
                },
            }
        },
    }
}

/// Parses expression sections from `j` on: every section but the last
/// ends in exactly one operator token; operands and operators flatten in
/// source order.
fn parse_expr_items(secs: &Vec<&[Token]>, j: usize, limit: usize) -> (r: Result<
    Vec<OpOrExpr>,
    SyntaxError,
>)
    requires
        j <= secs@.len(),
    ensures
        match r {
            Ok(v) => expr_items_spec(
                secs.deep_view().subrange(j as int, secs.deep_view().len() as int),
                limit as int,
            ) == Ok::<Seq<OpOrExprV>, ErrV>(v.deep_view()),
            Err(e) => expr_items_spec(
                secs.deep_view().subrange(j as int, secs.deep_view().len() as int),
                limit as int,
            ) == Err::<Seq<OpOrExprV>, ErrV>(e.deep_view()),
        },
    decreases limit, 0int, secs@.len() - j,
{
    let ghost whole = secs.deep_view().subrange(j as int, secs.deep_view().len() as int);
    if j == secs.len() {
        let v: Vec<OpOrExpr> = Vec::new();
        assert(v.deep_view() =~= Seq::<OpOrExprV>::empty());
        assert(whole =~= Seq::<Seq<TokenV>>::empty());
        return Ok(v);
    }
    let sec: &[Token] = secs[j];
    proof {
        assert(sec.deep_view() == whole[0]);
        assert(whole.subrange(1, whole.len() as int) =~= secs.deep_view().subrange(
            j + 1,
            secs.deep_view().len() as int,
        ));
    }
    if j == secs.len() - 1 {
        if sec.len() < limit {
            match parse(sec) {
                Err(e) => Err(e),
                Ok(v) => {
                    let mut out: Vec<OpOrExpr> = Vec::new();
                    out.push(OpOrExpr::Expr(v));
                    proof {
                        assert(out.deep_view() =~= seq![out@[0].deep_view()]);
                    }
                    Ok(out)
                },
            }
        } else {
            Err(SyntaxError::UnexpectedEOF())
        }
    } else {
        if sec.len() >= 1 && sec.len() <= limit {
            let tl = vstd::slice::slice_index_get(sec, sec.len() - 1);
            proof {
                assert(tl.deep_view() == whole[0][whole[0].len() - 1]);
            }
            match &tl.token_type {
                TokenType::Operator(op) => {
                    let op = *op;
                    let operand = vstd::slice::slice_subrange(sec, 0, sec.len() - 1);
                    proof {
                        crate::scan::lemma_slice_deep_view_subrange(
                            sec,
                            operand,
                            0,
                            sec@.len() - 1,
                        );
                    }
                    match parse(operand) {
                        Err(e) => Err(e),
                        Ok(v) => match parse_expr_items(secs, j + 1, limit) {
                            Err(e) => Err(e),
                            Ok(mut rest) => {
                                let ghost old_rest = rest.deep_view();
                                rest.insert(0, OpOrExpr::Operator(op));
                                rest.insert(0, OpOrExpr::Expr(v));
                                proof {
                                    assert(rest.deep_view() =~= seq![
                                        rest@[0].deep_view(),
                                        rest@[1].deep_view(),
                                    ] + old_rest);
                                }
                                Ok(rest)
                            },
                        },
                    }
                },
                _ => Err(SyntaxError::UnexpectedEOF()),
            }
        } else {
            Err(SyntaxError::UnexpectedEOF())
        }
    }
}

/// Expression rule: with no top-level operator the span must be a single
/// literal token; otherwise the span splits on top-level operators,
/// keeping each delimiter, and must not end in one.
pub fn parse_expr(tokens: &[Token]) -> (r: Result<ASTNode, SyntaxError>)
    ensures
        match r {
            Ok(node) => expr_spec(tokens.deep_view()) == Ok::<AstV, ErrV>(node.deep_view()),
            Err(e) => expr_spec(tokens.deep_view()) == Err::<AstV, ErrV>(e.deep_view()),
        },
    decreases tokens@.len(), 1int, 0int,
{
    let ghost tv = tokens.deep_view();
    let n = tokens.len();
    if n == 0 {
        return Err(SyntaxError::UnexpectedEOF());
    }
    let t0 = vstd::slice::slice_index_get(tokens, 0);
    proof {
        assert(t0.deep_view() == tv[0]);
    }
    match crate::scan::find_top_level(tokens, crate::scan::Delimiter::Operator) {
        None => {
            if n == 1 {
                let lit: LiteralToken = match &t0.token_type {
                    TokenType::Symbol(sym) => LiteralToken::Symbol(sym.clone()),
                    TokenType::String(st) => LiteralToken::String(strip_quotes_x(st)),
                    TokenType::Number(num) => LiteralToken::Number(num.clone()),
                    TokenType::Boolean(b) => LiteralToken::Boolean(*b),
                    _ => {
                        return Err(SyntaxError::InvalidSyntax(t0.line, t0.column));
                    },
                };
                let mut items: Vec<OpOrExpr> = Vec::new();
                items.push(OpOrExpr::Literal(lit));
                let node = ASTNode::Expression(items);
                proof {
                    lemma_items_view(items@);
                    assert(items_view(items@) =~= seq![items@[0].deep_view()]);
                }
                Ok(node)
            } else {
                Err(SyntaxError::InvalidSyntax(t0.line, t0.column))
            }
        },
        Some(_) => {
            match crate::scan::top_level_split(tokens, crate::scan::Delimiter::Operator, true) {
                Err(e) => Err(e),
                Ok(secs) => {
                    if secs.len() == 0 {
                        return Err(SyntaxError::UnexpectedEOF());
                    }
                    let lastsec: &[Token] = secs[secs.len() - 1];
                    proof {
                        assert(lastsec.deep_view() == secs.deep_view()[secs@.len() - 1]);
                    }
                    if lastsec.len() >= 1 {
                        let te = vstd::slice::slice_index_get(lastsec, lastsec.len() - 1);
                        proof {
                            assert(te.deep_view() == lastsec.deep_view()[lastsec@.len() - 1]);
                        }
                        if matches!(te.token_type, TokenType::Operator(_)) {
                            return Err(SyntaxError::InvalidSyntax(t0.line, t0.column));
                        }
                    }
                    proof {
                        assert(secs.deep_view().subrange(0, secs.deep_view().len() as int)
                            =~= secs.deep_view());
                    }
                    match parse_expr_items(&secs, 0, n) {
                        Err(e) => Err(e),
                        Ok(items) => {
                            let node = ASTNode::Expression(items);
                            proof {
                                lemma_items_view(items@);
                                assert(items_view(items@) =~= items.deep_view());
                            }
                            Ok(node)
                        },
                    }
                },
            }
        },
    }
}

/// Parses one AST node from the whole token span.  A span wrapped in one
/// redundant parenthesis pair recurses into its interior; otherwise the
/// five grammar rules are tried in the fixed priority order and the first
/// to succeed decides; when all fail, the span is `InvalidSyntax` at its
/// first token.
pub fn parse(tokens: &[Token]) -> (r: Result<Box<ASTNode>, SyntaxError>)
    ensures
        match r {
            Ok(node) => parse_spec(tokens.deep_view()) == Ok::<AstV, ErrV>(node.deep_view()),
            Err(e) => parse_spec(tokens.deep_view()) == Err::<AstV, ErrV>(e.deep_view()),
        },
    decreases tokens@.len(), 6int, 0int,
{
    let ghost tv = tokens.deep_view();
    let n = tokens.len();
    if n == 0 {
        return Err(SyntaxError::UnexpectedEOF());
    }
    let t0 = vstd::slice::slice_index_get(tokens, 0);
    proof {
        assert(t0.deep_view() == tv[0]);
    }
    if n >= 2 && matches!(t0.token_type, TokenType::OpenBracket(BracketType::Parenthesis)) {
        match crate::scan::get_enclosed_tokens(tokens) {
            Ok(interior) => {
                proof {
                    assert(interior.deep_view().len() == interior@.len());
                    assert(interior@.len() < n);
                }
                if interior.len() + 2 == n {
                    proof {
                        assert(interior.deep_view() =~= tv.subrange(1, n - 1));
                    }
                    return parse(interior);
                }
            },
            Err(_) => {},
        }
    }
    match parse_lambda(tokens) {
        Ok(node) => {
            return Ok(Box::new(node));
        },
        Err(_) => {},
    }
    match parse_dict(tokens) {
        Ok(node) => {
            return Ok(Box::new(node));
        },
        Err(_) => {},
    }
    match parse_index(tokens) {
        Ok(node) => {
            return Ok(Box::new(node));
        },
        Err(_) => {},
    }
    match parse_call(tokens) {
        Ok(node) => {
            return Ok(Box::new(node));
        },
        Err(_) => {},
    }
    match parse_expr(tokens) {
        Ok(node) => {
            return Ok(Box::new(node));
        },
        Err(_) => {},
    }
    Err(SyntaxError::InvalidSyntax(t0.line, t0.column))
}


// ---------------------------------------------------------------------------
// Structural copies.  Nothing is mutated after construction, so a node can
// be reproduced exactly; the contract says the copy has the same model.
// ---------------------------------------------------------------------------

impl LiteralToken {
    pub fn duplicate(&self) -> (r: LiteralToken)
        ensures
            r.deep_view() == self.deep_view(),
    {
        match self {
            LiteralToken::Symbol(t) => LiteralToken::Symbol(t.clone()),
            LiteralToken::String(t) => LiteralToken::String(t.clone()),
            LiteralToken::Number(t) => LiteralToken::Number(t.clone()),
            LiteralToken::Boolean(b) => LiteralToken::Boolean(*b),
        }
    }
}

impl OpOrExpr {
    #[verifier::loop_isolation(false)]
    pub fn duplicate(&self) -> (r: OpOrExpr)
        ensures
            r.deep_view() == self.deep_view(),
        decreases *self, 0int,
    {
        match self {
            OpOrExpr::Operator(op) => OpOrExpr::Operator(*op),
            OpOrExpr::Expr(e) => {
                proof {
                    assert(decreases_to!(*self => *e));
                }
                OpOrExpr::Expr(Box::new(e.duplicate()))
            },
            OpOrExpr::Literal(l) => OpOrExpr::Literal(l.duplicate()),
        }
    }
}

impl KeyOrNoKey {
    #[verifier::loop_isolation(false)]
    pub fn duplicate(&self) -> (r: KeyOrNoKey)
        ensures
            r.deep_view() == self.deep_view(),
        decreases *self, 0int,
    {
        match self {
            KeyOrNoKey::Key(name, v) => {
                proof {
                    assert(decreases_to!(*self => *v));
                }
                KeyOrNoKey::Key(name.clone(), Box::new(v.duplicate()))
            },
            KeyOrNoKey::NoKey(v) => {
                proof {
                    assert(decreases_to!(*self => *v));
                }
                KeyOrNoKey::NoKey(Box::new(v.duplicate()))
            },
        }
    }
}

impl DictKey {
    #[verifier::loop_isolation(false)]
    pub fn duplicate(&self) -> (r: DictKey)
        ensures
            r.deep_view() == self.deep_view(),
        decreases *self, 0int,
    {
        match self {
            DictKey::Key(k, v) => {
                proof {
                    assert(decreases_to!(*self => *k));
                    assert(decreases_to!(*self => *v));
                }
                DictKey::Key(Box::new(k.duplicate()), Box::new(v.duplicate()))
            },
            DictKey::NoKey(v) => {
                proof {
                    assert(decreases_to!(*self => *v));
                }
                DictKey::NoKey(Box::new(v.duplicate()))
            },
        }
    }
}

impl ASTNode {
    /// An exact structural copy of the node.
    #[verifier::loop_isolation(false)]
    pub fn duplicate(&self) -> (r: ASTNode)
        ensures
            r.deep_view() == self.deep_view(),
        decreases *self, 1int,
    {
        match self {
            ASTNode::Call(callee, args) => {
                proof {
                    assert(decreases_to!(*self => *callee));
                }
                let c2 = Box::new(callee.duplicate());
                let mut a2: Vec<KeyOrNoKey> = Vec::new();
                let mut j: usize = 0;
                while j < args.len()
                    invariant
                        j <= args@.len(),
                        a2@.len() == j,
                        forall|jj: int|
                            0 <= jj < j ==> (#[trigger] a2@[jj]).deep_view()
                                == args@[jj].deep_view(),
                    decreases args@.len() - j,
                {
                    let e: &KeyOrNoKey = &args[j];
                    proof {
                        assert(decreases_to!(*self => *args));
                        assert(decreases_to!(*args => args@));
                        assert(decreases_to!(args@ => args@[j as int]));
                    }
                    a2.push(e.duplicate());
                    j += 1;
                }
                proof {
                    lemma_args_view(a2@);
                    lemma_args_view(args@);
                    assert forall|jj: int| 0 <= jj < args@.len() implies args_view(a2@)[jj] == args_view(args@)[jj] by {
                        assert(args_view(a2@)[jj] == arg_view(a2@[jj]));
                        assert(args_view(args@)[jj] == arg_view(args@[jj]));
                    }
                    assert(args_view(a2@) =~= args_view(args@));
                }
                ASTNode::Call(c2, a2)
            },
            ASTNode::Lambda(params, body) => {
                proof {
                    assert(decreases_to!(*self => *body));
                }
                let b2 = Box::new(body.duplicate());
                let mut p2: Vec<String> = Vec::new();
                let mut j: usize = 0;
                while j < params.len()
                    invariant
                        j <= params@.len(),
                        p2@.len() == j,
                        forall|jj: int| 0 <= jj < j ==> (#[trigger] p2@[jj])@ == params@[jj]@,
                    decreases params@.len() - j,
                {
                    let e: &String = &params[j];
                    p2.push(e.clone());
                    j += 1;
                }
                proof {
                    assert(Seq::new(p2@.len(), |i: int| p2@[i]@) =~= Seq::new(
                        params@.len(),
                        |i: int| params@[i]@,
                    ));
                }
                ASTNode::Lambda(p2, b2)
            },
            ASTNode::Expression(items) => {
                let mut i2: Vec<OpOrExpr> = Vec::new();
                let mut j: usize = 0;
                while j < items.len()
                    invariant
                        j <= items@.len(),
                        i2@.len() == j,
                        forall|jj: int|
                            0 <= jj < j ==> (#[trigger] i2@[jj]).deep_view()
                                == items@[jj].deep_view(),
                    decreases items@.len() - j,
                {
                    let e: &OpOrExpr = &items[j];
                    proof {
                        assert(decreases_to!(*self => *items));
                        assert(decreases_to!(*items => items@));
                        assert(decreases_to!(items@ => items@[j as int]));
                    }
                    i2.push(e.duplicate());
                    j += 1;
                }
                proof {
                    lemma_items_view(i2@);
                    lemma_items_view(items@);
                    assert forall|jj: int| 0 <= jj < items@.len() implies items_view(i2@)[jj] == items_view(items@)[jj] by {
                        assert(items_view(i2@)[jj] == item_view(i2@[jj]));
                        assert(items_view(items@)[jj] == item_view(items@[jj]));
                    }
                    assert(items_view(i2@) =~= items_view(items@));
                }
                ASTNode::Expression(i2)
            },
            ASTNode::Dict(entries) => {
                let mut e2: Vec<DictKey> = Vec::new();
                let mut j: usize = 0;
                while j < entries.len()
                    invariant
                        j <= entries@.len(),
                        e2@.len() == j,
                        forall|jj: int|
                            0 <= jj < j ==> (#[trigger] e2@[jj]).deep_view()
                                == entries@[jj].deep_view(),
                    decreases entries@.len() - j,
                {
                    let e: &DictKey = &entries[j];
                    proof {
                        assert(decreases_to!(*self => *entries));
                        assert(decreases_to!(*entries => entries@));
                        assert(decreases_to!(entries@ => entries@[j as int]));
                    }
                    e2.push(e.duplicate());
                    j += 1;
                }
                proof {
                    lemma_entries_view(e2@);
                    lemma_entries_view(entries@);
                    assert forall|jj: int| 0 <= jj < entries@.len() implies entries_view(e2@)[jj] == entries_view(entries@)[jj] by {
                        assert(entries_view(e2@)[jj] == entry_view(e2@[jj]));
                        assert(entries_view(entries@)[jj] == entry_view(entries@[jj]));
                    }
                    assert(entries_view(e2@) =~= entries_view(entries@));
                }
                ASTNode::Dict(e2)
            },
            ASTNode::Index(segments) => {
                let mut s2: Vec<Box<ASTNode>> = Vec::new();
                let mut j: usize = 0;
                while j < segments.len()
                    invariant
                        j <= segments@.len(),
                        s2@.len() == j,
                        forall|jj: int|
                            0 <= jj < j ==> (*#[trigger] s2@[jj]).deep_view()
                                == (*segments@[jj]).deep_view(),
                    decreases segments@.len() - j,
                {
                    let e: &Box<ASTNode> = &segments[j];
                    proof {
                        assert(decreases_to!(*self => *segments));
                        assert(decreases_to!(*segments => segments@));
                        assert(decreases_to!(segments@ => segments@[j as int]));
                    }
                    s2.push(Box::new(e.duplicate()));
                    j += 1;
                }
                proof {
                    lemma_segments_view(s2@);
                    lemma_segments_view(segments@);
                    assert forall|jj: int| 0 <= jj < segments@.len() implies segments_view(s2@)[jj]
                        == segments_view(segments@)[jj] by {
                        assert(segments_view(s2@)[jj] == ast_view(*s2@[jj]));
                        assert(segments_view(segments@)[jj] == ast_view(*segments@[jj]));
                    }
                    assert(segments_view(s2@) =~= segments_view(segments@));
                }
                ASTNode::Index(s2)
            },
            ASTNode::Nothing => ASTNode::Nothing,
        }
    }
}


/// Law: parsing is a pure function of the token sequence.  Two parses of
/// the same tokens yield structurally identical trees, with no hidden
/// state in matcher, lexer or parser to tell them apart.
pub proof fn lemma_parse_deterministic(
    toks: Seq<TokenV>,
    r1: Result<AstV, ErrV>,
    r2: Result<AstV, ErrV>,
)
    requires
        r1 == parse_spec(toks),
        r2 == parse_spec(toks),
    ensures
        r1 == r2,
{
}

} // verus!
