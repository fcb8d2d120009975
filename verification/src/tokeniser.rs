use vstd::prelude::*;

use vstd::string::StringSliceAdditionalSpecFns;

use crate::matchers::{is_ws_char, match_spec, Matcher};
use crate::syntax_err::{ErrV, SyntaxError};

verus! {

/// Which output streams a pipe operator routes.
#[derive(Copy, Clone, Debug, PartialEq, Eq, Structural)]
pub enum PipeType {
    Stdout,
    Stderr,
    Both,
}

/// The operators of the language, each with a fixed precedence.
#[derive(Copy, Clone, Debug, PartialEq, Eq, Structural)]
pub enum OperatorType {
    Pipe(PipeType),
    Add,
    Subtract,
    Multiply,
    Divide,
    Modulo,
    Exponent,
    Equal,
    NotEqual,
    GreaterThan,
    LessThan,
    GreaterThanOrEqual,
    LessThanOrEqual,
    And,
    Or,
    Not,
    Assign,
}

/// Fixed precedence of each operator; higher binds tighter.  Only the
/// arithmetic operators take part in expression reduction today, but every
/// operator carries a precedence for the reordering step.
pub open spec fn precedence_spec(op: OperatorType) -> int {
    match op {
        OperatorType::Pipe(_) => 1,
        OperatorType::Assign => 1,
        OperatorType::Or => 2,
        OperatorType::And => 3,
        OperatorType::Not => 3,
        OperatorType::Equal => 4,
        OperatorType::NotEqual => 4,
        OperatorType::GreaterThan => 4,
        OperatorType::LessThan => 4,
        OperatorType::GreaterThanOrEqual => 4,
        OperatorType::LessThanOrEqual => 4,
        OperatorType::Add => 5,
        OperatorType::Subtract => 5,
        OperatorType::Multiply => 6,
        OperatorType::Divide => 6,
        OperatorType::Modulo => 6,
        OperatorType::Exponent => 7,
    }
}

impl OperatorType {
    pub fn precedence(&self) -> (p: u32)
        ensures
            p as int == precedence_spec(*self),
    {
        match self {
            OperatorType::Pipe(_) => 1,
            OperatorType::Assign => 1,
            OperatorType::Or => 2,
            OperatorType::And => 3,
            OperatorType::Not => 3,
            OperatorType::Equal => 4,
            OperatorType::NotEqual => 4,
            OperatorType::GreaterThan => 4,
            OperatorType::LessThan => 4,
            OperatorType::GreaterThanOrEqual => 4,
            OperatorType::LessThanOrEqual => 4,
            OperatorType::Add => 5,
            OperatorType::Subtract => 5,
            OperatorType::Multiply => 6,
            OperatorType::Divide => 6,
            OperatorType::Modulo => 6,
            OperatorType::Exponent => 7,
        }
    }
}

/// Reserved words; they are tokenised but have no parse rules yet.
#[derive(Copy, Clone, Debug, PartialEq, Eq, Structural)]
pub enum KeywordType {
    If,
    Else,
    For,
    Function,
    Return,
    Import,
}

/// The four independently tracked bracket families.
#[derive(Copy, Clone, Debug, PartialEq, Eq, Structural)]
pub enum BracketType {
    Parenthesis,
    Brace,
    Bracket,
    Angle,
}

/// The classified kind of one token. `Number` keeps the matched text;
/// its numeric value is recovered where evaluation needs it.
#[derive(Clone, Debug)]
pub enum TokenType {
    Symbol(String),
    String(String),
    Number(String),
    Boolean(bool),
    Operator(OperatorType),
    Keyword(KeywordType),
    OpenBracket(BracketType),
    CloseBracket(BracketType),
    Colon,
    Semicolon,
    Comma,
    Dot,
    Lambda,
    Whitespace(String),
    Comment(String),
}

/// Mathematical model of a `TokenType`: text payloads become `Seq<char>`.
#[verifier::ext_equal]
pub enum TokenKindV {
    Symbol(Seq<char>),
    String(Seq<char>),
    Number(Seq<char>),
    Boolean(bool),
    Operator(OperatorType),
    Keyword(KeywordType),
    OpenBracket(BracketType),
    CloseBracket(BracketType),
    Colon,
    Semicolon,
    Comma,
    Dot,
    Lambda,
    Whitespace(Seq<char>),
    Comment(Seq<char>),
}

impl DeepView for TokenType {
    type V = TokenKindV;

    open spec fn deep_view(&self) -> TokenKindV {
        match self {
            TokenType::Symbol(s) => TokenKindV::Symbol(s@),
            TokenType::String(s) => TokenKindV::String(s@),
            TokenType::Number(s) => TokenKindV::Number(s@),
            TokenType::Boolean(b) => TokenKindV::Boolean(*b),
            TokenType::Operator(o) => TokenKindV::Operator(*o),
            TokenType::Keyword(k) => TokenKindV::Keyword(*k),
            TokenType::OpenBracket(b) => TokenKindV::OpenBracket(*b),
            TokenType::CloseBracket(b) => TokenKindV::CloseBracket(*b),
            TokenType::Colon => TokenKindV::Colon,
            TokenType::Semicolon => TokenKindV::Semicolon,
            TokenType::Comma => TokenKindV::Comma,
            TokenType::Dot => TokenKindV::Dot,
            TokenType::Lambda => TokenKindV::Lambda,
            TokenType::Whitespace(s) => TokenKindV::Whitespace(s@),
            TokenType::Comment(s) => TokenKindV::Comment(s@),
        }
    }
}

/// One token: its kind, the matched text, and where it stood in the input.
/// `line` and `column` are 1-based; `index` is the 0-based byte offset of
/// the lexeme's first byte in the input.
#[derive(Clone, Debug)]
pub struct Token {
    pub token_type: TokenType,
    pub lexeme: String,
    pub line: i64,
    pub column: i64,
    pub index: usize,
}

/// Mathematical model of a `Token`.
#[verifier::ext_equal]
pub struct TokenV {
    pub kind: TokenKindV,
    pub lexeme: Seq<char>,
    pub line: int,
    pub column: int,
    pub index: int,
}

impl DeepView for Token {
    type V = TokenV;

    open spec fn deep_view(&self) -> TokenV {
        TokenV {
            kind: self.token_type.deep_view(),
            lexeme: self.lexeme@,
            line: self.line as int,
            column: self.column as int,
            index: self.index as int,
        }
    }
}

/// The name of a token kind, as its rendered form spells it.
pub open spec fn kind_label(k: TokenKindV) -> Seq<char> {
    match k {
        TokenKindV::Symbol(_) => seq!['S', 'y', 'm', 'b', 'o', 'l'],
        TokenKindV::String(_) => seq!['S', 't', 'r', 'i', 'n', 'g'],
        TokenKindV::Number(_) => seq!['N', 'u', 'm', 'b', 'e', 'r'],
        TokenKindV::Boolean(_) => seq!['B', 'o', 'o', 'l', 'e', 'a', 'n'],
        TokenKindV::Operator(_) => seq!['O', 'p', 'e', 'r', 'a', 't', 'o', 'r'],
        TokenKindV::Keyword(_) => seq!['K', 'e', 'y', 'w', 'o', 'r', 'd'],
        TokenKindV::OpenBracket(_) => seq![
            'O', 'p', 'e', 'n', 'B', 'r', 'a', 'c', 'k', 'e', 't',
        ],
        TokenKindV::CloseBracket(_) => seq![
            'C', 'l', 'o', 's', 'e', 'B', 'r', 'a', 'c', 'k', 'e', 't',
        ],
        TokenKindV::Colon => seq!['C', 'o', 'l', 'o', 'n'],
        TokenKindV::Semicolon => seq!['S', 'e', 'm', 'i', 'c', 'o', 'l', 'o', 'n'],
        TokenKindV::Comma => seq!['C', 'o', 'm', 'm', 'a'],
        TokenKindV::Dot => seq!['D', 'o', 't'],
        TokenKindV::Lambda => seq!['L', 'a', 'm', 'b', 'd', 'a'],
        TokenKindV::Whitespace(_) => seq!['W', 'h', 'i', 't', 'e', 's', 'p', 'a', 'c', 'e'],
        TokenKindV::Comment(_) => seq!['C', 'o', 'm', 'm', 'e', 'n', 't'],
    }
}

/// A token rendered as its kind's name with the lexeme in parentheses.
pub open spec fn token_display(t: TokenV) -> Seq<char> {
    kind_label(t.kind) + seq!['('] + t.lexeme + seq![')']
}

impl Token {
    /// The token's rendered form, `Kind(lexeme)`.
    pub fn describe(&self) -> (r: String)
        ensures
            r@ == token_display(self.deep_view()),
    {
        let label: &str = match &self.token_type {
            TokenType::Symbol(_) => {
                proof {
                    reveal_strlit("Symbol");
                }
                "Symbol"
            },
            TokenType::String(_) => {
                proof {
                    reveal_strlit("String");
                }
                "String"
            },
            TokenType::Number(_) => {
                proof {
                    reveal_strlit("Number");
                }
                "Number"
            },
            TokenType::Boolean(_) => {
                proof {
                    reveal_strlit("Boolean");
                }
                "Boolean"
            },
            TokenType::Operator(_) => {
                proof {
                    reveal_strlit("Operator");
                }
                "Operator"
            },
            TokenType::Keyword(_) => {
                proof {
                    reveal_strlit("Keyword");
                }
                "Keyword"
            },
            TokenType::OpenBracket(_) => {
                proof {
                    reveal_strlit("OpenBracket");
                }
                "OpenBracket"
            },
            TokenType::CloseBracket(_) => {
                proof {
                    reveal_strlit("CloseBracket");
                }
                "CloseBracket"
            },
            TokenType::Colon => {
                proof {
                    reveal_strlit("Colon");
                }
                "Colon"
            },
            TokenType::Semicolon => {
                proof {
                    reveal_strlit("Semicolon");
                }
                "Semicolon"
            },
            TokenType::Comma => {
                proof {
                    reveal_strlit("Comma");
                }
                "Comma"
            },
            TokenType::Dot => {
                proof {
                    reveal_strlit("Dot");
                }
                "Dot"
            },
            TokenType::Lambda => {
                proof {
                    reveal_strlit("Lambda");
                }
                "Lambda"
            },
            TokenType::Whitespace(_) => {
                proof {
                    reveal_strlit("Whitespace");
                }
                "Whitespace"
            },
            TokenType::Comment(_) => {
                proof {
                    reveal_strlit("Comment");
                }
                "Comment"
            },
        };
        proof {
            assert(label@ =~= kind_label(self.deep_view().kind));
        }
        let mut out = String::from_str(label);
        out.append("(");
        out.append(self.lexeme.as_str());
        out.append(")");
        proof {
            reveal_strlit("(");
            reveal_strlit(")");
            assert(out@ =~= token_display(self.deep_view()));
        }
        out
    }
}

// ---------------------------------------------------------------------------
// Source positions: 1-based line and column of the character at an index,
// counted over the prefix up to and including that index.
// ---------------------------------------------------------------------------

pub open spec fn line_at(s: Seq<char>, i: int) -> int
    decreases i,
{
    if i < 0 {
        1
    } else {
        (if i == 0 {
            1int
        } else {
            line_at(s, i - 1)
        }) + (if 0 <= i < s.len() && s[i] == '\n' {
            1int
        } else {
            0int
        })
    }
}

pub open spec fn col_at(s: Seq<char>, i: int) -> int
    decreases i,
{
    if i < 0 || i >= s.len() {
        0
    } else if s[i] == '\n' {
        0
    } else if i == 0 {
        1
    } else {
        col_at(s, i - 1) + 1
    }
}

/// Start of the maximal whitespace-free run ending at index `i`.
pub open spec fn frag_start(s: Seq<char>, i: int) -> int
    decreases i,
{
    if i <= 0 {
        0
    } else if is_ws_char(s[i - 1]) {
        i
    } else {
        frag_start(s, i - 1)
    }
}

/// The offending fragment reported for an unmatched character at `i`: the
/// last whitespace-separated word of the input up to and including `i`.
pub open spec fn frag_at(s: Seq<char>, i: int) -> Seq<char> {
    s.subrange(frag_start(s, i), i + 1)
}

/// Byte offset of character position `i`: the length of the UTF-8
/// encoding of the preceding characters.
pub open spec fn byte_index(s: Seq<char>, i: int) -> int {
    vstd::utf8::encode_utf8(s.subrange(0, i)).len() as int
}

proof fn lemma_encode_utf8_concat(a: Seq<char>, b: Seq<char>)
    ensures
        vstd::utf8::encode_utf8(a + b) == vstd::utf8::encode_utf8(a) + vstd::utf8::encode_utf8(b),
    decreases a.len(),
{
    if a.len() == 0 {
        assert(a + b =~= b);
        assert(vstd::utf8::encode_utf8(a) + vstd::utf8::encode_utf8(b) =~= vstd::utf8::encode_utf8(
            b,
        ));
    } else {
        lemma_encode_utf8_concat(a.drop_first(), b);
        assert((a + b).drop_first() =~= a.drop_first() + b);
        assert((a + b)[0] == a[0]);
        assert(vstd::utf8::encode_scalar(a[0] as u32) + (vstd::utf8::encode_utf8(a.drop_first())
            + vstd::utf8::encode_utf8(b)) =~= (vstd::utf8::encode_scalar(a[0] as u32)
            + vstd::utf8::encode_utf8(a.drop_first())) + vstd::utf8::encode_utf8(b));
    }
}

/// Stepping `l` characters forward advances the byte offset by the byte
/// length of the characters stepped over.
proof fn lemma_byte_index_step(s: Seq<char>, i: int, l: int)
    requires
        0 <= i,
        0 <= l,
        i + l <= s.len(),
    ensures
        byte_index(s, i + l) == byte_index(s, i) + vstd::utf8::encode_utf8(
            s.subrange(i, i + l),
        ).len(),
{
    assert(s.subrange(0, i + l) =~= s.subrange(0, i) + s.subrange(i, i + l));
    lemma_encode_utf8_concat(s.subrange(0, i), s.subrange(i, i + l));
}

/// Whitespace and comments are consumed but never become tokens.
pub open spec fn is_trivia(k: TokenKindV) -> bool {
    match k {
        TokenKindV::Whitespace(_) => true,
        TokenKindV::Comment(_) => true,
        _ => false,
    }
}

// ---------------------------------------------------------------------------
// The lexer's specification: scan left to right from `i`, take the longest
// match at each position, drop whitespace and comments, stamp the rest.
// ---------------------------------------------------------------------------

pub open spec fn lex_from(s: Seq<char>, i: int) -> Result<Seq<TokenV>, ErrV>
    decreases s.len() - i,
    via lex_from_dec
{
    if i < 0 || i >= s.len() {
        Ok(Seq::empty())
    } else {
        match match_spec(s.subrange(i, s.len() as int)) {
            Option::None => Err(
                ErrV::UnexpectedToken(frag_at(s, i), line_at(s, i), col_at(s, i)),
            ),
            Option::Some((l, k)) => match lex_from(s, i + l) {
                Err(e) => Err(e),
                Ok(rest) => if is_trivia(k) {
                    Ok(rest)
                } else {
                    Ok(
                        seq![
                            TokenV {
                                kind: k,
                                lexeme: s.subrange(i, i + l),
                                line: line_at(s, i),
                                column: col_at(s, i),
                                index: byte_index(s, i),
                            },
                        ] + rest,
                    )
                },
            },
        }
    }
}

#[via_fn]
proof fn lex_from_dec(s: Seq<char>, i: int) {
    if 0 <= i < s.len() {
        crate::matchers::lemma_best_match_len_le(s.subrange(i, s.len() as int));
    }
}

/// What `tokenise` returns on input `s`.
pub open spec fn lex_spec(s: Seq<char>) -> Result<Seq<TokenV>, ErrV> {
    lex_from(s, 0)
}

// ---------------------------------------------------------------------------
// Executable lexer.
// ---------------------------------------------------------------------------

fn line_col_at(s: &str, i: usize) -> (r: (i64, i64))
    requires
        i < s@.len(),
        s@.len() < 0x7fff_ffff_ffff_ffff,
    ensures
        r.0 as int == line_at(s@, i as int),
        r.1 as int == col_at(s@, i as int),
        r.0 <= i + 2,
        r.1 <= i + 1,
    decreases i,
{
    if i == 0 {
        if s.get_char(0) == '\n' {
            (2, 0)
        } else {
            (1, 1)
        }
    } else {
        let (pl, pc) = line_col_at(s, i - 1);
        if s.get_char(i) == '\n' {
            (pl + 1, 0)
        } else {
            (pl, pc + 1)
        }
    }
}

fn frag_start_x(s: &str, i: usize) -> (r: usize)
    requires
        i < s@.len(),
    ensures
        r as int == frag_start(s@, i as int),
        r <= i,
    decreases i,
{
    if i == 0 {
        0
    } else if crate::matchers::ws_char(s.get_char(i - 1)) {
        i
    } else {
        frag_start_x(s, i - 1)
    }
}

fn tokenise_from(matcher: &Matcher, input: &str, i: usize, bpos: usize) -> (r: Result<
    Vec<Token>,
    SyntaxError,
>)
    requires
        i <= input@.len(),
        input@.len() < 0x7fff_ffff_ffff_ffff,
        bpos as int == byte_index(input@, i as int),
    ensures
        match r {
            Ok(v) => lex_from(input@, i as int) == Ok::<Seq<TokenV>, ErrV>(v.deep_view()),
            Err(e) => lex_from(input@, i as int) == Err::<Seq<TokenV>, ErrV>(e.deep_view()),
        },
    decreases input@.len() - i,
{
    let n = input.unicode_len();
    if i >= n {
        let v: Vec<Token> = Vec::new();
        assert(v.deep_view() =~= Seq::<TokenV>::empty());
        return Ok(v);
    }
    let suffix = input.substring_char(i, n);
    match matcher.match_all(suffix) {
        None => {
            let (line, col) = line_col_at(input, i);
            let fs = frag_start_x(input, i);
            let frag = input.substring_char(fs, i + 1).to_owned();
            assert(frag@ =~= frag_at(input@, i as int));
            Err(SyntaxError::UnexpectedToken(frag, line, col))
        },
        Some((lexeme, token_type)) => {
            let l = lexeme.unicode_len();
            proof {
                assert(suffix@ =~= input@.subrange(i as int, input@.len() as int));
                assert(lexeme@ =~= input@.subrange(i as int, i + l));
            }
            let lex_str = lexeme.as_str();
            let lexeme_bytes = lex_str.as_bytes().len();
            let total_bytes = input.as_bytes().len();
            proof {
                lemma_byte_index_step(input@, i as int, l as int);
                lemma_byte_index_step(input@, i + l, input@.len() - i - l);
                assert(input@.subrange(0, input@.len() as int) =~= input@);
                assert(lex_str.spec_bytes() == vstd::utf8::encode_utf8(lex_str@));
                assert(input.spec_bytes() == vstd::utf8::encode_utf8(input@));
                assert(lexeme_bytes as int == vstd::utf8::encode_utf8(
                    input@.subrange(i as int, i + l),
                ).len());
                assert(bpos + lexeme_bytes == byte_index(input@, i + l));
                assert(total_bytes as int == vstd::utf8::encode_utf8(input@).len());
                assert(byte_index(input@, input@.len() as int) == vstd::utf8::encode_utf8(
                    input@,
                ).len());
                assert(bpos + lexeme_bytes <= total_bytes);
            }
            let is_trivia_tok = match &token_type {
                TokenType::Whitespace(_) => true,
                TokenType::Comment(_) => true,
                _ => false,
            };
            if is_trivia_tok {
                tokenise_from(matcher, input, i + l, bpos + lexeme_bytes)
            } else {
                let (line, col) = line_col_at(input, i);
                match tokenise_from(matcher, input, i + l, bpos + lexeme_bytes) {
                    Err(e) => Err(e),
                    Ok(mut rest) => {
                        let token = Token { token_type, lexeme, line, column: col, index: bpos };
                        let ghost old_rest = rest.deep_view();
                        rest.insert(0, token);
                        proof {
                            assert(rest.deep_view() =~= seq![token.deep_view()] + old_rest);
                        }
                        Ok(rest)
                    },
                }
            }
        },
    }
}

/// Scans the input left to right, longest match first; whitespace and
/// comments are consumed but dropped; every other match becomes a token
/// stamped with its 1-based line and column and 0-based index.  Fails with
/// `UnexpectedToken` at the first position where no pattern matches.
pub fn tokenise(input: &str) -> (r: Result<Vec<Token>, SyntaxError>)
    requires
        input@.len() < 0x7fff_ffff_ffff_ffff,
    ensures
        match r {
            Ok(v) => lex_spec(input@) == Ok::<Seq<TokenV>, ErrV>(v.deep_view()),
            Err(e) => lex_spec(input@) == Err::<Seq<TokenV>, ErrV>(e.deep_view()),
        },
{
    let matcher = Matcher::new();
    proof {
        assert(input@.subrange(0, 0) =~= Seq::<char>::empty());
    }
    tokenise_from(&matcher, input, 0, 0)
}


// ---------------------------------------------------------------------------
// Inputs of nothing but whitespace and comments produce no tokens.
// ---------------------------------------------------------------------------

/// From position `i` on, the input is consumed entirely by whitespace and
/// comment matches.
pub open spec fn trivia_from(s: Seq<char>, i: int) -> bool
    decreases s.len() - i,
    via trivia_from_dec
{
    if i < 0 || i >= s.len() {
        true
    } else {
        match match_spec(s.subrange(i, s.len() as int)) {
            Option::None => false,
            Option::Some((l, k)) => is_trivia(k) && trivia_from(s, i + l),
        }
    }
}

#[via_fn]
proof fn trivia_from_dec(s: Seq<char>, i: int) {
    if 0 <= i < s.len() {
        crate::matchers::lemma_best_match_len_le(s.subrange(i, s.len() as int));
    }
}

pub open spec fn trivia_only(s: Seq<char>) -> bool {
    trivia_from(s, 0)
}

proof fn lemma_trivia_from_lexes_empty(s: Seq<char>, i: int)
    requires
        0 <= i,
        trivia_from(s, i),
    ensures
        lex_from(s, i) == Ok::<Seq<TokenV>, ErrV>(Seq::empty()),
    decreases s.len() - i,
{
    if i < s.len() {
        crate::matchers::lemma_best_match_len_le(s.subrange(i, s.len() as int));
        match match_spec(s.subrange(i, s.len() as int)) {
            Option::None => {},
            Option::Some((l, k)) => {
                lemma_trivia_from_lexes_empty(s, i + l);
            },
        }
    }
}

/// Law: an input containing only whitespace and comments tokenises to the
/// empty sequence.
pub proof fn lemma_trivia_only_tokenises_empty(s: Seq<char>)
    requires
        trivia_only(s),
    ensures
        lex_spec(s) == Ok::<Seq<TokenV>, ErrV>(Seq::empty()),
{
    lemma_trivia_from_lexes_empty(s, 0);
}

proof fn lemma_ws_suffix_trivia(s: Seq<char>, i: int)
    requires
        0 <= i,
        forall|j: int| 0 <= j < s.len() ==> is_ws_char(#[trigger] s[j]),
    ensures
        trivia_from(s, i),
    decreases s.len() - i,
{
    if i < s.len() {
        let suf = s.subrange(i, s.len() as int);
        assert(forall|j: int| 0 <= j < suf.len() ==> is_ws_char(#[trigger] suf[j]));
        assert(is_ws_char(suf[0]));
        crate::matchers::lemma_run_ws_all(suf);
        assert(crate::matchers::best_match_len(suf) == suf.len());
        assert(match_spec(suf) == Some((
            suf.len() as int,
            TokenKindV::Whitespace(suf.subrange(0, suf.len() as int)),
        )));
        assert(is_trivia(match_spec(suf)->Some_0.1));
        lemma_ws_suffix_trivia(s, i + suf.len() as int);
    }
}

/// Law: an input of nothing but whitespace characters tokenises to the
/// empty sequence.
pub proof fn lemma_whitespace_tokenises_empty(s: Seq<char>)
    requires
        forall|j: int| 0 <= j < s.len() ==> is_ws_char(#[trigger] s[j]),
    ensures
        lex_spec(s) == Ok::<Seq<TokenV>, ErrV>(Seq::empty()),
{
    lemma_ws_suffix_trivia(s, 0);
    lemma_trivia_from_lexes_empty(s, 0);
}

} // verus!
