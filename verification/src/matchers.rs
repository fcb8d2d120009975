use vstd::prelude::*;

use crate::tokeniser::{BracketType, KeywordType, OperatorType, PipeType, TokenKindV, TokenType};

verus! {

// ---------------------------------------------------------------------------
// Character classes of the token grammar.
// ---------------------------------------------------------------------------

pub open spec fn is_ws_char(c: char) -> bool {
    let u = c as u32;
    u == 32 || u == 9 || u == 10 || u == 13 || u == 11 || u == 12
}

pub open spec fn is_alnum_char(c: char) -> bool {
    let u = c as u32;
    (48 <= u && u <= 57) || (65 <= u && u <= 90) || (97 <= u && u <= 122)
}

/// Characters that may continue an identifier after its first character.
pub open spec fn is_ident_cont_char(c: char) -> bool {
    let u = c as u32;
    is_alnum_char(c) || u == 64 || u == 35 || u == 36 || u == 94
}

/// Optional one-character prefix of a path-like symbol: `~`, `.` or `#`.
pub open spec fn is_path_mark_char(c: char) -> bool {
    let u = c as u32;
    u == 126 || u == 46 || u == 35
}

pub open spec fn is_lower_char(c: char) -> bool {
    let u = c as u32;
    97 <= u && u <= 122
}

pub open spec fn is_digit_char(c: char) -> bool {
    let u = c as u32;
    48 <= u && u <= 57
}

pub open spec fn is_hex_digit_char(c: char) -> bool {
    let u = c as u32;
    is_digit_char(c) || (97 <= u && u <= 102) || (65 <= u && u <= 70)
}

pub open spec fn is_bin_digit_char(c: char) -> bool {
    let u = c as u32;
    u == 48 || u == 49
}

pub open spec fn is_quote_char(c: char) -> bool {
    let u = c as u32;
    u == 34 || u == 39
}

pub(crate) fn ws_char(c: char) -> (b: bool)
    ensures
        b == is_ws_char(c),
{
    let u = c as u32;
    u == 32 || u == 9 || u == 10 || u == 13 || u == 11 || u == 12
}

fn alnum_char(c: char) -> (b: bool)
    ensures
        b == is_alnum_char(c),
{
    let u = c as u32;
    (48 <= u && u <= 57) || (65 <= u && u <= 90) || (97 <= u && u <= 122)
}

fn ident_cont_char(c: char) -> (b: bool)
    ensures
        b == is_ident_cont_char(c),
{
    let u = c as u32;
    alnum_char(c) || u == 64 || u == 35 || u == 36 || u == 94
}

fn path_mark_char(c: char) -> (b: bool)
    ensures
        b == is_path_mark_char(c),
{
    let u = c as u32;
    u == 126 || u == 46 || u == 35
}

pub(crate) fn lower_char(c: char) -> (b: bool)
    ensures
        b == is_lower_char(c),
{
    let u = c as u32;
    97 <= u && u <= 122
}

fn digit_char_x(c: char) -> (b: bool)
    ensures
        b == is_digit_char(c),
{
    let u = c as u32;
    48 <= u && u <= 57
}

fn hex_digit_char_x(c: char) -> (b: bool)
    ensures
        b == is_hex_digit_char(c),
{
    let u = c as u32;
    digit_char_x(c) || (97 <= u && u <= 102) || (65 <= u && u <= 70)
}

fn bin_digit_char_x(c: char) -> (b: bool)
    ensures
        b == is_bin_digit_char(c),
{
    let u = c as u32;
    u == 48 || u == 49
}

pub(crate) fn quote_char(c: char) -> (b: bool)
    ensures
        b == is_quote_char(c),
{
    let u = c as u32;
    u == 34 || u == 39
}

// ---------------------------------------------------------------------------
// Runs: the length of the longest prefix of a class starting at an index.
// ---------------------------------------------------------------------------

pub open spec fn run_ws(s: Seq<char>, i: int) -> int
    decreases s.len() - i,
{
    if i < 0 || i >= s.len() || !is_ws_char(s[i]) {
        0
    } else {
        1 + run_ws(s, i + 1)
    }
}

pub open spec fn run_non_ws(s: Seq<char>, i: int) -> int
    decreases s.len() - i,
{
    if i < 0 || i >= s.len() || is_ws_char(s[i]) {
        0
    } else {
        1 + run_non_ws(s, i + 1)
    }
}

pub open spec fn run_ident_cont(s: Seq<char>, i: int) -> int
    decreases s.len() - i,
{
    if i < 0 || i >= s.len() || !is_ident_cont_char(s[i]) {
        0
    } else {
        1 + run_ident_cont(s, i + 1)
    }
}

pub open spec fn run_digits(s: Seq<char>, i: int) -> int
    decreases s.len() - i,
{
    if i < 0 || i >= s.len() || !is_digit_char(s[i]) {
        0
    } else {
        1 + run_digits(s, i + 1)
    }
}

pub open spec fn run_hex_digits(s: Seq<char>, i: int) -> int
    decreases s.len() - i,
{
    if i < 0 || i >= s.len() || !is_hex_digit_char(s[i]) {
        0
    } else {
        1 + run_hex_digits(s, i + 1)
    }
}

pub open spec fn run_bin_digits(s: Seq<char>, i: int) -> int
    decreases s.len() - i,
{
    if i < 0 || i >= s.len() || !is_bin_digit_char(s[i]) {
        0
    } else {
        1 + run_bin_digits(s, i + 1)
    }
}

pub open spec fn run_non_nl(s: Seq<char>, i: int) -> int
    decreases s.len() - i,
{
    if i < 0 || i >= s.len() || s[i] == '\n' {
        0
    } else {
        1 + run_non_nl(s, i + 1)
    }
}

fn run_ws_x(s: &str, i: usize) -> (r: usize)
    requires
        i <= s@.len(),
    ensures
        r as int == run_ws(s@, i as int),
        i + r <= s@.len(),
    decreases s@.len() - i,
{
    if i < s.unicode_len() && ws_char(s.get_char(i)) {
        1 + run_ws_x(s, i + 1)
    } else {
        0
    }
}

fn run_non_ws_x(s: &str, i: usize) -> (r: usize)
    requires
        i <= s@.len(),
    ensures
        r as int == run_non_ws(s@, i as int),
        i + r <= s@.len(),
    decreases s@.len() - i,
{
    if i < s.unicode_len() && !ws_char(s.get_char(i)) {
        1 + run_non_ws_x(s, i + 1)
    } else {
        0
    }
}

fn run_ident_cont_x(s: &str, i: usize) -> (r: usize)
    requires
        i <= s@.len(),
    ensures
        r as int == run_ident_cont(s@, i as int),
        i + r <= s@.len(),
    decreases s@.len() - i,
{
    if i < s.unicode_len() && ident_cont_char(s.get_char(i)) {
        1 + run_ident_cont_x(s, i + 1)
    } else {
        0
    }
}

fn run_digits_x(s: &str, i: usize) -> (r: usize)
    requires
        i <= s@.len(),
    ensures
        r as int == run_digits(s@, i as int),
        i + r <= s@.len(),
    decreases s@.len() - i,
{
    if i < s.unicode_len() && digit_char_x(s.get_char(i)) {
        1 + run_digits_x(s, i + 1)
    } else {
        0
    }
}

fn run_hex_digits_x(s: &str, i: usize) -> (r: usize)
    requires
        i <= s@.len(),
    ensures
        r as int == run_hex_digits(s@, i as int),
        i + r <= s@.len(),
    decreases s@.len() - i,
{
    if i < s.unicode_len() && hex_digit_char_x(s.get_char(i)) {
        1 + run_hex_digits_x(s, i + 1)
    } else {
        0
    }
}

fn run_bin_digits_x(s: &str, i: usize) -> (r: usize)
    requires
        i <= s@.len(),
    ensures
        r as int == run_bin_digits(s@, i as int),
        i + r <= s@.len(),
    decreases s@.len() - i,
{
    if i < s.unicode_len() && bin_digit_char_x(s.get_char(i)) {
        1 + run_bin_digits_x(s, i + 1)
    } else {
        0
    }
}

fn run_non_nl_x(s: &str, i: usize) -> (r: usize)
    requires
        i <= s@.len(),
    ensures
        r as int == run_non_nl(s@, i as int),
        i + r <= s@.len(),
    decreases s@.len() - i,
{
    if i < s.unicode_len() && s.get_char(i) != '\n' {
        1 + run_non_nl_x(s, i + 1)
    } else {
        0
    }
}

// ---------------------------------------------------------------------------
// Pattern matchers, each anchored at the start of the remaining input.
// Every pattern yields the length of its longest match there, 0 for none.
// ---------------------------------------------------------------------------

pub open spec fn whitespace_len(s: Seq<char>) -> int {
    run_ws(s, 0)
}

/// End (exclusive) of the last `*/` on the current line at or after `i`;
/// 0 when the line holds none.
pub open spec fn last_block_close(s: Seq<char>, i: int) -> int
    decreases s.len() - i,
{
    if i < 0 || i >= s.len() || s[i] == '\n' {
        0
    } else {
        let rest = last_block_close(s, i + 1);
        if rest != 0 {
            rest
        } else if i + 2 <= s.len() && s[i] == '*' && s[i + 1] == '/' {
            i + 2
        } else {
            0
        }
    }
}

pub open spec fn comment_len(s: Seq<char>) -> int {
    if s.len() >= 2 && s[0] == '/' && s[1] == '/' {
        2 + run_non_nl(s, 2)
    } else if s.len() >= 2 && s[0] == '/' && s[1] == '*' {
        last_block_close(s, 2)
    } else {
        0
    }
}

pub open spec fn lambda_len(s: Seq<char>) -> int {
    if s.len() >= 2 && s[0] == '-' && s[1] == '>' {
        2
    } else {
        0
    }
}

pub open spec fn single_len(s: Seq<char>, c: char) -> int {
    if s.len() >= 1 && s[0] == c {
        1
    } else {
        0
    }
}

pub open spec fn open_bracket_len(s: Seq<char>) -> int {
    if s.len() >= 1 && (s[0] == '(' || s[0] == '{' || s[0] == '[' || s[0] == '<') {
        1
    } else {
        0
    }
}

pub open spec fn close_bracket_len(s: Seq<char>) -> int {
    if s.len() >= 1 && (s[0] == ')' || s[0] == '}' || s[0] == ']' || s[0] == '>') {
        1
    } else {
        0
    }
}

pub open spec fn bracket_kind_of(c: char) -> BracketType {
    if c == '(' || c == ')' {
        BracketType::Parenthesis
    } else if c == '{' || c == '}' {
        BracketType::Brace
    } else if c == '[' || c == ']' {
        BracketType::Bracket
    } else {
        BracketType::Angle
    }
}

pub open spec fn keyword_len(s: Seq<char>) -> int {
    if s.len() >= 8 && s[0] == 'f' && s[1] == 'u' && s[2] == 'n' && s[3] == 'c' && s[4] == 't'
        && s[5] == 'i' && s[6] == 'o' && s[7] == 'n' {
        8
    } else if s.len() >= 6 && s[0] == 'r' && s[1] == 'e' && s[2] == 't' && s[3] == 'u'
        && s[4] == 'r' && s[5] == 'n' {
        6
    } else if s.len() >= 6 && s[0] == 'i' && s[1] == 'm' && s[2] == 'p' && s[3] == 'o'
        && s[4] == 'r' && s[5] == 't' {
        6
    } else if s.len() >= 4 && s[0] == 'e' && s[1] == 'l' && s[2] == 's' && s[3] == 'e' {
        4
    } else if s.len() >= 3 && s[0] == 'f' && s[1] == 'o' && s[2] == 'r' {
        3
    } else if s.len() >= 2 && s[0] == 'i' && s[1] == 'f' {
        2
    } else {
        0
    }
}

pub open spec fn keyword_of(s: Seq<char>) -> KeywordType {
    if keyword_len(s) == 8 {
        KeywordType::Function
    } else if keyword_len(s) == 6 {
        if s[0] == 'r' {
            KeywordType::Return
        } else {
            KeywordType::Import
        }
    } else if keyword_len(s) == 4 {
        KeywordType::Else
    } else if keyword_len(s) == 3 {
        KeywordType::For
    } else {
        KeywordType::If
    }
}

pub open spec fn boolean_len(s: Seq<char>) -> int {
    if s.len() >= 4 && s[0] == 't' && s[1] == 'r' && s[2] == 'u' && s[3] == 'e' {
        4
    } else if s.len() >= 5 && s[0] == 'f' && s[1] == 'a' && s[2] == 'l' && s[3] == 's'
        && s[4] == 'e' {
        5
    } else {
        0
    }
}

pub open spec fn is_pipe_o(c: char) -> bool {
    c == 'o' || c == 'O'
}

pub open spec fn is_pipe_e(c: char) -> bool {
    c == 'e' || c == 'E'
}

pub open spec fn operator_len(s: Seq<char>) -> int {
    if s.len() == 0 {
        0
    } else if s[0] == '|' {
        if s.len() >= 2 && s[1] == '|' {
            2
        } else if s.len() >= 2 && is_pipe_o(s[1]) {
            if s.len() >= 3 && is_pipe_e(s[2]) {
                3
            } else {
                2
            }
        } else if s.len() >= 2 && is_pipe_e(s[1]) {
            if s.len() >= 3 && is_pipe_o(s[2]) {
                3
            } else {
                2
            }
        } else {
            1
        }
    } else if s[0] == '=' || s[0] == '!' || s[0] == '>' || s[0] == '<' {
        if s.len() >= 2 && s[1] == '=' {
            2
        } else {
            1
        }
    } else if s[0] == '&' {
        if s.len() >= 2 && s[1] == '&' {
            2
        } else {
            0
        }
    } else if s[0] == '+' || s[0] == '-' || s[0] == '*' || s[0] == '/' || s[0] == '%'
        || s[0] == '^' {
        1
    } else {
        0
    }
}

/// The operator a match of length `operator_len(s)` stands for.
pub open spec fn operator_of(s: Seq<char>) -> OperatorType {
    let l = operator_len(s);
    if s.len() == 0 {
        OperatorType::Add
    } else if s[0] == '|' {
        if l == 1 {
            OperatorType::Pipe(PipeType::Stdout)
        } else if l == 2 {
            if s[1] == '|' {
                OperatorType::Or
            } else if is_pipe_o(s[1]) {
                OperatorType::Pipe(PipeType::Stdout)
            } else {
                OperatorType::Pipe(PipeType::Stderr)
            }
        } else {
            OperatorType::Pipe(PipeType::Both)
        }
    } else if s[0] == '=' {
        if l == 2 {
            OperatorType::Equal
        } else {
            OperatorType::Assign
        }
    } else if s[0] == '!' {
        if l == 2 {
            OperatorType::NotEqual
        } else {
            OperatorType::Not
        }
    } else if s[0] == '>' {
        if l == 2 {
            OperatorType::GreaterThanOrEqual
        } else {
            OperatorType::GreaterThan
        }
    } else if s[0] == '<' {
        if l == 2 {
            OperatorType::LessThanOrEqual
        } else {
            OperatorType::LessThan
        }
    } else if s[0] == '&' {
        OperatorType::And
    } else if s[0] == '+' {
        OperatorType::Add
    } else if s[0] == '-' {
        OperatorType::Subtract
    } else if s[0] == '*' {
        OperatorType::Multiply
    } else if s[0] == '/' {
        OperatorType::Divide
    } else if s[0] == '%' {
        OperatorType::Modulo
    } else {
        OperatorType::Exponent
    }
}

/// Length of an unsigned number body at `off`: decimal, hexadecimal or
/// binary digits, each with an optional fractional part of the same digit
/// class; the longest of the three alternatives wins.
pub open spec fn dec_body_len(s: Seq<char>, off: int) -> int {
    let d = run_digits(s, off);
    if d == 0 {
        0
    } else if off + d < s.len() && s[off + d] == '.' && run_digits(s, off + d + 1) > 0 {
        d + 1 + run_digits(s, off + d + 1)
    } else {
        d
    }
}

pub open spec fn hex_body_len(s: Seq<char>, off: int) -> int {
    if off + 2 <= s.len() && s[off] == '0' && s[off + 1] == 'x' {
        let d = run_hex_digits(s, off + 2);
        if d == 0 {
            0
        } else if off + 2 + d < s.len() && s[off + 2 + d] == '.' && run_hex_digits(
            s,
            off + 2 + d + 1,
        ) > 0 {
            2 + d + 1 + run_hex_digits(s, off + 2 + d + 1)
        } else {
            2 + d
        }
    } else {
        0
    }
}

pub open spec fn bin_body_len(s: Seq<char>, off: int) -> int {
    if off + 2 <= s.len() && s[off] == '0' && s[off + 1] == 'b' {
        let d = run_bin_digits(s, off + 2);
        if d == 0 {
            0
        } else if off + 2 + d < s.len() && s[off + 2 + d] == '.' && run_bin_digits(
            s,
            off + 2 + d + 1,
        ) > 0 {
            2 + d + 1 + run_bin_digits(s, off + 2 + d + 1)
        } else {
            2 + d
        }
    } else {
        0
    }
}

pub open spec fn number_len(s: Seq<char>) -> int {
    let off: int = if s.len() >= 1 && s[0] == '-' {
        1
    } else {
        0
    };
    let d = dec_body_len(s, off);
    let h = hex_body_len(s, off);
    let b = bin_body_len(s, off);
    let core = if h >= d && h >= b {
        h
    } else if b >= d {
        b
    } else {
        d
    };
    if core == 0 {
        0
    } else {
        off + core
    }
}

/// End (exclusive) of a quoted string body started before `i` with quote
/// character `q`: the first unescaped `q` closes it; a backslash escapes any
/// character but a newline; 0 when the string never closes.
pub open spec fn string_body_end(s: Seq<char>, i: int, q: char) -> int
    decreases s.len() - i,
{
    if i < 0 || i >= s.len() {
        0
    } else if s[i] == q {
        i + 1
    } else if s[i] == '\\' {
        if i + 1 < s.len() && s[i + 1] != '\n' {
            string_body_end(s, i + 2, q)
        } else {
            0
        }
    } else {
        string_body_end(s, i + 1, q)
    }
}

pub open spec fn string_len(s: Seq<char>) -> int {
    if s.len() >= 1 && is_quote_char(s[0]) {
        string_body_end(s, 1, s[0])
    } else if s.len() >= 2 && is_lower_char(s[0]) && is_quote_char(s[1]) {
        string_body_end(s, 2, s[1])
    } else {
        0
    }
}

/// A symbol is an identifier (alphanumeric head, then identifier
/// characters), or a path: an optional `~`, `.` or `#`, a `/`, and any run
/// of non-whitespace characters.
pub open spec fn symbol_len(s: Seq<char>) -> int {
    if s.len() == 0 {
        0
    } else if is_alnum_char(s[0]) {
        1 + run_ident_cont(s, 1)
    } else {
        let off: int = if is_path_mark_char(s[0]) {
            1
        } else {
            0
        };
        if off < s.len() && s[off] == '/' {
            off + 1 + run_non_ws(s, off + 1)
        } else {
            0
        }
    }
}

// ---------------------------------------------------------------------------
// The matcher: longest match across all patterns; on a tie the pattern
// earlier in the fixed priority order wins.  The order is: comment,
// whitespace, lambda arrow, dot, comma, semicolon, colon, closing bracket,
// opening bracket, keyword, operator, boolean, number, string, symbol.
// ---------------------------------------------------------------------------

pub open spec fn best_match_len(s: Seq<char>) -> int {
    let l0 = comment_len(s);
    let l1 = if whitespace_len(s) > l0 {
        whitespace_len(s)
    } else {
        l0
    };
    let l2 = if lambda_len(s) > l1 {
        lambda_len(s)
    } else {
        l1
    };
    let l3 = if single_len(s, '.') > l2 {
        single_len(s, '.')
    } else {
        l2
    };
    let l4 = if single_len(s, ',') > l3 {
        single_len(s, ',')
    } else {
        l3
    };
    let l5 = if single_len(s, ';') > l4 {
        single_len(s, ';')
    } else {
        l4
    };
    let l6 = if single_len(s, ':') > l5 {
        single_len(s, ':')
    } else {
        l5
    };
    let l7 = if close_bracket_len(s) > l6 {
        close_bracket_len(s)
    } else {
        l6
    };
    let l8 = if open_bracket_len(s) > l7 {
        open_bracket_len(s)
    } else {
        l7
    };
    let l9 = if keyword_len(s) > l8 {
        keyword_len(s)
    } else {
        l8
    };
    let l10 = if operator_len(s) > l9 {
        operator_len(s)
    } else {
        l9
    };
    let l11 = if boolean_len(s) > l10 {
        boolean_len(s)
    } else {
        l10
    };
    let l12 = if number_len(s) > l11 {
        number_len(s)
    } else {
        l11
    };
    let l13 = if string_len(s) > l12 {
        string_len(s)
    } else {
        l12
    };
    if symbol_len(s) > l13 {
        symbol_len(s)
    } else {
        l13
    }
}

/// The kind of the winning pattern, assuming `best_match_len(s) > 0`.
pub open spec fn best_match_kind(s: Seq<char>) -> TokenKindV {
    let b = best_match_len(s);
    let lex = s.subrange(0, b);
    if comment_len(s) == b {
        TokenKindV::Comment(lex)
    } else if whitespace_len(s) == b {
        TokenKindV::Whitespace(lex)
    } else if lambda_len(s) == b {
        TokenKindV::Lambda
    } else if single_len(s, '.') == b {
        TokenKindV::Dot
    } else if single_len(s, ',') == b {
        TokenKindV::Comma
    } else if single_len(s, ';') == b {
        TokenKindV::Semicolon
    } else if single_len(s, ':') == b {
        TokenKindV::Colon
    } else if close_bracket_len(s) == b {
        TokenKindV::CloseBracket(bracket_kind_of(s[0]))
    } else if open_bracket_len(s) == b {
        TokenKindV::OpenBracket(bracket_kind_of(s[0]))
    } else if keyword_len(s) == b {
        TokenKindV::Keyword(keyword_of(s))
    } else if operator_len(s) == b {
        TokenKindV::Operator(operator_of(s))
    } else if boolean_len(s) == b {
        TokenKindV::Boolean(b == 4)
    } else if number_len(s) == b {
        TokenKindV::Number(lex)
    } else if string_len(s) == b {
        TokenKindV::String(lex)
    } else {
        TokenKindV::Symbol(lex)
    }
}

pub proof fn lemma_run_ws_le(s: Seq<char>, i: int)
    requires
        0 <= i <= s.len(),
    ensures
        0 <= run_ws(s, i) <= s.len() - i,
    decreases s.len() - i,
{
    if i < s.len() && is_ws_char(s[i]) {
        lemma_run_ws_le(s, i + 1);
    }
}

pub proof fn lemma_run_non_ws_le(s: Seq<char>, i: int)
    requires
        0 <= i <= s.len(),
    ensures
        0 <= run_non_ws(s, i) <= s.len() - i,
    decreases s.len() - i,
{
    if i < s.len() && !is_ws_char(s[i]) {
        lemma_run_non_ws_le(s, i + 1);
    }
}

pub proof fn lemma_run_ident_cont_le(s: Seq<char>, i: int)
    requires
        0 <= i <= s.len(),
    ensures
        0 <= run_ident_cont(s, i) <= s.len() - i,
    decreases s.len() - i,
{
    if i < s.len() && is_ident_cont_char(s[i]) {
        lemma_run_ident_cont_le(s, i + 1);
    }
}

pub proof fn lemma_run_digits_le(s: Seq<char>, i: int)
    requires
        0 <= i <= s.len(),
    ensures
        0 <= run_digits(s, i) <= s.len() - i,
    decreases s.len() - i,
{
    if i < s.len() && is_digit_char(s[i]) {
        lemma_run_digits_le(s, i + 1);
    }
}

pub proof fn lemma_run_hex_digits_le(s: Seq<char>, i: int)
    requires
        0 <= i <= s.len(),
    ensures
        0 <= run_hex_digits(s, i) <= s.len() - i,
    decreases s.len() - i,
{
    if i < s.len() && is_hex_digit_char(s[i]) {
        lemma_run_hex_digits_le(s, i + 1);
    }
}

pub proof fn lemma_run_bin_digits_le(s: Seq<char>, i: int)
    requires
        0 <= i <= s.len(),
    ensures
        0 <= run_bin_digits(s, i) <= s.len() - i,
    decreases s.len() - i,
{
    if i < s.len() && is_bin_digit_char(s[i]) {
        lemma_run_bin_digits_le(s, i + 1);
    }
}

pub proof fn lemma_run_non_nl_le(s: Seq<char>, i: int)
    requires
        0 <= i <= s.len(),
    ensures
        0 <= run_non_nl(s, i) <= s.len() - i,
    decreases s.len() - i,
{
    if i < s.len() && s[i] != '\n' {
        lemma_run_non_nl_le(s, i + 1);
    }
}

pub proof fn lemma_last_block_close_le(s: Seq<char>, i: int)
    requires
        0 <= i,
    ensures
        last_block_close(s, i) <= s.len(),
    decreases s.len() - i,
{
    if i < s.len() && s[i] != '\n' {
        lemma_last_block_close_le(s, i + 1);
    }
}

pub proof fn lemma_string_body_end_le(s: Seq<char>, i: int, q: char)
    requires
        0 <= i,
    ensures
        string_body_end(s, i, q) <= s.len(),
    decreases s.len() - i,
{
    if i < s.len() {
        if s[i] == q {
        } else if s[i] == '\\' {
            if i + 1 < s.len() && s[i + 1] != '\n' {
                lemma_string_body_end_le(s, i + 2, q);
            }
        } else {
            lemma_string_body_end_le(s, i + 1, q);
        }
    }
}

pub proof fn lemma_dec_body_le(s: Seq<char>, off: int)
    requires
        0 <= off <= s.len(),
    ensures
        0 <= dec_body_len(s, off) <= s.len() - off,
{
    lemma_run_digits_le(s, off);
    let d = run_digits(s, off);
    if d > 0 && off + d < s.len() {
        lemma_run_digits_le(s, off + d + 1);
    }
}

pub proof fn lemma_hex_body_le(s: Seq<char>, off: int)
    requires
        0 <= off <= s.len(),
    ensures
        0 <= hex_body_len(s, off) <= s.len() - off,
{
    if off + 2 <= s.len() {
        lemma_run_hex_digits_le(s, off + 2);
        let d = run_hex_digits(s, off + 2);
        if d > 0 && off + 2 + d < s.len() {
            lemma_run_hex_digits_le(s, off + 2 + d + 1);
        }
    }
}

pub proof fn lemma_bin_body_le(s: Seq<char>, off: int)
    requires
        0 <= off <= s.len(),
    ensures
        0 <= bin_body_len(s, off) <= s.len() - off,
{
    if off + 2 <= s.len() {
        lemma_run_bin_digits_le(s, off + 2);
        let d = run_bin_digits(s, off + 2);
        if d > 0 && off + 2 + d < s.len() {
            lemma_run_bin_digits_le(s, off + 2 + d + 1);
        }
    }
}

/// No pattern ever matches past the end of the input.
pub proof fn lemma_best_match_len_le(s: Seq<char>)
    ensures
        best_match_len(s) <= s.len(),
{
    if s.len() >= 2 && s[0] == '/' && s[1] == '/' {
        lemma_run_non_nl_le(s, 2);
    }
    if s.len() >= 2 {
        lemma_last_block_close_le(s, 2);
    }
    lemma_run_ws_le(s, 0);
    let off: int = if s.len() >= 1 && s[0] == '-' {
        1
    } else {
        0
    };
    if off <= s.len() {
        lemma_dec_body_le(s, off);
        lemma_hex_body_le(s, off);
        lemma_bin_body_le(s, off);
    }
    if s.len() >= 1 && is_quote_char(s[0]) {
        lemma_string_body_end_le(s, 1, s[0]);
    }
    if s.len() >= 2 && is_lower_char(s[0]) && is_quote_char(s[1]) {
        lemma_string_body_end_le(s, 2, s[1]);
    }
    if s.len() >= 1 && is_alnum_char(s[0]) {
        lemma_run_ident_cont_le(s, 1);
    }
    if s.len() >= 1 && !is_alnum_char(s[0]) {
        let poff: int = if is_path_mark_char(s[0]) {
            1
        } else {
            0
        };
        if poff < s.len() && s[poff] == '/' {
            lemma_run_non_ws_le(s, poff + 1);
        }
    }
}

/// The matcher's whole answer: the longest match at the start of the
/// remaining input and its classified kind, or nothing.
pub open spec fn match_spec(s: Seq<char>) -> Option<(int, TokenKindV)> {
    if best_match_len(s) > 0 {
        Some((best_match_len(s), best_match_kind(s)))
    } else {
        None
    }
}

/// The fixed bank of token patterns.  All patterns are pure functions of
/// the input, so the matcher itself carries no state.
pub struct Matcher {}

impl Matcher {
    pub fn new() -> (m: Matcher) {
        Matcher {  }
    }

    /// Runs every pattern anchored at the start of `s` and returns the
    /// longest match with its kind; ties go to the pattern earliest in the
    /// fixed priority order.  Returns `None` when nothing matches.
    pub fn match_all(&self, s: &str) -> (r: Option<(String, TokenType)>)
        ensures
            match r {
                Some((lexeme, kind)) => {
                    &&& match_spec(s@) matches Some((l, k))
                    &&& 0 < best_match_len(s@) <= s@.len()
                    &&& lexeme@ == s@.subrange(0, best_match_len(s@))
                    &&& kind.deep_view() == best_match_kind(s@)
                },
                None => match_spec(s@) == Option::<(int, TokenKindV)>::None,
            },
    {
        let n = s.unicode_len();
        let lc = comment_len_x(s);
        let lw = run_ws_x(s, 0);
        let lla = lambda_len_x(s);
        let ldot = single_len_x(s, '.');
        let lcom = single_len_x(s, ',');
        let lsemi = single_len_x(s, ';');
        let lcol = single_len_x(s, ':');
        let lcb = close_bracket_len_x(s);
        let lob = open_bracket_len_x(s);
        let lk = keyword_len_x(s);
        let lop = operator_len_x(s);
        let lb = boolean_len_x(s);
        let lnum = number_len_x(s);
        let lstr = string_len_x(s);
        let lsym = symbol_len_x(s);

        let mut best = lc;
        if lw > best {
            best = lw;
        }
        if lla > best {
            best = lla;
        }
        if ldot > best {
            best = ldot;
        }
        if lcom > best {
            best = lcom;
        }
        if lsemi > best {
            best = lsemi;
        }
        if lcol > best {
            best = lcol;
        }
        if lcb > best {
            best = lcb;
        }
        if lob > best {
            best = lob;
        }
        if lk > best {
            best = lk;
        }
        if lop > best {
            best = lop;
        }
        if lb > best {
            best = lb;
        }
        if lnum > best {
            best = lnum;
        }
        if lstr > best {
            best = lstr;
        }
        if lsym > best {
            best = lsym;
        }
        assert(best as int == best_match_len(s@));
        if best == 0 {
            return None;
        }
        let lexeme: String = s.substring_char(0, best).to_owned();
        let kind: TokenType = if lc == best {
            TokenType::Comment(lexeme.clone())
        } else if lw == best {
            TokenType::Whitespace(lexeme.clone())
        } else if lla == best {
            TokenType::Lambda
        } else if ldot == best {
            TokenType::Dot
        } else if lcom == best {
            TokenType::Comma
        } else if lsemi == best {
            TokenType::Semicolon
        } else if lcol == best {
            TokenType::Colon
        } else if lcb == best {
            TokenType::CloseBracket(bracket_kind_of_x(s.get_char(0)))
        } else if lob == best {
            TokenType::OpenBracket(bracket_kind_of_x(s.get_char(0)))
        } else if lk == best {
            TokenType::Keyword(keyword_of_x(s))
        } else if lop == best {
            TokenType::Operator(operator_of_x(s))
        } else if lb == best {
            TokenType::Boolean(best == 4)
        } else if lnum == best {
            TokenType::Number(lexeme.clone())
        } else if lstr == best {
            TokenType::String(lexeme.clone())
        } else {
            TokenType::Symbol(lexeme.clone())
        };
        Some((lexeme, kind))
    }
}

// ---------------------------------------------------------------------------
// Executable pattern matchers, each exactly its specification.
// ---------------------------------------------------------------------------

fn comment_len_x(s: &str) -> (r: usize)
    ensures
        r as int == comment_len(s@),
        r <= s@.len(),
{
    let n = s.unicode_len();
    if n >= 2 && s.get_char(0) == '/' && s.get_char(1) == '/' {
        2 + run_non_nl_x(s, 2)
    } else if n >= 2 && s.get_char(0) == '/' && s.get_char(1) == '*' {
        last_block_close_x(s, 2)
    } else {
        0
    }
}

fn last_block_close_x(s: &str, i: usize) -> (r: usize)
    requires
        i <= s@.len(),
    ensures
        r as int == last_block_close(s@, i as int),
        r <= s@.len(),
    decreases s@.len() - i,
{
    let n = s.unicode_len();
    if i >= n || s.get_char(i) == '\n' {
        0
    } else {
        let rest = last_block_close_x(s, i + 1);
        if rest != 0 {
            rest
        } else if n - i >= 2 && s.get_char(i) == '*' && s.get_char(i + 1) == '/' {
            i + 2
        } else {
            0
        }
    }
}

fn lambda_len_x(s: &str) -> (r: usize)
    ensures
        r as int == lambda_len(s@),
        r <= s@.len(),
{
    if s.unicode_len() >= 2 && s.get_char(0) == '-' && s.get_char(1) == '>' {
        2
    } else {
        0
    }
}

fn single_len_x(s: &str, c: char) -> (r: usize)
    ensures
        r as int == single_len(s@, c),
        r <= s@.len(),
{
    if s.unicode_len() >= 1 && s.get_char(0) == c {
        1
    } else {
        0
    }
}

fn open_bracket_len_x(s: &str) -> (r: usize)
    ensures
        r as int == open_bracket_len(s@),
        r <= s@.len(),
{
    if s.unicode_len() >= 1 {
        let c = s.get_char(0);
        if c == '(' || c == '{' || c == '[' || c == '<' {
            1
        } else {
            0
        }
    } else {
        0
    }
}

fn close_bracket_len_x(s: &str) -> (r: usize)
    ensures
        r as int == close_bracket_len(s@),
        r <= s@.len(),
{
    if s.unicode_len() >= 1 {
        let c = s.get_char(0);
        if c == ')' || c == '}' || c == ']' || c == '>' {
            1
        } else {
            0
        }
    } else {
        0
    }
}

fn bracket_kind_of_x(c: char) -> (k: BracketType)
    ensures
        k == bracket_kind_of(c),
{
    if c == '(' || c == ')' {
        BracketType::Parenthesis
    } else if c == '{' || c == '}' {
        BracketType::Brace
    } else if c == '[' || c == ']' {
        BracketType::Bracket
    } else {
        BracketType::Angle
    }
}

fn keyword_len_x(s: &str) -> (r: usize)
    ensures
        r as int == keyword_len(s@),
        r <= s@.len(),
{
    let n = s.unicode_len();
    if n >= 8 && s.get_char(0) == 'f' && s.get_char(1) == 'u' && s.get_char(2) == 'n'
        && s.get_char(3) == 'c' && s.get_char(4) == 't' && s.get_char(5) == 'i' && s.get_char(6)
        == 'o' && s.get_char(7) == 'n' {
        8
    } else if n >= 6 && s.get_char(0) == 'r' && s.get_char(1) == 'e' && s.get_char(2) == 't'
        && s.get_char(3) == 'u' && s.get_char(4) == 'r' && s.get_char(5) == 'n' {
        6
    } else if n >= 6 && s.get_char(0) == 'i' && s.get_char(1) == 'm' && s.get_char(2) == 'p'
        && s.get_char(3) == 'o' && s.get_char(4) == 'r' && s.get_char(5) == 't' {
        6
    } else if n >= 4 && s.get_char(0) == 'e' && s.get_char(1) == 'l' && s.get_char(2) == 's'
        && s.get_char(3) == 'e' {
        4
    } else if n >= 3 && s.get_char(0) == 'f' && s.get_char(1) == 'o' && s.get_char(2) == 'r' {
        3
    } else if n >= 2 && s.get_char(0) == 'i' && s.get_char(1) == 'f' {
        2
    } else {
        0
    }
}

fn keyword_of_x(s: &str) -> (k: KeywordType)
    requires
        keyword_len(s@) > 0,
    ensures
        k == keyword_of(s@),
{
    let l = keyword_len_x(s);
    if l == 8 {
        KeywordType::Function
    } else if l == 6 {
        if s.get_char(0) == 'r' {
            KeywordType::Return
        } else {
            KeywordType::Import
        }
    } else if l == 4 {
        KeywordType::Else
    } else if l == 3 {
        KeywordType::For
    } else {
        KeywordType::If
    }
}

fn boolean_len_x(s: &str) -> (r: usize)
    ensures
        r as int == boolean_len(s@),
        r <= s@.len(),
{
    let n = s.unicode_len();
    if n >= 4 && s.get_char(0) == 't' && s.get_char(1) == 'r' && s.get_char(2) == 'u'
        && s.get_char(3) == 'e' {
        4
    } else if n >= 5 && s.get_char(0) == 'f' && s.get_char(1) == 'a' && s.get_char(2) == 'l'
        && s.get_char(3) == 's' && s.get_char(4) == 'e' {
        5
    } else {
        0
    }
}

fn pipe_o(c: char) -> (b: bool)
    ensures
        b == is_pipe_o(c),
{
    c == 'o' || c == 'O'
}

fn pipe_e(c: char) -> (b: bool)
    ensures
        b == is_pipe_e(c),
{
    c == 'e' || c == 'E'
}

fn operator_len_x(s: &str) -> (r: usize)
    ensures
        r as int == operator_len(s@),
        r <= s@.len(),
{
    let n = s.unicode_len();
    if n == 0 {
        return 0;
    }
    let c = s.get_char(0);
    if c == '|' {
        if n >= 2 && s.get_char(1) == '|' {
            2
        } else if n >= 2 && pipe_o(s.get_char(1)) {
            if n >= 3 && pipe_e(s.get_char(2)) {
                3
            } else {
                2
            }
        } else if n >= 2 && pipe_e(s.get_char(1)) {
            if n >= 3 && pipe_o(s.get_char(2)) {
                3
            } else {
                2
            }
        } else {
            1
        }
    } else if c == '=' || c == '!' || c == '>' || c == '<' {
        if n >= 2 && s.get_char(1) == '=' {
            2
        } else {
            1
        }
    } else if c == '&' {
        if n >= 2 && s.get_char(1) == '&' {
            2
        } else {
            0
        }
    } else if c == '+' || c == '-' || c == '*' || c == '/' || c == '%' || c == '^' {
        1
    } else {
        0
    }
}

fn operator_of_x(s: &str) -> (op: OperatorType)
    requires
        operator_len(s@) > 0,
    ensures
        op == operator_of(s@),
{
    let l = operator_len_x(s);
    let c = s.get_char(0);
    if c == '|' {
        if l == 1 {
            OperatorType::Pipe(PipeType::Stdout)
        } else if l == 2 {
            let c1 = s.get_char(1);
            if c1 == '|' {
                OperatorType::Or
            } else if pipe_o(c1) {
                OperatorType::Pipe(PipeType::Stdout)
            } else {
                OperatorType::Pipe(PipeType::Stderr)
            }
        } else {
            OperatorType::Pipe(PipeType::Both)
        }
    } else if c == '=' {
        if l == 2 {
            OperatorType::Equal
        } else {
            OperatorType::Assign
        }
    } else if c == '!' {
        if l == 2 {
            OperatorType::NotEqual
        } else {
            OperatorType::Not
        }
    } else if c == '>' {
        if l == 2 {
            OperatorType::GreaterThanOrEqual
        } else {
            OperatorType::GreaterThan
        }
    } else if c == '<' {
        if l == 2 {
            OperatorType::LessThanOrEqual
        } else {
            OperatorType::LessThan
        }
    } else if c == '&' {
        OperatorType::And
    } else if c == '+' {
        OperatorType::Add
    } else if c == '-' {
        OperatorType::Subtract
    } else if c == '*' {
        OperatorType::Multiply
    } else if c == '/' {
        OperatorType::Divide
    } else if c == '%' {
        OperatorType::Modulo
    } else {
        OperatorType::Exponent
    }
}

fn dec_body_len_x(s: &str, off: usize) -> (r: usize)
    requires
        off <= s@.len(),
    ensures
        r as int == dec_body_len(s@, off as int),
        off + r <= s@.len(),
{
    let n = s.unicode_len();
    let d = run_digits_x(s, off);
    if d == 0 {
        0
    } else if off + d < n && s.get_char(off + d) == '.' && run_digits_x(s, off + d + 1) > 0 {
        d + 1 + run_digits_x(s, off + d + 1)
    } else {
        d
    }
}

fn hex_body_len_x(s: &str, off: usize) -> (r: usize)
    requires
        off <= s@.len(),
    ensures
        r as int == hex_body_len(s@, off as int),
        off + r <= s@.len(),
{
    let n = s.unicode_len();
    if n - off >= 2 && s.get_char(off) == '0' && s.get_char(off + 1) == 'x' {
        let d = run_hex_digits_x(s, off + 2);
        if d == 0 {
            0
        } else if off + 2 + d < n && s.get_char(off + 2 + d) == '.' && run_hex_digits_x(
            s,
            off + 2 + d + 1,
        ) > 0 {
            2 + d + 1 + run_hex_digits_x(s, off + 2 + d + 1)
        } else {
            2 + d
        }
    } else {
        0
    }
}

fn bin_body_len_x(s: &str, off: usize) -> (r: usize)
    requires
        off <= s@.len(),
    ensures
        r as int == bin_body_len(s@, off as int),
        off + r <= s@.len(),
{
    let n = s.unicode_len();
    if n - off >= 2 && s.get_char(off) == '0' && s.get_char(off + 1) == 'b' {
        let d = run_bin_digits_x(s, off + 2);
        if d == 0 {
            0
        } else if off + 2 + d < n && s.get_char(off + 2 + d) == '.' && run_bin_digits_x(
            s,
            off + 2 + d + 1,
        ) > 0 {
            2 + d + 1 + run_bin_digits_x(s, off + 2 + d + 1)
        } else {
            2 + d
        }
    } else {
        0
    }
}

fn number_len_x(s: &str) -> (r: usize)
    ensures
        r as int == number_len(s@),
        r <= s@.len(),
{
    let n = s.unicode_len();
    let off: usize = if n >= 1 && s.get_char(0) == '-' {
        1
    } else {
        0
    };
    let d = dec_body_len_x(s, off);
    let h = hex_body_len_x(s, off);
    let b = bin_body_len_x(s, off);
    let core = if h >= d && h >= b {
        h
    } else if b >= d {
        b
    } else {
        d
    };
    if core == 0 {
        0
    } else {
        off + core
    }
}

fn string_body_end_x(s: &str, i: usize, q: char) -> (r: usize)
    requires
        i <= s@.len(),
    ensures
        r as int == string_body_end(s@, i as int, q),
        r <= s@.len(),
    decreases s@.len() - i,
{
    let n = s.unicode_len();
    if i >= n {
        0
    } else if s.get_char(i) == q {
        i + 1
    } else if s.get_char(i) == '\\' {
        if i + 1 < n && s.get_char(i + 1) != '\n' {
            string_body_end_x(s, i + 2, q)
        } else {
            0
        }
    } else {
        string_body_end_x(s, i + 1, q)
    }
}

fn string_len_x(s: &str) -> (r: usize)
    ensures
        r as int == string_len(s@),
        r <= s@.len(),
{
    let n = s.unicode_len();
    if n >= 1 && quote_char(s.get_char(0)) {
        string_body_end_x(s, 1, s.get_char(0))
    } else if n >= 2 && lower_char(s.get_char(0)) && quote_char(s.get_char(1)) {
        string_body_end_x(s, 2, s.get_char(1))
    } else {
        0
    }
}

fn symbol_len_x(s: &str) -> (r: usize)
    ensures
        r as int == symbol_len(s@),
        r <= s@.len(),
{
    let n = s.unicode_len();
    if n == 0 {
        0
    } else if alnum_char(s.get_char(0)) {
        1 + run_ident_cont_x(s, 1)
    } else {
        let off: usize = if path_mark_char(s.get_char(0)) {
            1
        } else {
            0
        };
        if off < n && s.get_char(off) == '/' {
            off + 1 + run_non_ws_x(s, off + 1)
        } else {
            0
        }
    }
}


/// On an input of nothing but whitespace characters, the whitespace
/// pattern consumes everything and wins outright.
pub proof fn lemma_run_ws_all(s: Seq<char>)
    requires
        s.len() > 0,
        forall|j: int| 0 <= j < s.len() ==> is_ws_char(#[trigger] s[j]),
    ensures
        best_match_len(s) == s.len(),
        best_match_kind(s) == TokenKindV::Whitespace(s.subrange(0, s.len() as int)),
    decreases s.len(),
{
    lemma_run_ws_covers(s, 0);
    lemma_best_match_len_le(s);
    assert(comment_len(s) == 0);
    assert(lambda_len(s) == 0);
    assert(single_len(s, '.') == 0);
    assert(single_len(s, ',') == 0);
    assert(single_len(s, ';') == 0);
    assert(single_len(s, ':') == 0);
    assert(close_bracket_len(s) == 0);
    assert(open_bracket_len(s) == 0);
    assert(keyword_len(s) == 0);
    assert(operator_len(s) == 0);
    assert(boolean_len(s) == 0);
    assert(run_digits(s, 0) == 0);
    assert(dec_body_len(s, 0) == 0);
    assert(hex_body_len(s, 0) == 0);
    assert(bin_body_len(s, 0) == 0);
    assert(number_len(s) == 0);
    assert(string_len(s) == 0);
    assert(symbol_len(s) == 0);
    assert(whitespace_len(s) == s.len());
}

proof fn lemma_run_ws_covers(s: Seq<char>, i: int)
    requires
        0 <= i <= s.len(),
        forall|j: int| 0 <= j < s.len() ==> is_ws_char(#[trigger] s[j]),
    ensures
        run_ws(s, i) == s.len() - i,
    decreases s.len() - i,
{
    if i < s.len() {
        lemma_run_ws_covers(s, i + 1);
    }
}

} // verus!
