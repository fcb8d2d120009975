use vstd::prelude::*;

use crate::parser::{AstV, ASTNode};

verus! {

/// Every failure the lexer, parser and evaluator can report.  Positions
/// are 1-based line and column numbers.
#[derive(Debug)]
pub enum SyntaxError {
    /// Unbalanced or prematurely closed bracket.
    BracketMismatch(i64, i64),
    /// The lexer found no matching pattern; carries the offending fragment.
    UnexpectedToken(String, i64, i64),
    /// Every grammar rule failed for a span.
    InvalidSyntax(i64, i64),
    /// A rule recognised its shape but the span was too short to be valid.
    UnexpectedEOF(),
    /// The evaluator received a node it has no reduction for.
    UnsupportedExpression(ASTNode),
    /// A symbol resolved to neither an executable nor a variable.
    NoValue(String),
    /// Expression reduction reached an operator with no defined semantics.
    UnsupportedOperator(),
}

/// Mathematical model of a `SyntaxError`.
pub enum ErrV {
    BracketMismatch(int, int),
    UnexpectedToken(Seq<char>, int, int),
    InvalidSyntax(int, int),
    UnexpectedEOF,
    UnsupportedExpression(AstV),
    NoValue(Seq<char>),
    UnsupportedOperator,
}

impl DeepView for SyntaxError {
    type V = ErrV;

    open spec fn deep_view(&self) -> ErrV {
        match self {
            SyntaxError::BracketMismatch(l, c) => ErrV::BracketMismatch(*l as int, *c as int),
            SyntaxError::UnexpectedToken(s, l, c) => ErrV::UnexpectedToken(
                s@,
                *l as int,
                *c as int,
            ),
            SyntaxError::InvalidSyntax(l, c) => ErrV::InvalidSyntax(*l as int, *c as int),
            SyntaxError::UnexpectedEOF() => ErrV::UnexpectedEOF,
            SyntaxError::UnsupportedExpression(n) => ErrV::UnsupportedExpression(n.deep_view()),
            SyntaxError::NoValue(s) => ErrV::NoValue(s@),
            SyntaxError::UnsupportedOperator() => ErrV::UnsupportedOperator,
        }
    }
}

} // verus!
