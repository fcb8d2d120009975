//! Front end and evaluation core of a structured command language: a
//! longest-match tokeniser over a fixed token grammar, a recursive parser
//! built on bracket-balanced region extraction and bracket-aware top-level
//! splitting, and an expression evaluator that reorders by operator
//! precedence and reduces to byte streams, resolving symbols against an
//! environment snapshot.

mod eval;
mod matchers;
mod numbers;
mod parser;
mod proc;
mod scan;
mod syntax_err;
mod tokeniser;

pub use eval::candidate_path;
pub use eval::eval;
pub use eval::pick_candidate;
pub use eval::search_dirs;
pub use eval::ByteStream;
pub use eval::Environment;
pub use matchers::Matcher;
pub use parser::parse;
pub use parser::parse_call;
pub use parser::parse_dict;
pub use parser::parse_expr;
pub use parser::parse_index;
pub use parser::parse_lambda;
pub use parser::ASTNode;
pub use parser::DictKey;
pub use parser::KeyOrNoKey;
pub use parser::LiteralToken;
pub use parser::OpOrExpr;
pub use proc::ProcessOptions;
pub use scan::get_enclosed_tokens;
pub use scan::top_level_split;
pub use scan::Delimiter;
pub use syntax_err::SyntaxError;
pub use tokeniser::tokenise;
pub use tokeniser::BracketType;
pub use tokeniser::KeywordType;
pub use tokeniser::OperatorType;
pub use tokeniser::PipeType;
pub use tokeniser::Token;
pub use tokeniser::TokenType;
