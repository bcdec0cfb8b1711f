//! The Cypher subset: its query tree and its parser.

pub mod ast;
pub mod grammar;
pub mod lexer;
pub mod parse;
pub mod parse_expr;

pub use lexer::ParseError;
pub use parse::{parse_cypher, CypherParser};
