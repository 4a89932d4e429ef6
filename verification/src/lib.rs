//! The front end of a small statically-typed expression language: the syntax
//! tree, and the parser that builds it from source text.
//!
//! [`Parser::parse_module`] turns a whole source text into a [`Node`]. What
//! it returns for a text is laid down by the rules in [`lexical`] and
//! [`grammar`], which are functions on sequences of characters; [`laws`]
//! holds what follows from them.

pub mod ast;
pub mod chars;
pub mod error;
pub mod grammar;
pub mod laws;
pub mod lexical;
pub mod parser;
pub mod scan;
pub mod text;

pub use ast::{Constness, ExprType, Node, NodeRef, Operator, Tree, TypeTree};
pub use error::{ErrorKind, ParseError, ParseResult};
pub use parser::{Parser, StrFragment};
pub use text::make_static;
