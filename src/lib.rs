//! A compiler front-end for a small interface-definition language: a lexer,
//! a recursive-descent parser with import resolution, a reference verifier,
//! a canonical formatter and a Markdown documentation renderer.

mod text;

pub mod docs;
pub mod formatter;
pub mod lexer;
pub mod parser;
pub mod schema;
pub mod token;

pub use docs::{generate_docs, generate_summary};
pub use lexer::{tokenise, LexError, Lexer};
pub use parser::{parse, ParseError, Parser, Position, SyntaxKind};
pub use schema::{Endpoint, Field, Location, Object, Schema, Type, UndefinedReference, Wrapping};
pub use token::{Token, TokenContext};
