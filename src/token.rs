//! Tokens and their source positions.

use vstd::prelude::*;

use crate::text::{decimal, push_decimal, push_str, string_of};

verus! {

/// One lexical unit of the schema language.
#[derive(Debug, Clone)]
pub enum Token {
    KWVersion,
    KWTitle,
    KWDescription,
    KWObject,
    KWProperty,
    KWRoute,
    KWBody,
    KWResponse,
    KWTag,
    KWParam,
    KWQuery,
    Identifier(String),
    String(String),
    Integer(i64),
    BlockStart,
    BlockEnd,
    ArrayStart,
    ArrayEnd,
    MapStart,
    MapEnd,
    Comma,
    QuestionMark,
    Import,
}

/// The mathematical value of a [`Token`]: text as a sequence of characters.
pub enum TokenView {
    KWVersion,
    KWTitle,
    KWDescription,
    KWObject,
    KWProperty,
    KWRoute,
    KWBody,
    KWResponse,
    KWTag,
    KWParam,
    KWQuery,
    Identifier(Seq<char>),
    String(Seq<char>),
    Integer(i64),
    BlockStart,
    BlockEnd,
    ArrayStart,
    ArrayEnd,
    MapStart,
    MapEnd,
    Comma,
    QuestionMark,
    Import,
}

impl View for Token {
    type V = TokenView;

    open spec fn view(&self) -> TokenView {
        match self {
            Token::KWVersion => TokenView::KWVersion,
            Token::KWTitle => TokenView::KWTitle,
            Token::KWDescription => TokenView::KWDescription,
            Token::KWObject => TokenView::KWObject,
            Token::KWProperty => TokenView::KWProperty,
            Token::KWRoute => TokenView::KWRoute,
            Token::KWBody => TokenView::KWBody,
            Token::KWResponse => TokenView::KWResponse,
            Token::KWTag => TokenView::KWTag,
            Token::KWParam => TokenView::KWParam,
            Token::KWQuery => TokenView::KWQuery,
            Token::Identifier(s) => TokenView::Identifier(s@),
            Token::String(s) => TokenView::String(s@),
            Token::Integer(n) => TokenView::Integer(*n),
            Token::BlockStart => TokenView::BlockStart,
            Token::BlockEnd => TokenView::BlockEnd,
            Token::ArrayStart => TokenView::ArrayStart,
            Token::ArrayEnd => TokenView::ArrayEnd,
            Token::MapStart => TokenView::MapStart,
            Token::MapEnd => TokenView::MapEnd,
            Token::Comma => TokenView::Comma,
            Token::QuestionMark => TokenView::QuestionMark,
            Token::Import => TokenView::Import,
        }
    }
}

/// A token with the 1-based line and column at which the lexer emitted it.
#[derive(Debug, Clone)]
pub struct TokenContext {
    pub token: Token,
    pub line: usize,
    pub column: usize,
}

/// The mathematical value of a [`TokenContext`].
pub struct TokenContextView {
    pub token: TokenView,
    pub line: nat,
    pub column: nat,
}

impl View for TokenContext {
    type V = TokenContextView;

    open spec fn view(&self) -> TokenContextView {
        TokenContextView { token: self.token@, line: self.line as nat, column: self.column as nat }
    }
}

/// The text of an error reported at a given line and column.
pub open spec fn positioned_message(line: nat, column: nat, message: Seq<char>) -> Seq<char> {
    "Error at line "@ + decimal(line) + ", column "@ + decimal(column) + ": "@ + message
}

impl TokenContext {
    /// Renders `message` prefixed with this token's position.
    pub fn error_message(&self, message: &str) -> (r: String)
        ensures
            r@ == positioned_message(self.line as nat, self.column as nat, message@),
    {
        let mut out: Vec<char> = Vec::new();
        push_str(&mut out, "Error at line ");
        push_decimal(&mut out, self.line as u64);
        push_str(&mut out, ", column ");
        push_decimal(&mut out, self.column as u64);
        push_str(&mut out, ": ");
        push_str(&mut out, message);
        string_of(&out)
    }
}

} // verus!
