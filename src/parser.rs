//! The recursive-descent parser and the import resolver.
//!
//! Imports are resolved against a list of sources, pairs of a path and the
//! text found at it, that the caller supplies. An import whose path is not
//! among them fails with [`ParseError::MissingSource`], naming the path, so
//! that a caller that reads files can read it and try again. The paths that
//! imports have visited are kept in one list for the whole parse, so a file
//! imported twice, whether in a cycle or not, fails as a circular import.

use vstd::prelude::*;

use crate::lexer::{lex, tokenise, tokens_view, LexError};
use crate::schema::{
    endpoints_view, fields_view, objects_view, responses_view, string_option_view, strings_view,
    type_option_view, EndpointView, Field,
    FieldView, Object, ObjectView, Endpoint, Schema, SchemaView, Type, TypeView,
};
use crate::text::{push_str, push_string, str_equal, string_of};
use crate::token::{Token, TokenContext, TokenContextView, TokenView};

verus! {

/// A line and a column of the source text.
#[derive(Debug, Clone, Copy, PartialEq, Eq, Structural)]
pub struct Position {
    pub line: usize,
    pub column: usize,
}

/// What the parser expected, or what it met, where it failed.
#[derive(Debug, Clone, Copy, PartialEq, Eq, Structural)]
pub enum SyntaxKind {
    ExpectedIdentifier,
    ExpectedString,
    ExpectedBlockStart,
    ExpectedBlockEnd,
    ExpectedType,
    ExpectedArrayEnd,
    ExpectedComma,
    ExpectedMapEnd,
    DuplicateVersion,
    DuplicateTitle,
    DuplicateDescription,
    ExpectedVersionString,
    ExpectedTitleString,
    ExpectedDescriptionString,
    EndAfterVersion,
    EndAfterTitle,
    EndAfterDescription,
    UnexpectedInObject,
    UnexpectedInRoute,
    ExpectedStatusCode,
    EndAfterResponse,
    ExpectedImportPath,
    UnexpectedTopLevel,
}

/// Why a parse failed.
#[derive(Debug)]
pub enum ParseError {
    /// The text, or an imported text, does not lex.
    Lex(LexError),
    /// The tokens do not follow the grammar; the position is that of the
    /// token at which the parser stood, if it stood at one.
    Syntax { at: Option<Position>, kind: SyntaxKind },
    /// An import names a path that this parse has already visited.
    CircularImport(String),
    /// An import names a path that the sources do not hold.
    MissingSource(String),
}

pub enum ParseErrorView {
    Lex(LexError),
    Syntax { at: Option<Position>, kind: SyntaxKind },
    CircularImport(Seq<char>),
    MissingSource(Seq<char>),
}

impl View for ParseError {
    type V = ParseErrorView;

    open spec fn view(&self) -> ParseErrorView {
        match self {
            ParseError::Lex(e) => ParseErrorView::Lex(*e),
            ParseError::Syntax { at, kind } => ParseErrorView::Syntax { at: *at, kind: *kind },
            ParseError::CircularImport(p) => ParseErrorView::CircularImport(p@),
            ParseError::MissingSource(p) => ParseErrorView::MissingSource(p@),
        }
    }
}

/// The position of the token at index `p`, if there is one.
pub open spec fn position_of(toks: Seq<TokenContextView>, p: nat) -> Option<Position> {
    if p < toks.len() {
        Some(Position { line: toks[p as int].line as usize, column: toks[p as int].column as usize })
    } else {
        None
    }
}

/// A syntax error with the parser at index `p`.
pub open spec fn syntax_at(toks: Seq<TokenContextView>, p: nat, kind: SyntaxKind) -> ParseErrorView {
    ParseErrorView::Syntax { at: position_of(toks, p), kind }
}

/// The type that a single identifier names: a primitive, or a reference.
pub open spec fn named_type(n: Seq<char>) -> TypeView {
    if n == "any"@ {
        TypeView::Any
    } else if n == "null"@ {
        TypeView::Null
    } else if n == "string"@ || n == "str"@ {
        TypeView::String
    } else if n == "integer"@ || n == "int"@ {
        TypeView::Integer
    } else if n == "float"@ {
        TypeView::Float
    } else if n == "boolean"@ || n == "bool"@ {
        TypeView::Boolean
    } else {
        TypeView::Reference(n)
    }
}

/// The type that starts at index `p`, and the index after it.
pub open spec fn type_at(toks: Seq<TokenContextView>, p: nat) -> Result<(TypeView, nat), ParseErrorView>
    decreases toks.len() - p,
{
    if p >= toks.len() {
        Err(syntax_at(toks, p + 1, SyntaxKind::ExpectedType))
    } else {
        match toks[p as int].token {
            TokenView::Identifier(n) => Ok((named_type(n), p + 1)),
            TokenView::ArrayStart => if p + 1 < toks.len() && toks[p + 1 as int].token is ArrayEnd {
                match type_at(toks, p + 2) {
                    Ok((t, q)) => Ok((TypeView::Array(Box::new(t)), q)),
                    Err(e) => Err(e),
                }
            } else {
                Err(syntax_at(toks, p + 1, SyntaxKind::ExpectedArrayEnd))
            },
            TokenView::MapStart => match type_at(toks, p + 1) {
                Err(e) => Err(e),
                Ok((k, q)) => if p < q < toks.len() && toks[q as int].token is Comma {
                    match type_at(toks, q + 1) {
                        Err(e) => Err(e),
                        Ok((v, r)) => if r < toks.len() && toks[r as int].token is MapEnd {
                            Ok((TypeView::Mapping(Box::new(k), Box::new(v)), r + 1))
                        } else {
                            Err(syntax_at(toks, r, SyntaxKind::ExpectedMapEnd))
                        },
                    }
                } else {
                    Err(syntax_at(toks, q, SyntaxKind::ExpectedComma))
                },
            },
            TokenView::QuestionMark => match type_at(toks, p + 1) {
                Ok((t, q)) => Ok((TypeView::Optional(Box::new(t)), q)),
                Err(e) => Err(e),
            },
            _ => Err(syntax_at(toks, p + 1, SyntaxKind::ExpectedType)),
        }
    }
}

/// The identifier at index `p`.
pub open spec fn identifier_at(toks: Seq<TokenContextView>, p: nat) -> Result<Seq<char>, ParseErrorView> {
    if p < toks.len() && toks[p as int].token is Identifier {
        Ok(toks[p as int].token->Identifier_0)
    } else {
        Err(syntax_at(toks, p, SyntaxKind::ExpectedIdentifier))
    }
}

/// The string literal at index `p`.
pub open spec fn string_at(toks: Seq<TokenContextView>, p: nat) -> Result<Seq<char>, ParseErrorView> {
    if p < toks.len() && toks[p as int].token is String {
        Ok(toks[p as int].token->String_0)
    } else {
        Err(syntax_at(toks, p, SyntaxKind::ExpectedString))
    }
}

/// A field from index `p`: a name, a type and a description.
pub open spec fn field_at(toks: Seq<TokenContextView>, p: nat) -> Result<(FieldView, nat), ParseErrorView> {
    match identifier_at(toks, p) {
        Err(e) => Err(e),
        Ok(name) => match type_at(toks, p + 1) {
            Err(e) => Err(e),
            Ok((t, q)) => match string_at(toks, q) {
                Err(e) => Err(e),
                Ok(d) => Ok((FieldView { name, description: d, field_type: t }, q + 1)),
            },
        },
    }
}

/// The fields of an object body from index `p` on, appended to `fields`, and
/// the index after its closing brace. A body that the tokens end in, with
/// no closing brace, is an error.
pub open spec fn object_body(toks: Seq<TokenContextView>, p: nat, fields: Seq<FieldView>) -> Result<
    (Seq<FieldView>, nat),
    ParseErrorView,
>
    decreases toks.len() - p,
{
    if p >= toks.len() {
        Err(syntax_at(toks, p, SyntaxKind::ExpectedBlockEnd))
    } else {
        match toks[p as int].token {
            TokenView::KWProperty => match field_at(toks, p + 1) {
                Err(e) => Err(e),
                Ok((f, q)) => if p < q <= toks.len() {
                    object_body(toks, q, fields.push(f))
                } else {
                    Ok((fields, p))
                },
            },
            TokenView::BlockEnd => Ok((fields, p + 1)),
            _ => Err(syntax_at(toks, p, SyntaxKind::UnexpectedInObject)),
        }
    }
}

/// An object declaration from index `p`, just after the keyword `object`.
pub open spec fn object_at(toks: Seq<TokenContextView>, p: nat) -> Result<(ObjectView, nat), ParseErrorView> {
    match identifier_at(toks, p) {
        Err(e) => Err(e),
        Ok(id) => if p + 1 < toks.len() && toks[p + 1 as int].token is BlockStart {
            match object_body(toks, p + 2, Seq::empty()) {
                Err(e) => Err(e),
                Ok((fields, q)) => Ok((ObjectView { id, fields }, q)),
            }
        } else {
            Err(syntax_at(toks, p + 1, SyntaxKind::ExpectedBlockStart))
        },
    }
}

/// What a route's body has declared so far.
pub struct RouteParts {
    pub description: Option<Seq<char>>,
    pub tags: Seq<Seq<char>>,
    pub params: Seq<FieldView>,
    pub query: Seq<FieldView>,
    pub body: Option<TypeView>,
    pub responses: Seq<(u16, Option<TypeView>)>,
}

pub open spec fn no_route_parts() -> RouteParts {
    RouteParts {
        description: None,
        tags: Seq::empty(),
        params: Seq::empty(),
        query: Seq::empty(),
        body: None,
        responses: Seq::empty(),
    }
}

/// The items of a route body from index `p` on, added to `acc`, and the
/// index after its closing brace, which must be there. After `response`
/// and a status code a type
/// is tried; where none parses, the response has no type and the parser
/// goes on just after the status code.
pub open spec fn route_body(toks: Seq<TokenContextView>, p: nat, acc: RouteParts) -> Result<
    (RouteParts, nat),
    ParseErrorView,
>
    decreases toks.len() - p,
{
    if p >= toks.len() {
        Err(syntax_at(toks, p, SyntaxKind::ExpectedBlockEnd))
    } else {
        match toks[p as int].token {
            TokenView::KWDescription => match string_at(toks, p + 1) {
                Err(e) => Err(e),
                Ok(d) => route_body(toks, p + 2, RouteParts { description: Some(d), ..acc }),
            },
            TokenView::KWTag => match string_at(toks, p + 1) {
                Err(e) => Err(e),
                Ok(t) => route_body(toks, p + 2, RouteParts { tags: acc.tags.push(t), ..acc }),
            },
            TokenView::KWBody => match type_at(toks, p + 1) {
                Err(e) => Err(e),
                Ok((t, q)) => if p < q <= toks.len() {
                    route_body(toks, q, RouteParts { body: Some(t), ..acc })
                } else {
                    Ok((acc, p))
                },
            },
            TokenView::KWParam => match field_at(toks, p + 1) {
                Err(e) => Err(e),
                Ok((f, q)) => if p < q <= toks.len() {
                    route_body(toks, q, RouteParts { params: acc.params.push(f), ..acc })
                } else {
                    Ok((acc, p))
                },
            },
            TokenView::KWQuery => match field_at(toks, p + 1) {
                Err(e) => Err(e),
                Ok((f, q)) => if p < q <= toks.len() {
                    route_body(toks, q, RouteParts { query: acc.query.push(f), ..acc })
                } else {
                    Ok((acc, p))
                },
            },
            TokenView::KWResponse => if p + 1 >= toks.len() {
                Err(syntax_at(toks, p + 1, SyntaxKind::EndAfterResponse))
            } else if toks[p + 1 as int].token is Integer {
                let code = #[verifier::truncate] (toks[p + 1 as int].token->Integer_0 as u16);
                match type_at(toks, p + 2) {
                    Ok((t, q)) => if p < q <= toks.len() {
                        route_body(toks, q, RouteParts { responses: acc.responses.push((code, Some(t))), ..acc })
                    } else {
                        Ok((acc, p))
                    },
                    Err(_) => route_body(
                        toks,
                        p + 2,
                        RouteParts { responses: acc.responses.push((code, None)), ..acc },
                    ),
                }
            } else {
                Err(syntax_at(toks, p + 1, SyntaxKind::ExpectedStatusCode))
            },
            TokenView::BlockEnd => Ok((acc, p + 1)),
            _ => Err(syntax_at(toks, p, SyntaxKind::UnexpectedInRoute)),
        }
    }
}

/// A route declaration from index `p`, just after the keyword `route`: a
/// method, a path and a body. Its id is the method and the path joined by `_`.
pub open spec fn route_at(toks: Seq<TokenContextView>, p: nat) -> Result<(EndpointView, nat), ParseErrorView> {
    match identifier_at(toks, p) {
        Err(e) => Err(e),
        Ok(method) => match string_at(toks, p + 1) {
            Err(e) => Err(e),
            Ok(path) => if p + 2 < toks.len() && toks[p + 2 as int].token is BlockStart {
                match route_body(toks, p + 3, no_route_parts()) {
                    Err(e) => Err(e),
                    Ok((parts, q)) => Ok(
                        (
                            EndpointView {
                                id: method + "_"@ + path,
                                method,
                                path,
                                description: parts.description,
                                tags: parts.tags,
                                params: parts.params,
                                query: parts.query,
                                request_body: parts.body,
                                responses: parts.responses,
                            },
                            q,
                        ),
                    ),
                }
            } else {
                Err(syntax_at(toks, p + 2, SyntaxKind::ExpectedBlockStart))
            },
        },
    }
}

/// The text that the first source with path `path` holds.
pub open spec fn lookup(sources: Seq<(Seq<char>, Seq<char>)>, path: Seq<char>) -> Option<Seq<char>>
    decreases sources.len(),
{
    if sources.len() == 0 {
        None
    } else if sources[0].0 == path {
        Some(sources[0].1)
    } else {
        lookup(sources.drop_first(), path)
    }
}

pub open spec fn empty_schema() -> SchemaView {
    SchemaView { version: None, title: None, description: None, objects: Seq::empty(), endpoints: Seq::empty() }
}

/// The schema that the top-level declarations from index `p` on add to
/// `acc`, with the visited paths after them.
///
/// With `resolve` off an import is read and ignored. With it on, its path
/// must not be visited yet, and must be among `sources`; it is then marked
/// visited, and the objects and endpoints of the text found there are
/// appended. `depth` bounds how deep imports nest; from the number of
/// sources up it never decides the result (`lemma_nesting_bound_never_binds`).
pub open spec fn schema_body(
    toks: Seq<TokenContextView>,
    p: nat,
    acc: SchemaView,
    resolve: bool,
    visited: Seq<Seq<char>>,
    sources: Seq<(Seq<char>, Seq<char>)>,
    depth: nat,
) -> (Result<SchemaView, ParseErrorView>, Seq<Seq<char>>)
    decreases depth, toks.len() - p,
{
    if p >= toks.len() {
        (Ok(acc), visited)
    } else {
        match toks[p as int].token {
            TokenView::Import => match string_at(toks, p + 1) {
                Err(_) => (Err(syntax_at(toks, p + 1, SyntaxKind::ExpectedImportPath)), visited),
                Ok(path) => if !resolve {
                    schema_body(toks, p + 2, acc, resolve, visited, sources, depth)
                } else if visited.contains(path) {
                    (Err(ParseErrorView::CircularImport(path)), visited)
                } else {
                    match lookup(sources, path) {
                        None => (Err(ParseErrorView::MissingSource(path)), visited.push(path)),
                        Some(text) => if depth == 0 {
                            (Err(ParseErrorView::CircularImport(path)), visited.push(path))
                        } else {
                            match lex(text) {
                                Err(e) => (Err(ParseErrorView::Lex(e)), visited.push(path)),
                                Ok(inner) => {
                                    let (r, v) = schema_body(
                                        inner,
                                        0,
                                        empty_schema(),
                                        true,
                                        visited.push(path),
                                        sources,
                                        (depth - 1) as nat,
                                    );
                                    match r {
                                        Err(e) => (Err(e), v),
                                        Ok(imported) => schema_body(
                                            toks,
                                            p + 2,
                                            SchemaView {
                                                objects: acc.objects + imported.objects,
                                                endpoints: acc.endpoints + imported.endpoints,
                                                ..acc
                                            },
                                            resolve,
                                            v,
                                            sources,
                                            depth,
                                        ),
                                    }
                                },
                            }
                        },
                    }
                },
            },
            TokenView::KWVersion => if acc.version is Some {
                (Err(syntax_at(toks, p, SyntaxKind::DuplicateVersion)), visited)
            } else if p + 1 >= toks.len() {
                (Err(syntax_at(toks, p + 1, SyntaxKind::EndAfterVersion)), visited)
            } else if toks[p + 1 as int].token is String {
                schema_body(
                    toks,
                    p + 2,
                    SchemaView { version: Some(toks[p + 1 as int].token->String_0), ..acc },
                    resolve,
                    visited,
                    sources,
                    depth,
                )
            } else {
                (Err(syntax_at(toks, p + 1, SyntaxKind::ExpectedVersionString)), visited)
            },
            TokenView::KWTitle => if acc.title is Some {
                (Err(syntax_at(toks, p, SyntaxKind::DuplicateTitle)), visited)
            } else if p + 1 >= toks.len() {
                (Err(syntax_at(toks, p + 1, SyntaxKind::EndAfterTitle)), visited)
            } else if toks[p + 1 as int].token is String {
                schema_body(
                    toks,
                    p + 2,
                    SchemaView { title: Some(toks[p + 1 as int].token->String_0), ..acc },
                    resolve,
                    visited,
                    sources,
                    depth,
                )
            } else {
                (Err(syntax_at(toks, p + 1, SyntaxKind::ExpectedTitleString)), visited)
            },
            TokenView::KWDescription => if acc.description is Some {
                (Err(syntax_at(toks, p, SyntaxKind::DuplicateDescription)), visited)
            } else if p + 1 >= toks.len() {
                (Err(syntax_at(toks, p + 1, SyntaxKind::EndAfterDescription)), visited)
            } else if toks[p + 1 as int].token is String {
                schema_body(
                    toks,
                    p + 2,
                    SchemaView { description: Some(toks[p + 1 as int].token->String_0), ..acc },
                    resolve,
                    visited,
                    sources,
                    depth,
                )
            } else {
                (Err(syntax_at(toks, p + 1, SyntaxKind::ExpectedDescriptionString)), visited)
            },
            TokenView::KWObject => match object_at(toks, p + 1) {
                Err(e) => (Err(e), visited),
                Ok((o, q)) => if p < q <= toks.len() {
                    schema_body(
                        toks,
                        q,
                        SchemaView { objects: acc.objects.push(o), ..acc },
                        resolve,
                        visited,
                        sources,
                        depth,
                    )
                } else {
                    (Ok(acc), visited)
                },
            },
            TokenView::KWRoute => match route_at(toks, p + 1) {
                Err(e) => (Err(e), visited),
                Ok((r, q)) => if p < q <= toks.len() {
                    schema_body(
                        toks,
                        q,
                        SchemaView { endpoints: acc.endpoints.push(r), ..acc },
                        resolve,
                        visited,
                        sources,
                        depth,
                    )
                } else {
                    (Ok(acc), visited)
                },
            },
            _ => (Err(syntax_at(toks, p, SyntaxKind::UnexpectedTopLevel)), visited),
        }
    }
}

/// The schema of a whole text, with the visited paths after it. Imports
/// are given a nesting bound of the number of sources, which no chain of
/// distinct paths can exceed.
pub open spec fn parse_text(
    text: Seq<char>,
    resolve: bool,
    visited: Seq<Seq<char>>,
    sources: Seq<(Seq<char>, Seq<char>)>,
) -> (Result<SchemaView, ParseErrorView>, Seq<Seq<char>>) {
    match lex(text) {
        Err(e) => (Err(ParseErrorView::Lex(e)), visited),
        Ok(toks) => schema_body(toks, 0, empty_schema(), resolve, visited, sources, sources.len()),
    }
}

pub open spec fn sources_view(v: Seq<(String, String)>) -> Seq<(Seq<char>, Seq<char>)> {
    v.map_values(|s: (String, String)| (s.0@, s.1@))
}

/// Every source text is short enough for the lexer's counters.
pub open spec fn sources_fit(sources: Seq<(String, String)>) -> bool {
    forall|i: int| 0 <= i < sources.len() ==> (#[trigger] sources[i]).1@.len() < usize::MAX
}

pub open spec fn schema_result_view(r: Result<Schema, ParseError>) -> Result<SchemaView, ParseErrorView> {
    match r {
        Ok(s) => Ok(s@),
        Err(e) => Err(e@),
    }
}

/// The type that a single identifier names.
fn type_named(n: &String) -> (r: Type)
    ensures
        r@ == named_type(n@),
{
    let s = n.as_str();
    if str_equal(s, "any") {
        Type::Any
    } else if str_equal(s, "null") {
        Type::Null
    } else if str_equal(s, "string") || str_equal(s, "str") {
        Type::String
    } else if str_equal(s, "integer") || str_equal(s, "int") {
        Type::Integer
    } else if str_equal(s, "float") {
        Type::Float
    } else if str_equal(s, "boolean") || str_equal(s, "bool") {
        Type::Boolean
    } else {
        Type::Reference(n.clone())
    }
}

/// A recursive-descent parser over one token sequence.
pub struct Parser {
    tokens: Vec<TokenContext>,
    position: usize,
}

/// The mathematical value of a [`Parser`].
pub struct ParserView {
    pub tokens: Seq<TokenContextView>,
    pub position: nat,
}

impl View for Parser {
    type V = ParserView;

    closed spec fn view(&self) -> ParserView {
        ParserView { tokens: tokens_view(self.tokens@), position: self.position as nat }
    }
}

impl Parser {
    /// The parser's invariant: its position lies within the tokens.
    pub closed spec fn wf(&self) -> bool {
        self.position <= self.tokens@.len()
    }

    /// A parser at the first of `tokens`.
    pub fn new(tokens: Vec<TokenContext>) -> (r: Parser)
        ensures
            r.wf(),
            r@ == (ParserView { tokens: tokens_view(tokens@), position: 0 }),
    {
        Parser { tokens, position: 0 }
    }

    /// A syntax error with the parser at index `p`.
    fn error_message(&self, p: usize, kind: SyntaxKind) -> (e: ParseError)
        ensures
            e@ == syntax_at(self@.tokens, p as nat, kind),
    {
        if p < self.tokens.len() {
            let t = &self.tokens[p];
            ParseError::Syntax { at: Some(Position { line: t.line, column: t.column }), kind }
        } else {
            ParseError::Syntax { at: None, kind }
        }
    }

    fn expect_identifier(&mut self) -> (r: Result<String, ParseError>)
        requires
            old(self).wf(),
        ensures
            final(self).wf(),
            final(self)@.tokens == old(self)@.tokens,
            match identifier_at(old(self)@.tokens, old(self)@.position) {
                Ok(n) => r matches Ok(s) && s@ == n && final(self)@.position == old(self)@.position + 1,
                Err(e) => r matches Err(x) && x@ == e,
            },
    {
        let p = self.position;
        if p < self.tokens.len() {
            if let Token::Identifier(name) = &self.tokens[p].token {
                let name = name.clone();
                self.position = p + 1;
                return Ok(name);
            }
        }
        Err(self.error_message(p, SyntaxKind::ExpectedIdentifier))
    }

    fn expect_string(&mut self) -> (r: Result<String, ParseError>)
        requires
            old(self).wf(),
        ensures
            final(self).wf(),
            final(self)@.tokens == old(self)@.tokens,
            match string_at(old(self)@.tokens, old(self)@.position) {
                Ok(v) => r matches Ok(s) && s@ == v && final(self)@.position == old(self)@.position + 1,
                Err(e) => r matches Err(x) && x@ == e,
            },
    {
        let p = self.position;
        if p < self.tokens.len() {
            if let Token::String(value) = &self.tokens[p].token {
                let value = value.clone();
                self.position = p + 1;
                return Ok(value);
            }
        }
        Err(self.error_message(p, SyntaxKind::ExpectedString))
    }

    /// Parses a type.
    fn expect_type(&mut self) -> (r: Result<Type, ParseError>)
        requires
            old(self).wf(),
        ensures
            final(self)@.tokens == old(self)@.tokens,
            r is Ok ==> final(self).wf() && old(self)@.position < final(self)@.position,
            match type_at(old(self)@.tokens, old(self)@.position) {
                Ok((t, q)) => r matches Ok(x) && x@ == t && final(self)@.position == q,
                Err(e) => r matches Err(x) && x@ == e,
            },
        decreases self.tokens@.len() - self.position,
    {
        let ghost toks = self@.tokens;
        let p = self.position;
        let n = self.tokens.len();
        if p >= n {
            return Err(ParseError::Syntax { at: None, kind: SyntaxKind::ExpectedType });
        }
        self.position = p + 1;
        let kind: u8 = match &self.tokens[p].token {
            Token::Identifier(name) => {
                return Ok(type_named(name));
            },
            Token::ArrayStart => 0,
            Token::MapStart => 1,
            Token::QuestionMark => 2,
            _ => 3,
        };
        if kind == 0 {
            if p + 1 < n && matches!(self.tokens[p + 1].token, Token::ArrayEnd) {
                self.position = p + 2;
                let item = match self.expect_type() {
                    Ok(t) => t,
                    Err(e) => return Err(e),
                };
                Ok(Type::Array(Box::new(item)))
            } else {
                Err(self.error_message(p + 1, SyntaxKind::ExpectedArrayEnd))
            }
        } else if kind == 1 {
            let key = match self.expect_type() {
                Ok(t) => t,
                Err(e) => return Err(e),
            };
            let q = self.position;
            if q < n && matches!(self.tokens[q].token, Token::Comma) {
                self.position = q + 1;
                let value = match self.expect_type() {
                    Ok(t) => t,
                    Err(e) => return Err(e),
                };
                let r = self.position;
                if r < n && matches!(self.tokens[r].token, Token::MapEnd) {
                    self.position = r + 1;
                    Ok(Type::Mapping(Box::new(key), Box::new(value)))
                } else {
                    Err(self.error_message(r, SyntaxKind::ExpectedMapEnd))
                }
            } else {
                Err(self.error_message(q, SyntaxKind::ExpectedComma))
            }
        } else if kind == 2 {
            let inner = match self.expect_type() {
                Ok(t) => t,
                Err(e) => return Err(e),
            };
            Ok(Type::Optional(Box::new(inner)))
        } else {
            Err(self.error_message(p + 1, SyntaxKind::ExpectedType))
        }
    }

    fn expect_property(&mut self) -> (r: Result<Field, ParseError>)
        requires
            old(self).wf(),
        ensures
            final(self)@.tokens == old(self)@.tokens,
            r is Ok ==> final(self).wf() && old(self)@.position < final(self)@.position,
            match field_at(old(self)@.tokens, old(self)@.position) {
                Ok((f, q)) => r matches Ok(x) && x@ == f && final(self)@.position == q,
                Err(e) => r matches Err(x) && x@ == e,
            },
    {
        let name = match self.expect_identifier() {
            Ok(n) => n,
            Err(e) => return Err(e),
        };
        let field_type = match self.expect_type() {
            Ok(t) => t,
            Err(e) => return Err(e),
        };
        let description = match self.expect_string() {
            Ok(d) => d,
            Err(e) => return Err(e),
        };
        Ok(Field { name, description, field_type })
    }

    /// Parses an object declaration, the keyword `object` already read.
    fn parse_object(&mut self) -> (r: Result<Object, ParseError>)
        requires
            old(self).wf(),
        ensures
            final(self)@.tokens == old(self)@.tokens,
            r is Ok ==> final(self).wf() && old(self)@.position < final(self)@.position,
            match object_at(old(self)@.tokens, old(self)@.position) {
                Ok((o, q)) => r matches Ok(x) && x@ == o && final(self)@.position == q,
                Err(e) => r matches Err(x) && x@ == e,
            },
    {
        let ghost toks = self@.tokens;
        let ghost p0 = self@.position;
        let id = match self.expect_identifier() {
            Ok(n) => n,
            Err(e) => return Err(e),
        };
        let b = self.position;
        if !(b < self.tokens.len() && matches!(self.tokens[b].token, Token::BlockStart)) {
            return Err(self.error_message(b, SyntaxKind::ExpectedBlockStart));
        }
        self.position = b + 1;
        let mut fields: Vec<Field> = Vec::new();
        assert(fields_view(fields@) =~= Seq::<FieldView>::empty());
        while self.position < self.tokens.len()
            invariant
                self.wf(),
                self@.tokens == toks,
                toks == old(self)@.tokens,
                p0 == old(self)@.position,
                p0 < self@.position,
                object_at(toks, p0) == match object_body(toks, self@.position, fields_view(fields@)) {
                    Err(e) => Err(e),
                    Ok((fs, q)) => Ok((ObjectView { id: id@, fields: fs }, q)),
                },
            decreases toks.len() - self@.position,
        {
            let p = self.position;
            let kind: u8 = match &self.tokens[p].token {
                Token::KWProperty => 0,
                Token::BlockEnd => 1,
                _ => 2,
            };
            if kind == 0 {
                self.position = p + 1;
                let field = match self.expect_property() {
                    Ok(f) => f,
                    Err(e) => return Err(e),
                };
                let ghost prev = fields_view(fields@);
                fields.push(field);
                assert(fields_view(fields@) =~= prev.push(field@));
            } else if kind == 1 {
                self.position = p + 1;
                return Ok(Object { id, fields });
            } else {
                return Err(self.error_message(p, SyntaxKind::UnexpectedInObject));
            }
        }
        Err(ParseError::Syntax { at: None, kind: SyntaxKind::ExpectedBlockEnd })
    }

    /// Parses a route declaration, the keyword `route` already read.
    fn parse_route(&mut self) -> (r: Result<Endpoint, ParseError>)
        requires
            old(self).wf(),
        ensures
            final(self)@.tokens == old(self)@.tokens,
            r is Ok ==> final(self).wf() && old(self)@.position < final(self)@.position,
            match route_at(old(self)@.tokens, old(self)@.position) {
                Ok((e, q)) => r matches Ok(x) && x@ == e && final(self)@.position == q,
                Err(e) => r matches Err(x) && x@ == e,
            },
    {
        let ghost toks = self@.tokens;
        let ghost p0 = self@.position;
        let method = match self.expect_identifier() {
            Ok(n) => n,
            Err(e) => return Err(e),
        };
        let path = match self.expect_string() {
            Ok(s) => s,
            Err(e) => return Err(e),
        };
        let b = self.position;
        if !(b < self.tokens.len() && matches!(self.tokens[b].token, Token::BlockStart)) {
            return Err(self.error_message(b, SyntaxKind::ExpectedBlockStart));
        }
        self.position = b + 1;
        let mut description: Option<String> = None;
        let mut tags: Vec<String> = Vec::new();
        let mut params: Vec<Field> = Vec::new();
        let mut query: Vec<Field> = Vec::new();
        let mut body: Option<Type> = None;
        let mut responses: Vec<(u16, Option<Type>)> = Vec::new();
        let mut id_chars: Vec<char> = Vec::new();
        push_string(&mut id_chars, &method);
        push_str(&mut id_chars, "_");
        push_string(&mut id_chars, &path);
        let id = string_of(&id_chars);
        assert(strings_view(tags@) =~= Seq::<Seq<char>>::empty());
        assert(fields_view(params@) =~= Seq::<FieldView>::empty());
        assert(fields_view(query@) =~= Seq::<FieldView>::empty());
        assert(responses_view(responses@) =~= Seq::<(u16, Option<TypeView>)>::empty());
        while self.position < self.tokens.len()
            invariant
                self.wf(),
                self@.tokens == toks,
                toks == old(self)@.tokens,
                p0 == old(self)@.position,
                p0 < self@.position,
                id@ == method@ + "_"@ + path@,
                route_at(toks, p0) == match route_body(
                    toks,
                    self@.position,
                    RouteParts {
                        description: string_option_view(description),
                        tags: strings_view(tags@),
                        params: fields_view(params@),
                        query: fields_view(query@),
                        body: type_option_view(body),
                        responses: responses_view(responses@),
                    },
                ) {
                    Err(e) => Err(e),
                    Ok((parts, q)) => Ok(
                        (
                            EndpointView {
                                id: method@ + "_"@ + path@,
                                method: method@,
                                path: path@,
                                description: parts.description,
                                tags: parts.tags,
                                params: parts.params,
                                query: parts.query,
                                request_body: parts.body,
                                responses: parts.responses,
                            },
                            q,
                        ),
                    ),
                },
            decreases toks.len() - self@.position,
        {
            let p = self.position;
            let kind: u8 = match &self.tokens[p].token {
                Token::KWDescription => 0,
                Token::KWTag => 1,
                Token::KWBody => 2,
                Token::KWParam => 3,
                Token::KWQuery => 4,
                Token::KWResponse => 5,
                Token::BlockEnd => 6,
                _ => 7,
            };
            if kind == 0 {
                self.position = p + 1;
                let d = match self.expect_string() {
                    Ok(d) => d,
                    Err(e) => return Err(e),
                };
                description = Some(d);
            } else if kind == 1 {
                self.position = p + 1;
                let t = match self.expect_string() {
                    Ok(t) => t,
                    Err(e) => return Err(e),
                };
                let ghost prev = strings_view(tags@);
                tags.push(t);
                assert(strings_view(tags@) =~= prev.push(t@));
            } else if kind == 2 {
                self.position = p + 1;
                let t = match self.expect_type() {
                    Ok(t) => t,
                    Err(e) => return Err(e),
                };
                body = Some(t);
            } else if kind == 3 {
                self.position = p + 1;
                let f = match self.expect_property() {
                    Ok(f) => f,
                    Err(e) => return Err(e),
                };
                let ghost prev = fields_view(params@);
                params.push(f);
                assert(fields_view(params@) =~= prev.push(f@));
            } else if kind == 4 {
                self.position = p + 1;
                let f = match self.expect_property() {
                    Ok(f) => f,
                    Err(e) => return Err(e),
                };
                let ghost prev = fields_view(query@);
                query.push(f);
                assert(fields_view(query@) =~= prev.push(f@));
            } else if kind == 5 {
                if p + 1 >= self.tokens.len() {
                    return Err(ParseError::Syntax { at: None, kind: SyntaxKind::EndAfterResponse });
                }
                let code: i64 = match &self.tokens[p + 1].token {
                    Token::Integer(c) => *c,
                    _ => {
                        return Err(self.error_message(p + 1, SyntaxKind::ExpectedStatusCode));
                    },
                };
                let status = #[verifier::truncate] (code as u16);
                self.position = p + 2;
                let ghost prev = responses_view(responses@);
                match self.expect_type() {
                    Ok(t) => {
                        let ghost tv = t@;
                        responses.push((status, Some(t)));
                        assert(responses_view(responses@) =~= prev.push((status, Some(tv))));
                    },
                    Err(_) => {
                        self.position = p + 2;
                        responses.push((status, None));
                        assert(responses_view(responses@) =~= prev.push((status, None)));
                    },
                }
            } else if kind == 6 {
                self.position = p + 1;
                return Ok(Endpoint { id, method, path, description, tags, params, query, request_body: body, responses });
            } else {
                return Err(self.error_message(p, SyntaxKind::UnexpectedInRoute));
            }
        }
        Err(ParseError::Syntax { at: None, kind: SyntaxKind::ExpectedBlockEnd })
    }

    /// Parses top-level declarations to the end of the tokens, adding them
    /// to `schema`.
    fn parse_items(
        &mut self,
        resolve: bool,
        visited: &mut Vec<String>,
        sources: &Vec<(String, String)>,
        depth: usize,
    ) -> (r: Result<Schema, ParseError>)
        requires
            old(self).wf(),
            sources_fit(sources@),
        ensures
            (schema_result_view(r), strings_view(final(visited)@)) == schema_body(
                old(self)@.tokens,
                old(self)@.position,
                empty_schema(),
                resolve,
                strings_view(old(visited)@),
                sources_view(sources@),
                depth as nat,
            ),
        decreases depth, 0nat,
    {
        let ghost toks = self@.tokens;
        let ghost p0 = self@.position;
        let ghost vis0 = strings_view(visited@);
        let ghost srcs = sources_view(sources@);
        let mut schema = Schema::new();
        while self.position < self.tokens.len()
            invariant
                self.wf(),
                self@.tokens == toks,
                toks == old(self)@.tokens,
                p0 == old(self)@.position,
                vis0 == strings_view(old(visited)@),
                srcs == sources_view(sources@),
                sources_fit(sources@),
                schema_body(toks, p0, empty_schema(), resolve, vis0, srcs, depth as nat) == schema_body(
                    toks,
                    self@.position,
                    schema@,
                    resolve,
                    strings_view(visited@),
                    srcs,
                    depth as nat,
                ),
            decreases toks.len() - self@.position,
        {
            let p = self.position;
            let n = self.tokens.len();
            let kind: u8 = match &self.tokens[p].token {
                Token::Import => 0,
                Token::KWVersion => 1,
                Token::KWTitle => 2,
                Token::KWDescription => 3,
                Token::KWObject => 4,
                Token::KWRoute => 5,
                _ => 6,
            };
            if kind == 0 {
                if p + 1 >= n {
                    return Err(ParseError::Syntax { at: None, kind: SyntaxKind::ExpectedImportPath });
                }
                let path: String = match &self.tokens[p + 1].token {
                    Token::String(v) => v.clone(),
                    _ => {
                        return Err(self.error_message(p + 1, SyntaxKind::ExpectedImportPath));
                    },
                };
                self.position = p + 2;
                if resolve {
                    if is_visited(visited, &path) {
                        return Err(ParseError::CircularImport(path));
                    }
                    let ghost before = strings_view(visited@);
                    visited.push(path.clone());
                    assert(strings_view(visited@) =~= before.push(path@));
                    let found = find_source(sources, &path);
                    match found {
                        None => {
                            return Err(ParseError::MissingSource(path));
                        },
                        Some(i) => {
                            if depth == 0 {
                                return Err(ParseError::CircularImport(path));
                            }
                            let mut imported = match parse_source(&sources[i].1, visited, sources, depth - 1) {
                                Ok(s) => s,
                                Err(e) => {
                                    return Err(e);
                                },
                            };
                            let ghost prev = schema@;
                            let ghost inner = imported@;
                            schema.objects.append(&mut imported.objects);
                            schema.endpoints.append(&mut imported.endpoints);
                            assert(schema@.objects =~= prev.objects + inner.objects);
                            assert(schema@.endpoints =~= prev.endpoints + inner.endpoints);
                        },
                    }
                }
            } else if kind == 1 {
                if schema.version.is_some() {
                    return Err(self.error_message(p, SyntaxKind::DuplicateVersion));
                }
                if p + 1 >= n {
                    return Err(ParseError::Syntax { at: None, kind: SyntaxKind::EndAfterVersion });
                }
                let v: String = match &self.tokens[p + 1].token {
                    Token::String(v) => v.clone(),
                    _ => {
                        return Err(self.error_message(p + 1, SyntaxKind::ExpectedVersionString));
                    },
                };
                schema.version = Some(v);
                self.position = p + 2;
            } else if kind == 2 {
                if schema.title.is_some() {
                    return Err(self.error_message(p, SyntaxKind::DuplicateTitle));
                }
                if p + 1 >= n {
                    return Err(ParseError::Syntax { at: None, kind: SyntaxKind::EndAfterTitle });
                }
                let v: String = match &self.tokens[p + 1].token {
                    Token::String(v) => v.clone(),
                    _ => {
                        return Err(self.error_message(p + 1, SyntaxKind::ExpectedTitleString));
                    },
                };
                schema.title = Some(v);
                self.position = p + 2;
            } else if kind == 3 {
                if schema.description.is_some() {
                    return Err(self.error_message(p, SyntaxKind::DuplicateDescription));
                }
                if p + 1 >= n {
                    return Err(ParseError::Syntax { at: None, kind: SyntaxKind::EndAfterDescription });
                }
                let v: String = match &self.tokens[p + 1].token {
                    Token::String(v) => v.clone(),
                    _ => {
                        return Err(self.error_message(p + 1, SyntaxKind::ExpectedDescriptionString));
                    },
                };
                schema.description = Some(v);
                self.position = p + 2;
            } else if kind == 4 {
                self.position = p + 1;
                let o = match self.parse_object() {
                    Ok(o) => o,
                    Err(e) => {
                        return Err(e);
                    },
                };
                let ghost prev = schema@.objects;
                schema.objects.push(o);
                assert(schema@.objects =~= prev.push(o@));
            } else if kind == 5 {
                self.position = p + 1;
                let e = match self.parse_route() {
                    Ok(e) => e,
                    Err(e) => {
                        return Err(e);
                    },
                };
                let ghost prev = schema@.endpoints;
                schema.endpoints.push(e);
                assert(schema@.endpoints =~= prev.push(e@));
            } else {
                return Err(self.error_message(p, SyntaxKind::UnexpectedTopLevel));
            }
        }
        Ok(schema)
    }

    /// Parses the whole token sequence from the current position. Imports
    /// may nest as deep as there are sources; `visited` is shared by all of them.
    pub fn parse(&mut self, resolve: bool, visited: &mut Vec<String>, sources: &Vec<(String, String)>) -> (r: Result<
        Schema,
        ParseError,
    >)
        requires
            old(self).wf(),
            sources_fit(sources@),
        ensures
            (schema_result_view(r), strings_view(final(visited)@)) == schema_body(
                old(self)@.tokens,
                old(self)@.position,
                empty_schema(),
                resolve,
                strings_view(old(visited)@),
                sources_view(sources@),
                sources@.len(),
            ),
    {
        self.parse_items(resolve, visited, sources, sources.len())
    }
}

/// Whether `visited` holds `path`.
fn is_visited(visited: &Vec<String>, path: &String) -> (r: bool)
    ensures
        r == strings_view(visited@).contains(path@),
{
    let mut i: usize = 0;
    while i < visited.len()
        invariant
            i <= visited@.len(),
            forall|j: int| 0 <= j < i ==> visited@[j]@ != path@,
        decreases visited@.len() - i,
    {
        if visited[i] == *path {
            assert(strings_view(visited@)[i as int] == path@);
            return true;
        }
        i = i + 1;
    }
    assert forall|j: int| 0 <= j < strings_view(visited@).len() implies strings_view(visited@)[j] != path@ by {
        assert(strings_view(visited@)[j] == visited@[j]@);
    }
    false
}

/// The index of the first source with path `path`.
fn find_source(sources: &Vec<(String, String)>, path: &String) -> (r: Option<usize>)
    ensures
        match lookup(sources_view(sources@), path@) {
            Some(t) => r matches Some(i) && i < sources@.len() && sources@[i as int].1@ == t,
            None => r is None,
        },
{
    let ghost srcs = sources_view(sources@);
    let mut i: usize = 0;
    assert(srcs.subrange(0, srcs.len() as int) == srcs);
    while i < sources.len()
        invariant
            srcs == sources_view(sources@),
            i <= sources@.len(),
            lookup(srcs, path@) == lookup(srcs.subrange(i as int, srcs.len() as int), path@),
        decreases sources@.len() - i,
    {
        let ghost rest = srcs.subrange(i as int, srcs.len() as int);
        assert(rest[0] == (sources@[i as int].0@, sources@[i as int].1@));
        assert(rest.drop_first() == srcs.subrange(i + 1, srcs.len() as int));
        if sources[i].0 == *path {
            return Some(i);
        }
        i = i + 1;
    }
    None
}

/// Lexes and parses an imported text, with imports followed.
fn parse_source(text: &String, visited: &mut Vec<String>, sources: &Vec<(String, String)>, depth: usize) -> (r: Result<
    Schema,
    ParseError,
>)
    requires
        text@.len() < usize::MAX,
        sources_fit(sources@),
    ensures
        (schema_result_view(r), strings_view(final(visited)@)) == match lex(text@) {
            Err(e) => (Err(ParseErrorView::Lex(e)), strings_view(old(visited)@)),
            Ok(toks) => schema_body(
                toks,
                0,
                empty_schema(),
                true,
                strings_view(old(visited)@),
                sources_view(sources@),
                depth as nat,
            ),
        },
    decreases depth, 1nat,
{
    let tokens = match tokenise(text.as_str()) {
        Ok(t) => t,
        Err(e) => {
            return Err(ParseError::Lex(e));
        },
    };
    let mut parser = Parser::new(tokens);
    parser.parse_items(true, visited, sources, depth)
}

/// Parses a schema text. With `resolve` on, imports are looked up in
/// `sources`; with it off they are read and ignored.
pub fn parse(input: &str, resolve: bool, sources: &Vec<(String, String)>) -> (r: Result<Schema, ParseError>)
    requires
        input@.len() < usize::MAX,
        sources_fit(sources@),
    ensures
        schema_result_view(r) == parse_text(input@, resolve, Seq::empty(), sources_view(sources@)).0,
{
    let tokens = match tokenise(input) {
        Ok(t) => t,
        Err(e) => {
            return Err(ParseError::Lex(e));
        },
    };
    let mut parser = Parser::new(tokens);
    let mut visited: Vec<String> = Vec::new();
    assert(strings_view(visited@) =~= Seq::<Seq<char>>::empty());
    parser.parse(resolve, &mut visited, sources)
}

/// The tokens that spell a type in the grammar, primitives by their full names.
pub open spec fn type_tokens(t: TypeView) -> Seq<TokenView>
    decreases t,
{
    match t {
        TypeView::Any => seq![TokenView::Identifier("any"@)],
        TypeView::Null => seq![TokenView::Identifier("null"@)],
        TypeView::String => seq![TokenView::Identifier("string"@)],
        TypeView::Integer => seq![TokenView::Identifier("integer"@)],
        TypeView::Float => seq![TokenView::Identifier("float"@)],
        TypeView::Boolean => seq![TokenView::Identifier("boolean"@)],
        TypeView::Reference(n) => seq![TokenView::Identifier(n)],
        TypeView::Array(item) => seq![TokenView::ArrayStart, TokenView::ArrayEnd] + type_tokens(*item),
        TypeView::Mapping(k, v) => seq![TokenView::MapStart] + type_tokens(*k) + seq![TokenView::Comma]
            + type_tokens(*v) + seq![TokenView::MapEnd],
        TypeView::Optional(inner) => seq![TokenView::QuestionMark] + type_tokens(*inner),
    }
}

/// Whether every reference in `t` names something other than a primitive.
pub open spec fn references_plain(t: TypeView) -> bool
    decreases t,
{
    match t {
        TypeView::Reference(n) => named_type(n) == TypeView::Reference(n),
        TypeView::Array(item) => references_plain(*item),
        TypeView::Mapping(k, v) => references_plain(*k) && references_plain(*v),
        TypeView::Optional(inner) => references_plain(*inner),
        _ => true,
    }
}

/// Whether the tokens from index `p` on begin with `want`.
pub open spec fn tokens_at(toks: Seq<TokenContextView>, p: nat, want: Seq<TokenView>) -> bool {
    &&& p + want.len() <= toks.len()
    &&& forall|i: int| 0 <= i < want.len() ==> #[trigger] toks[p + i].token == want[i]
}

proof fn lemma_tokens_at_split(toks: Seq<TokenContextView>, p: nat, a: Seq<TokenView>, b: Seq<TokenView>)
    requires
        tokens_at(toks, p, a + b),
    ensures
        tokens_at(toks, p, a),
        tokens_at(toks, p + a.len(), b),
{
    assert forall|i: int| 0 <= i < a.len() implies #[trigger] toks[p + i].token == a[i] by {
        assert((a + b)[i] == a[i]);
    }
    assert forall|i: int| 0 <= i < b.len() implies #[trigger] toks[(p + a.len()) + i].token == b[i] by {
        assert((a + b)[a.len() + i] == b[i]);
        assert(toks[p + (a.len() + i)].token == (a + b)[a.len() + i]);
    }
}

/// The parser reads a type back from the tokens that spell it, whatever
/// follows them, as long as no reference is spelled like a primitive.
pub proof fn lemma_type_tokens_round_trip(toks: Seq<TokenContextView>, p: nat, t: TypeView)
    requires
        references_plain(t),
        tokens_at(toks, p, type_tokens(t)),
    ensures
        type_at(toks, p) == Ok::<(TypeView, nat), ParseErrorView>((t, p + type_tokens(t).len())),
    decreases t,
{
    reveal_strlit("any");
    reveal_strlit("null");
    reveal_strlit("string");
    reveal_strlit("str");
    reveal_strlit("integer");
    reveal_strlit("int");
    reveal_strlit("float");
    reveal_strlit("boolean");
    reveal_strlit("bool");
    assert(toks[p as int + 0].token == type_tokens(t)[0]);
    match t {
        TypeView::Array(item) => {
            let head = seq![TokenView::ArrayStart, TokenView::ArrayEnd];
            lemma_tokens_at_split(toks, p, head, type_tokens(*item));
            assert(toks[p as int + 1].token == head[1]);
            lemma_type_tokens_round_trip(toks, p + 2, *item);
            assert(type_tokens(t).len() == 2 + type_tokens(*item).len());
        },
        TypeView::Mapping(k, v) => {
            let open = seq![TokenView::MapStart];
            let comma = seq![TokenView::Comma];
            let close = seq![TokenView::MapEnd];
            let all = open + type_tokens(*k) + comma + type_tokens(*v) + close;
            lemma_tokens_at_split(toks, p, open + type_tokens(*k) + comma + type_tokens(*v), close);
            lemma_tokens_at_split(toks, p, open + type_tokens(*k) + comma, type_tokens(*v));
            lemma_tokens_at_split(toks, p, open + type_tokens(*k), comma);
            lemma_tokens_at_split(toks, p, open, type_tokens(*k));
            lemma_type_tokens_round_trip(toks, p + 1, *k);
            let q = p + 1 + type_tokens(*k).len();
            assert(toks[q as int + 0].token == comma[0]);
            lemma_type_tokens_round_trip(toks, q + 1, *v);
            let r = q + 1 + type_tokens(*v).len();
            assert(toks[r as int + 0].token == close[0]);
            assert(type_tokens(t) == all);
            assert(type_tokens(t).len() == r + 1 - p);
        },
        TypeView::Optional(inner) => {
            lemma_tokens_at_split(toks, p, seq![TokenView::QuestionMark], type_tokens(*inner));
            lemma_type_tokens_round_trip(toks, p + 1, *inner);
            assert(type_tokens(t).len() == 1 + type_tokens(*inner).len());
        },
        TypeView::Any => assert(named_type("any"@) == TypeView::Any),
        TypeView::Null => {
            assert("null"@.len() != "any"@.len());
        },
        TypeView::String => {
            assert("string"@.len() != "any"@.len() && "string"@.len() != "null"@.len());
        },
        TypeView::Integer => {
            assert("integer"@.len() != "any"@.len() && "integer"@.len() != "null"@.len());
            assert("integer"@.len() != "string"@.len() && "integer"@.len() != "str"@.len());
        },
        TypeView::Float => {
            assert("float"@.len() != "any"@.len() && "float"@.len() != "null"@.len());
            assert("float"@.len() != "string"@.len() && "float"@.len() != "str"@.len());
            assert("float"@.len() != "integer"@.len() && "float"@.len() != "int"@.len());
        },
        TypeView::Boolean => {
            assert("boolean"@.len() != "any"@.len() && "boolean"@.len() != "null"@.len());
            assert("boolean"@.len() != "string"@.len() && "boolean"@.len() != "str"@.len());
            assert("boolean"@[0] != "integer"@[0] && "boolean"@.len() != "int"@.len());
            assert("boolean"@.len() != "float"@.len());
        },
        TypeView::Reference(n) => {},
    }
}

/// The paths that the sources hold.
pub open spec fn source_paths(sources: Seq<(Seq<char>, Seq<char>)>) -> Set<Seq<char>> {
    sources.map_values(|x: (Seq<char>, Seq<char>)| x.0).to_set()
}

/// How many source paths are not visited yet.
pub open spec fn unvisited(sources: Seq<(Seq<char>, Seq<char>)>, visited: Seq<Seq<char>>) -> nat {
    source_paths(sources).difference(visited.to_set()).len()
}

proof fn lemma_lookup_in_paths(sources: Seq<(Seq<char>, Seq<char>)>, path: Seq<char>)
    ensures
        lookup(sources, path) is Some ==> source_paths(sources).contains(path),
    decreases sources.len(),
{
    let m = sources.map_values(|x: (Seq<char>, Seq<char>)| x.0);
    if sources.len() > 0 {
        if sources[0].0 == path {
            assert(m[0] == path);
        } else {
            lemma_lookup_in_paths(sources.drop_first(), path);
            let m2 = sources.drop_first().map_values(|x: (Seq<char>, Seq<char>)| x.0);
            if lookup(sources, path) is Some {
                let i = choose|i: int| 0 <= i < m2.len() && m2[i] == path;
                assert(m[i + 1] == path);
            }
        }
    }
}

proof fn lemma_unvisited_facts(sources: Seq<(Seq<char>, Seq<char>)>, visited: Seq<Seq<char>>, path: Seq<char>)
    ensures
        source_paths(sources).difference(visited.to_set()).finite(),
        source_paths(sources).contains(path) && !visited.contains(path) ==> unvisited(sources, visited) >= 1
            && unvisited(sources, visited.push(path)) + 1 == unvisited(sources, visited),
{
    broadcast use vstd::seq_lib::seq_to_set_is_finite;
    let paths = source_paths(sources);
    let d = paths.difference(visited.to_set());
    vstd::set_lib::lemma_len_subset(d, paths);
    if paths.contains(path) && !visited.contains(path) {
        assert(d.contains(path));
        let d2 = paths.difference(visited.push(path).to_set());
        assert forall|x: Seq<char>| d2.contains(x) <==> #[trigger] d.remove(path).contains(x) by {
            if visited.push(path).contains(x) && x != path {
                let i = choose|i: int| 0 <= i < visited.push(path).len() && visited.push(path)[i] == x;
                assert(visited[i] == x);
            }
            if visited.contains(x) {
                let i = choose|i: int| 0 <= i < visited.len() && visited[i] == x;
                assert(visited.push(path)[i] == x);
            }
            if x == path {
                assert(visited.push(path)[visited.len() as int] == x);
            }
        }
        assert(d2 =~= d.remove(path));
        vstd::set::axiom_set_remove_len(d, path);
    }
}

proof fn lemma_unvisited_shrinks(sources: Seq<(Seq<char>, Seq<char>)>, a: Seq<Seq<char>>, b: Seq<Seq<char>>)
    requires
        a.to_set().subset_of(b.to_set()),
    ensures
        unvisited(sources, b) <= unvisited(sources, a),
{
    let paths = source_paths(sources);
    lemma_unvisited_facts(sources, a, Seq::empty());
    vstd::set_lib::lemma_len_subset(paths.difference(b.to_set()), paths.difference(a.to_set()));
}

proof fn lemma_push_grows(v: Seq<Seq<char>>, path: Seq<char>)
    ensures
        v.to_set().subset_of(v.push(path).to_set()),
{
    assert forall|x: Seq<char>| v.to_set().contains(x) implies #[trigger] v.push(path).to_set().contains(x) by {
        let i = choose|i: int| 0 <= i < v.len() && v[i] == x;
        assert(v.push(path)[i] == x);
    }
}

/// Any two nesting bounds at least the number of unvisited sources give the
/// same parse, and a parse only adds to the visited paths.
proof fn lemma_bounds_agree(
    toks: Seq<TokenContextView>,
    p: nat,
    acc: SchemaView,
    resolve: bool,
    visited: Seq<Seq<char>>,
    sources: Seq<(Seq<char>, Seq<char>)>,
    d1: nat,
    d2: nat,
)
    requires
        d1 >= unvisited(sources, visited),
        d2 >= unvisited(sources, visited),
    ensures
        schema_body(toks, p, acc, resolve, visited, sources, d1) == schema_body(
            toks,
            p,
            acc,
            resolve,
            visited,
            sources,
            d2,
        ),
        visited.to_set().subset_of(schema_body(toks, p, acc, resolve, visited, sources, d1).1.to_set()),
    decreases d1, toks.len() - p,
{
    if p >= toks.len() {
        return;
    }
    match toks[p as int].token {
        TokenView::Import => {
            if let Ok(path) = string_at(toks, p + 1) {
                if !resolve {
                    lemma_bounds_agree(toks, p + 2, acc, resolve, visited, sources, d1, d2);
                } else if !visited.contains(path) {
                    lemma_push_grows(visited, path);
                    if let Some(text) = lookup(sources, path) {
                        lemma_lookup_in_paths(sources, path);
                        lemma_unvisited_facts(sources, visited, path);
                        if let Ok(inner) = lex(text) {
                            let v1 = visited.push(path);
                            lemma_bounds_agree(inner, 0, empty_schema(), true, v1, sources, (d1 - 1) as nat, (d2 - 1) as nat);
                            let (r, v) = schema_body(inner, 0, empty_schema(), true, v1, sources, (d1 - 1) as nat);
                            if let Ok(imported) = r {
                                lemma_unvisited_shrinks(sources, v1, v);
                                let next = SchemaView {
                                    objects: acc.objects + imported.objects,
                                    endpoints: acc.endpoints + imported.endpoints,
                                    ..acc
                                };
                                lemma_bounds_agree(toks, p + 2, next, resolve, v, sources, d1, d2);
                            }
                        }
                    }
                }
            }
        },
        TokenView::KWVersion => {
            if acc.version is None && p + 1 < toks.len() && toks[p + 1 as int].token is String {
                let next = SchemaView { version: Some(toks[p + 1 as int].token->String_0), ..acc };
                lemma_bounds_agree(toks, p + 2, next, resolve, visited, sources, d1, d2);
            }
        },
        TokenView::KWTitle => {
            if acc.title is None && p + 1 < toks.len() && toks[p + 1 as int].token is String {
                let next = SchemaView { title: Some(toks[p + 1 as int].token->String_0), ..acc };
                lemma_bounds_agree(toks, p + 2, next, resolve, visited, sources, d1, d2);
            }
        },
        TokenView::KWDescription => {
            if acc.description is None && p + 1 < toks.len() && toks[p + 1 as int].token is String {
                let next = SchemaView { description: Some(toks[p + 1 as int].token->String_0), ..acc };
                lemma_bounds_agree(toks, p + 2, next, resolve, visited, sources, d1, d2);
            }
        },
        TokenView::KWObject => {
            if let Ok((o, q)) = object_at(toks, p + 1) {
                if p < q <= toks.len() {
                    let next = SchemaView { objects: acc.objects.push(o), ..acc };
                    lemma_bounds_agree(toks, q, next, resolve, visited, sources, d1, d2);
                }
            }
        },
        TokenView::KWRoute => {
            if let Ok((r, q)) = route_at(toks, p + 1) {
                if p < q <= toks.len() {
                    let next = SchemaView { endpoints: acc.endpoints.push(r), ..acc };
                    lemma_bounds_agree(toks, q, next, resolve, visited, sources, d1, d2);
                }
            }
        },
        _ => {},
    }
}

/// The bound on how deep imports nest never decides a parse: with any
/// larger bound the result is the same. A chain of imports visits distinct
/// paths, each of them a source, so it cannot outgrow the number of sources.
pub proof fn lemma_nesting_bound_never_binds(
    text: Seq<char>,
    resolve: bool,
    sources: Seq<(Seq<char>, Seq<char>)>,
    depth: nat,
)
    requires
        depth >= sources.len(),
    ensures
        lex(text) matches Ok(toks) ==> schema_body(toks, 0, empty_schema(), resolve, Seq::empty(), sources, depth)
            == parse_text(text, resolve, Seq::empty(), sources),
{
    let m = sources.map_values(|x: (Seq<char>, Seq<char>)| x.0);
    m.lemma_cardinality_of_set();
    assert(source_paths(sources).difference(Seq::<Seq<char>>::empty().to_set()) =~= source_paths(sources));
    if let Ok(toks) = lex(text) {
        lemma_bounds_agree(toks, 0, empty_schema(), resolve, Seq::empty(), sources, depth, sources.len());
    }
}

} // verus!
