//! The lexer: source text to a positioned token sequence.
//!
//! Positions follow one fixed rule: the column advances only over spaces,
//! tabs and carriage returns, and a line feed starts a new line at column 1.
//! A token therefore carries the line and column that whitespace alone has
//! reached when it begins.

use vstd::prelude::*;
use vstd::string::StringExecFns;

use crate::text::{chars_equal, chars_of, string_of};
use crate::token::{Token, TokenContext, TokenContextView, TokenView};

verus! {

/// What can go wrong while lexing.
#[derive(Debug, Clone, Copy, PartialEq, Eq, Structural)]
pub enum LexError {
    /// A character that starts no token.
    UnexpectedCharacter(char),
    /// A string literal with no closing quote.
    UnterminatedString,
    /// A backslash followed by a character that names no escape.
    InvalidEscape(char),
    /// A backslash at the very end of a string literal's contents.
    EscapeAtEnd,
    /// An integer literal above `i64::MAX`.
    IntegerTooLarge,
}

/// Whether `c` is alphanumeric in Unicode's sense (`char::is_alphanumeric`).
pub uninterp spec fn alphanumeric(c: char) -> bool;

/// Relies on `char::is_alphanumeric`: true exactly for alphabetic or numeric characters.
#[verifier::external_body]
fn is_alphanumeric(c: char) -> (r: bool)
    ensures
        r == alphanumeric(c),
{
    c.is_alphanumeric()
}

/// The character that the escape `\c` stands for, if any.
pub open spec fn escaped(c: char) -> Option<char> {
    if c == 'n' {
        Some('\n')
    } else if c == 't' {
        Some('\t')
    } else if c == 'r' {
        Some('\r')
    } else if c == '"' {
        Some('"')
    } else if c == '\\' {
        Some('\\')
    } else {
        None
    }
}

/// Prefixes `p` to a successful result.
pub open spec fn prefixed(p: Seq<char>, r: Result<Seq<char>, LexError>) -> Result<Seq<char>, LexError> {
    match r {
        Ok(v) => Ok(p + v),
        Err(e) => Err(e),
    }
}

/// The value of a string literal's contents once its escapes are resolved.
pub open spec fn unescape(s: Seq<char>) -> Result<Seq<char>, LexError>
    decreases s.len(),
{
    if s.len() == 0 {
        Ok(Seq::empty())
    } else if s[0] == '\\' {
        if s.len() < 2 {
            Err(LexError::EscapeAtEnd)
        } else {
            match escaped(s[1]) {
                Some(c) => prefixed(seq![c], unescape(s.subrange(2, s.len() as int))),
                None => Err(LexError::InvalidEscape(s[1])),
            }
        }
    } else {
        prefixed(seq![s[0]], unescape(s.subrange(1, s.len() as int)))
    }
}

/// The index of the quote that closes a string literal whose contents start
/// at `j`: a backslash always takes the next character with it.
pub open spec fn string_close(s: Seq<char>, j: nat) -> Option<nat>
    decreases s.len() - j,
{
    if j >= s.len() {
        None
    } else if s[j as int] == '"' {
        Some(j)
    } else if s[j as int] == '\\' {
        if j + 2 >= s.len() {
            None
        } else {
            string_close(s, j + 2)
        }
    } else {
        string_close(s, j + 1)
    }
}

pub open spec fn is_digit(c: char) -> bool {
    '0' <= c && c <= '9'
}

pub open spec fn digit_value(c: char) -> nat {
    if is_digit(c) {
        (c as int - '0' as int) as nat
    } else {
        0
    }
}

/// The number that a run of decimal digits denotes.
pub open spec fn digits_value(d: Seq<char>) -> nat
    decreases d.len(),
{
    if d.len() == 0 {
        0
    } else {
        digits_value(d.drop_last()) * 10 + digit_value(d.last())
    }
}

/// The end of the run of ASCII digits that starts at `j`.
pub open spec fn digits_end(s: Seq<char>, j: nat) -> nat
    decreases s.len() - j,
{
    if j < s.len() && is_digit(s[j as int]) {
        digits_end(s, j + 1)
    } else {
        j
    }
}

pub open spec fn is_word_char(c: char) -> bool {
    alphanumeric(c) || c == '_'
}

/// The end of the run of word characters that starts at `j`.
pub open spec fn word_end(s: Seq<char>, j: nat) -> nat
    decreases s.len() - j,
{
    if j < s.len() && is_word_char(s[j as int]) {
        word_end(s, j + 1)
    } else {
        j
    }
}

pub open spec fn is_word_start(c: char) -> bool {
    ('a' <= c && c <= 'z') || ('A' <= c && c <= 'Z') || c == '_'
}

/// A word is a keyword when it spells one, an identifier otherwise.
pub open spec fn word_token(w: Seq<char>) -> TokenView {
    if w == "version"@ {
        TokenView::KWVersion
    } else if w == "title"@ {
        TokenView::KWTitle
    } else if w == "description"@ {
        TokenView::KWDescription
    } else if w == "object"@ {
        TokenView::KWObject
    } else if w == "property"@ {
        TokenView::KWProperty
    } else if w == "route"@ {
        TokenView::KWRoute
    } else if w == "body"@ {
        TokenView::KWBody
    } else if w == "response"@ {
        TokenView::KWResponse
    } else if w == "tag"@ {
        TokenView::KWTag
    } else if w == "param"@ {
        TokenView::KWParam
    } else if w == "query"@ {
        TokenView::KWQuery
    } else {
        TokenView::Identifier(w)
    }
}

/// The token of a one-character symbol.
pub open spec fn symbol_token(c: char) -> Option<TokenView> {
    if c == '?' {
        Some(TokenView::QuestionMark)
    } else if c == '{' {
        Some(TokenView::BlockStart)
    } else if c == '}' {
        Some(TokenView::BlockEnd)
    } else if c == '[' {
        Some(TokenView::ArrayStart)
    } else if c == ']' {
        Some(TokenView::ArrayEnd)
    } else if c == '<' {
        Some(TokenView::MapStart)
    } else if c == '>' {
        Some(TokenView::MapEnd)
    } else if c == ',' {
        Some(TokenView::Comma)
    } else if c == '@' {
        Some(TokenView::Import)
    } else {
        None
    }
}

/// One step of the lexer at index `i < s.len()`: the token read there, if
/// any, and the index, line and column after it.
pub open spec fn lex_step(s: Seq<char>, i: nat, line: nat, column: nat) -> Result<
    (Option<TokenView>, nat, nat, nat),
    LexError,
> {
    let c = s[i as int];
    if c == '"' {
        match string_close(s, i + 1) {
            None => Err(LexError::UnterminatedString),
            Some(k) => match unescape(s.subrange(i + 1 as int, k as int)) {
                Ok(v) => Ok((Some(TokenView::String(v)), k + 1, line, column)),
                Err(e) => Err(e),
            },
        }
    } else if '1' <= c && c <= '9' {
        let k = digits_end(s, i);
        let v = digits_value(s.subrange(i as int, k as int));
        if v <= i64::MAX {
            Ok((Some(TokenView::Integer(v as i64)), k, line, column))
        } else {
            Err(LexError::IntegerTooLarge)
        }
    } else if is_word_start(c) {
        let k = word_end(s, i + 1);
        Ok((Some(word_token(s.subrange(i as int, k as int))), k, line, column))
    } else if symbol_token(c) is Some {
        Ok((symbol_token(c), i + 1, line, column))
    } else if c == '\n' {
        Ok((None, i + 1, line + 1, 1))
    } else if c == ' ' || c == '\t' || c == '\r' {
        Ok((None, i + 1, line, column + 1))
    } else {
        Err(LexError::UnexpectedCharacter(c))
    }
}

/// The tokens of `s` from index `i` on, with the lexer at `line` and `column`.
pub open spec fn lex_from(s: Seq<char>, i: nat, line: nat, column: nat) -> Result<
    Seq<TokenContextView>,
    LexError,
>
    decreases s.len() - i,
{
    if i >= s.len() {
        Ok(Seq::empty())
    } else {
        match lex_step(s, i, line, column) {
            Err(e) => Err(e),
            Ok((t, j, l, c)) => if j <= i || j > s.len() {
                Ok(Seq::empty())
            } else {
                match lex_from(s, j, l, c) {
                    Err(e) => Err(e),
                    Ok(rest) => Ok(
                        match t {
                            Some(tok) => seq![TokenContextView { token: tok, line, column }] + rest,
                            None => rest,
                        },
                    ),
                }
            },
        }
    }
}

/// The tokens of a whole text, or the first error met.
pub open spec fn lex(s: Seq<char>) -> Result<Seq<TokenContextView>, LexError> {
    lex_from(s, 0, 1, 1)
}

pub open spec fn tokens_view(v: Seq<TokenContext>) -> Seq<TokenContextView> {
    v.map_values(|t: TokenContext| t@)
}

pub open spec fn lex_result_view(r: Result<Vec<TokenContext>, LexError>) -> Result<
    Seq<TokenContextView>,
    LexError,
> {
    match r {
        Ok(v) => Ok(tokens_view(v@)),
        Err(e) => Err(e),
    }
}

proof fn lemma_string_close_after(s: Seq<char>, j: nat)
    ensures
        string_close(s, j) matches Some(k) ==> j <= k < s.len(),
    decreases s.len() - j,
{
    if j < s.len() && s[j as int] != '"' {
        if s[j as int] == '\\' && j + 2 < s.len() {
            lemma_string_close_after(s, j + 2);
        } else {
            lemma_string_close_after(s, j + 1);
        }
    }
}

proof fn lemma_digits_end_after(s: Seq<char>, j: nat)
    ensures
        j <= digits_end(s, j),
        digits_end(s, j) <= s.len() || digits_end(s, j) == j,
        forall|m: int| j <= m < digits_end(s, j) ==> is_digit(#[trigger] s[m]),
        digits_end(s, j) < s.len() ==> !is_digit(s[digits_end(s, j) as int]),
    decreases s.len() - j,
{
    if j < s.len() && is_digit(s[j as int]) {
        lemma_digits_end_after(s, j + 1);
    }
}

proof fn lemma_word_end_after(s: Seq<char>, j: nat)
    ensures
        j <= word_end(s, j),
        word_end(s, j) <= s.len() || word_end(s, j) == j,
    decreases s.len() - j,
{
    if j < s.len() && is_word_char(s[j as int]) {
        lemma_word_end_after(s, j + 1);
    }
}

/// A prefix of a digit run never denotes more than the whole run.
proof fn lemma_digits_value_prefix(d: Seq<char>, m: int)
    requires
        0 <= m <= d.len(),
    ensures
        digits_value(d.subrange(0, m)) <= digits_value(d),
    decreases d.len(),
{
    if m < d.len() {
        lemma_digits_value_prefix(d.drop_last(), m);
        assert(d.drop_last().subrange(0, m) == d.subrange(0, m));
    } else {
        assert(d.subrange(0, m) == d);
    }
}

/// The lexer always moves forward.
proof fn lemma_lex_step_advances(s: Seq<char>, i: nat, line: nat, column: nat)
    requires
        i < s.len(),
    ensures
        lex_step(s, i, line, column) matches Ok((_, j, _, _)) ==> i < j <= s.len(),
{
    lemma_string_close_after(s, i + 1);
    lemma_digits_end_after(s, i);
    lemma_word_end_after(s, i + 1);
}

/// Resolves the escapes of `s[start..end]`, the contents of a string literal.
pub fn strip_escapes(s: &Vec<char>, start: usize, end: usize) -> (r: Result<Vec<char>, LexError>)
    requires
        start <= end <= s@.len(),
    ensures
        match unescape(s@.subrange(start as int, end as int)) {
            Ok(v) => r matches Ok(w) && w@ == v,
            Err(e) => r == Err::<Vec<char>, LexError>(e),
        },
{
    let mut out: Vec<char> = Vec::new();
    let mut i = start;
    while i < end
        invariant
            start <= i <= end <= s@.len(),
            unescape(s@.subrange(start as int, end as int)) == prefixed(
                out@,
                unescape(s@.subrange(i as int, end as int)),
            ),
        decreases end - i,
    {
        let rest = Ghost(s@.subrange(i as int, end as int));
        let c = s[i];
        if c == '\\' {
            if i + 1 >= end {
                return Err(LexError::EscapeAtEnd);
            }
            let e = s[i + 1];
            let v = if e == 'n' {
                '\n'
            } else if e == 't' {
                '\t'
            } else if e == 'r' {
                '\r'
            } else if e == '"' {
                '"'
            } else if e == '\\' {
                '\\'
            } else {
                return Err(LexError::InvalidEscape(e));
            };
            assert(rest@.subrange(2, rest@.len() as int) == s@.subrange(i + 2, end as int));
            assert(out@.push(v) == out@ + seq![v]);
            assert forall|x: Seq<char>| out@ + (seq![v] + x) == out@.push(v) + x by {
                assert(out@ + (seq![v] + x) =~= out@.push(v) + x);
            }
            out.push(v);
            i = i + 2;
        } else {
            assert(rest@.subrange(1, rest@.len() as int) == s@.subrange(i + 1, end as int));
            assert forall|x: Seq<char>| out@ + (seq![c] + x) == out@.push(c) + x by {
                assert(out@ + (seq![c] + x) =~= out@.push(c) + x);
            }
            out.push(c);
            i = i + 1;
        }
    }
    assert(out@ + Seq::<char>::empty() == out@);
    Ok(out)
}

/// The context of a token emitted at `line` and `column`, if any.
pub open spec fn emitted(t: Option<TokenView>, line: nat, column: nat) -> Option<TokenContextView> {
    match t {
        Some(tok) => Some(TokenContextView { token: tok, line, column }),
        None => None,
    }
}

pub open spec fn option_view(o: Option<TokenContext>) -> Option<TokenContextView> {
    match o {
        Some(t) => Some(t@),
        None => None,
    }
}

/// Prefixes the tokens `p` to a successful result.
pub open spec fn after_tokens(p: Seq<TokenContextView>, r: Result<Seq<TokenContextView>, LexError>) -> Result<
    Seq<TokenContextView>,
    LexError,
> {
    match r {
        Ok(v) => Ok(p + v),
        Err(e) => Err(e),
    }
}

/// The keyword or identifier token that the word `w` spells.
fn word_to_token(w: Vec<char>) -> (r: Token)
    ensures
        r@ == word_token(w@),
{
    if chars_equal(&w, "version") {
        Token::KWVersion
    } else if chars_equal(&w, "title") {
        Token::KWTitle
    } else if chars_equal(&w, "description") {
        Token::KWDescription
    } else if chars_equal(&w, "object") {
        Token::KWObject
    } else if chars_equal(&w, "property") {
        Token::KWProperty
    } else if chars_equal(&w, "route") {
        Token::KWRoute
    } else if chars_equal(&w, "body") {
        Token::KWBody
    } else if chars_equal(&w, "response") {
        Token::KWResponse
    } else if chars_equal(&w, "tag") {
        Token::KWTag
    } else if chars_equal(&w, "param") {
        Token::KWParam
    } else if chars_equal(&w, "query") {
        Token::KWQuery
    } else {
        Token::Identifier(string_of(&w))
    }
}

/// A lexer over one text, with its position in it.
pub struct Lexer {
    input: Vec<char>,
    line: usize,
    column: usize,
    index: usize,
}

/// The mathematical value of a [`Lexer`].
pub struct LexerView {
    pub input: Seq<char>,
    pub line: nat,
    pub column: nat,
    pub index: nat,
}

impl View for Lexer {
    type V = LexerView;

    closed spec fn view(&self) -> LexerView {
        LexerView {
            input: self.input@,
            line: self.line as nat,
            column: self.column as nat,
            index: self.index as nat,
        }
    }
}

impl Lexer {
    /// The lexer's invariant: its position lies within the text, and the
    /// counters cannot overflow.
    pub closed spec fn wf(&self) -> bool {
        &&& self.index <= self.input@.len() < usize::MAX
        &&& 1 <= self.line
        &&& 1 <= self.column
        &&& self.line + self.column <= self.index + 2
    }

    /// A lexer at the start of `input`.
    pub fn new(input: String) -> (r: Lexer)
        requires
            input@.len() < usize::MAX,
        ensures
            r.wf(),
            r@ == (LexerView { input: input@, line: 1, column: 1, index: 0 }),
    {
        Lexer { input: chars_of(input.as_str()), line: 1, column: 1, index: 0 }
    }

    /// Reads what stands at the current index: a token, whitespace, or an error.
    fn get_token(&mut self) -> (r: Result<Option<TokenContext>, LexError>)
        requires
            old(self).wf(),
            old(self)@.index < old(self)@.input.len(),
        ensures
            final(self).wf(),
            final(self)@.input == old(self)@.input,
            match lex_step(old(self)@.input, old(self)@.index, old(self)@.line, old(self)@.column) {
                Ok((t, j, l, c)) => {
                    &&& r matches Ok(o) && option_view(o) == emitted(
                        t,
                        old(self)@.line,
                        old(self)@.column,
                    )
                    &&& final(self)@.index == j
                    &&& final(self)@.line == l
                    &&& final(self)@.column == c
                },
                Err(e) => r == Err::<Option<TokenContext>, LexError>(e),
            },
    {
        let ghost s = self.input@;
        let ghost before = self@;
        let n = self.input.len();
        let i = self.index;
        let c = self.input[i];
        proof {
            lemma_lex_step_advances(s, i as nat, self.line as nat, self.column as nat);
        }
        if c == '"' {
            let start = i + 1;
            let mut j = start;
            while j < n
                invariant
                    s == self.input@,
                    self.wf(),
                    self@ == before,
                    before == old(self)@,
                    i == self.index,
                    n == s.len() < usize::MAX,
                    start == i + 1,
                    s[i as int] == '"',
                    start <= j <= n,
                    string_close(s, start as nat) == string_close(s, j as nat),
                decreases n - j,
            {
                let d = self.input[j];
                if d == '"' {
                    proof {
                        lemma_string_close_after(s, start as nat);
                    }
                    let v = strip_escapes(&self.input, start, j)?;
                    self.index = j + 1;
                    return Ok(Some(TokenContext { token: Token::String(string_of(&v)), line: self.line, column: self.column }));
                } else if d == '\\' {
                    if j + 2 >= n {
                        return Err(LexError::UnterminatedString);
                    }
                    j = j + 2;
                } else {
                    j = j + 1;
                }
            }
            Err(LexError::UnterminatedString)
        } else if '1' <= c && c <= '9' {
            let mut k = i;
            while k < n && '0' <= self.input[k] && self.input[k] <= '9'
                invariant
                    s == self.input@,
                    self.wf(),
                    self@ == before,
                    before == old(self)@,
                    i == self.index,
                    n == s.len(),
                    '1' <= s[i as int] && s[i as int] <= '9',
                    i <= k <= n,
                    digits_end(s, i as nat) == digits_end(s, k as nat),
                decreases n - k,
            {
                k = k + 1;
            }
            proof {
                lemma_digits_end_after(s, i as nat);
            }
            let ghost run = s.subrange(i as int, k as int);
            let mut value: u64 = 0;
            let mut m = i;
            while m < k
                invariant
                    s == self.input@,
                    self.wf(),
                    self@ == before,
                    before == old(self)@,
                    i == self.index,
                    n == s.len(),
                    '1' <= s[i as int] && s[i as int] <= '9',
                    i <= m <= k <= n,
                    k == digits_end(s, i as nat),
                    run == s.subrange(i as int, k as int),
                    forall|x: int| i <= x < k ==> is_digit(#[trigger] s[x]),
                    value == digits_value(s.subrange(i as int, m as int)),
                    value <= i64::MAX,
                decreases k - m,
            {
                let ch = self.input[m];
                assert(is_digit(s[m as int]));
                let d: u64 = (ch as u32 - '0' as u32) as u64;
                assert(s.subrange(i as int, m + 1 as int).drop_last() == s.subrange(i as int, m as int));
                assert(d == digit_value(s[m as int]));
                if value > (9223372036854775807u64 - d) / 10 {
                    assert(value * 10 + d > 9223372036854775807u64) by (nonlinear_arith)
                        requires
                            value > (9223372036854775807u64 - d) / 10,
                            d < 10,
                    ;
                    proof {
                        lemma_digits_value_prefix(run, m + 1 - i);
                        assert(run.subrange(0, m + 1 - i) == s.subrange(i as int, m + 1 as int));
                    }
                    return Err(LexError::IntegerTooLarge);
                }
                assert(value * 10 + d <= 9223372036854775807u64) by (nonlinear_arith)
                    requires
                        value <= (9223372036854775807u64 - d) / 10,
                        d < 10,
                ;
                value = value * 10 + d;
                m = m + 1;
            }
            self.index = k;
            Ok(Some(TokenContext { token: Token::Integer(value as i64), line: self.line, column: self.column }))
        } else if ('a' <= c && c <= 'z') || ('A' <= c && c <= 'Z') || c == '_' {
            let mut w: Vec<char> = Vec::new();
            w.push(c);
            let mut k = i + 1;
            while k < n && (is_alphanumeric(self.input[k]) || self.input[k] == '_')
                invariant
                    s == self.input@,
                    self.wf(),
                    self@ == before,
                    before == old(self)@,
                    i == self.index,
                    n == s.len(),
                    is_word_start(s[i as int]),
                    i < k <= n,
                    word_end(s, (i + 1) as nat) == word_end(s, k as nat),
                    w@ == s.subrange(i as int, k as int),
                decreases n - k,
            {
                w.push(self.input[k]);
                k = k + 1;
                assert(w@ == s.subrange(i as int, k as int));
            }
            self.index = k;
            Ok(Some(TokenContext { token: word_to_token(w), line: self.line, column: self.column }))
        } else if c == '\n' {
            self.line = self.line + 1;
            self.column = 1;
            self.index = i + 1;
            Ok(None)
        } else if c == ' ' || c == '\t' || c == '\r' {
            self.column = self.column + 1;
            self.index = i + 1;
            Ok(None)
        } else {
            let token = if c == '?' {
                Token::QuestionMark
            } else if c == '{' {
                Token::BlockStart
            } else if c == '}' {
                Token::BlockEnd
            } else if c == '[' {
                Token::ArrayStart
            } else if c == ']' {
                Token::ArrayEnd
            } else if c == '<' {
                Token::MapStart
            } else if c == '>' {
                Token::MapEnd
            } else if c == ',' {
                Token::Comma
            } else if c == '@' {
                Token::Import
            } else {
                return Err(LexError::UnexpectedCharacter(c));
            };
            self.index = i + 1;
            Ok(Some(TokenContext { token, line: self.line, column: self.column }))
        }
    }

    /// Reads the tokens from the current index to the end of the text.
    pub fn tokenise(&mut self) -> (r: Result<Vec<TokenContext>, LexError>)
        requires
            old(self).wf(),
        ensures
            lex_result_view(r) == lex_from(
                old(self)@.input,
                old(self)@.index,
                old(self)@.line,
                old(self)@.column,
            ),
    {
        let ghost s = self.input@;
        let ghost start = self@;
        let mut tokens: Vec<TokenContext> = Vec::new();
        while self.index < self.input.len()
            invariant
                self.wf(),
                self@.input == s,
                start == old(self)@,
                start.input == s,
                lex_from(s, start.index, start.line, start.column) == after_tokens(
                    tokens_view(tokens@),
                    lex_from(s, self@.index, self@.line, self@.column),
                ),
            decreases s.len() - self@.index,
        {
            let ghost (i, line, column) = (self@.index, self@.line, self@.column);
            proof {
                lemma_lex_step_advances(s, i, line, column);
            }
            let step = self.get_token();
            assert(lex_from(s, i, line, column) == match lex_step(s, i, line, column) {
                Err(e) => Err(e),
                Ok((t, j, l, c)) => match lex_from(s, j, l, c) {
                    Err(e) => Err(e),
                    Ok(rest) => Ok(
                        match t {
                            Some(tok) => seq![TokenContextView { token: tok, line, column }] + rest,
                            None => rest,
                        },
                    ),
                },
            });
            match step {
                Err(e) => {
                    return Err(e);
                },
                Ok(Some(t)) => {
                    let ghost tv = t@;
                    let ghost prev = tokens_view(tokens@);
                    tokens.push(t);
                    proof {
                        assert(tokens_view(tokens@) =~= prev.push(tv));
                        let rest = lex_from(s, self@.index, self@.line, self@.column);
                        if rest is Ok {
                            assert(prev + (seq![tv] + rest->Ok_0) =~= tokens_view(tokens@) + rest->Ok_0);
                        }
                    }
                },
                Ok(None) => {},
            }
        }
        assert(tokens_view(tokens@) + Seq::<TokenContextView>::empty() == tokens_view(tokens@));
        Ok(tokens)
    }
}

/// The tokens of `input`, or the first lexical error in it.
pub fn tokenise(input: &str) -> (r: Result<Vec<TokenContext>, LexError>)
    requires
        input@.len() < usize::MAX,
    ensures
        lex_result_view(r) == lex(input@),
{
    let mut lexer = Lexer::new(String::from_str(input));
    lexer.tokenise()
}

} // verus!
