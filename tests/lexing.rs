use manyleb::lexer::strip_escapes;
use manyleb::{tokenise, LexError, Lexer, Token, TokenContext};

fn tokens(text: &str) -> Vec<TokenContext> {
    tokenise(text).expect("text should lex")
}

#[test]
fn tokenise_keywords_identifiers_and_symbols() {
    let t = tokens("object Pet { property tags []?<str, int> \"x\" } @ route param query tag body response");
    assert!(matches!(t[0].token, Token::KWObject));
    assert!(matches!(&t[1].token, Token::Identifier(n) if n == "Pet"));
    assert!(matches!(t[2].token, Token::BlockStart));
    assert!(matches!(t[3].token, Token::KWProperty));
    assert!(matches!(&t[4].token, Token::Identifier(n) if n == "tags"));
    assert!(matches!(t[5].token, Token::ArrayStart));
    assert!(matches!(t[6].token, Token::ArrayEnd));
    assert!(matches!(t[7].token, Token::QuestionMark));
    assert!(matches!(t[8].token, Token::MapStart));
    assert!(matches!(&t[9].token, Token::Identifier(n) if n == "str"));
    assert!(matches!(t[10].token, Token::Comma));
    assert!(matches!(&t[11].token, Token::Identifier(n) if n == "int"));
    assert!(matches!(t[12].token, Token::MapEnd));
    assert!(matches!(&t[13].token, Token::String(s) if s == "x"));
    assert!(matches!(t[14].token, Token::BlockEnd));
    assert!(matches!(t[15].token, Token::Import));
    assert!(matches!(t[16].token, Token::KWRoute));
    assert!(matches!(t[17].token, Token::KWParam));
    assert!(matches!(t[18].token, Token::KWQuery));
    assert!(matches!(t[19].token, Token::KWTag));
    assert!(matches!(t[20].token, Token::KWBody));
    assert!(matches!(t[21].token, Token::KWResponse));
    assert_eq!(t.len(), 22);
}

#[test]
fn tokenise_resolves_string_escapes() {
    let t = tokens("\"a\\nb\\t\\r\\\"c\\\\\"");
    assert_eq!(t.len(), 1);
    assert!(matches!(&t[0].token, Token::String(s) if s == "a\nb\t\r\"c\\"));
}

#[test]
fn tokenise_rejects_unknown_escape() {
    assert!(matches!(tokenise("\"a\\qb\""), Err(LexError::InvalidEscape('q'))));
}

#[test]
fn tokenise_rejects_unterminated_string() {
    assert!(matches!(tokenise("title \"abc"), Err(LexError::UnterminatedString)));
    assert!(matches!(tokenise("\"abc\\\""), Err(LexError::UnterminatedString)));
}

#[test]
fn tokenise_integers_start_with_nonzero_digit() {
    let t = tokens("204 10");
    assert!(matches!(t[0].token, Token::Integer(204)));
    assert!(matches!(t[1].token, Token::Integer(10)));
    assert!(matches!(tokenise("0"), Err(LexError::UnexpectedCharacter('0'))));
    assert!(matches!(tokenise("007"), Err(LexError::UnexpectedCharacter('0'))));
}

#[test]
fn tokenise_rejects_integer_above_i64() {
    assert!(matches!(tokenise("9223372036854775807"), Ok(_)));
    assert!(matches!(tokenise("9223372036854775808"), Err(LexError::IntegerTooLarge)));
}

#[test]
fn tokenise_rejects_unexpected_character() {
    assert!(matches!(tokenise("object # x"), Err(LexError::UnexpectedCharacter('#'))));
}

#[test]
fn tokenise_columns_advance_over_whitespace_only() {
    let t = tokens("ab  cd\n\tef gh");
    assert_eq!((t[0].line, t[0].column), (1, 1));
    assert_eq!((t[1].line, t[1].column), (1, 3));
    assert_eq!((t[2].line, t[2].column), (2, 2));
    assert_eq!((t[3].line, t[3].column), (2, 3));
}

#[test]
fn tokenise_identifiers_continue_with_unicode_alphanumerics() {
    let t = tokens("caf\u{e9}2_x y");
    assert_eq!(t.len(), 2);
    assert!(matches!(&t[0].token, Token::Identifier(n) if n == "caf\u{e9}2_x"));
}

#[test]
fn lexer_new_then_tokenise() {
    let mut lexer = Lexer::new(String::from("version \"1\""));
    let t = lexer.tokenise().expect("lexes");
    assert_eq!(t.len(), 2);
    assert!(matches!(t[0].token, Token::KWVersion));
}

#[test]
fn token_context_error_message() {
    let t = TokenContext { token: Token::Comma, line: 3, column: 17 };
    assert_eq!(t.error_message("Expected type."), "Error at line 3, column 17: Expected type.");
}

#[test]
fn strip_escapes_on_a_range() {
    let text: Vec<char> = "x\"a\\\\b\"y".chars().collect();
    let r = strip_escapes(&text, 2, 6).expect("valid");
    assert_eq!(r.iter().collect::<String>(), "a\\b");
    let bad: Vec<char> = "a\\".chars().collect();
    assert!(matches!(strip_escapes(&bad, 0, 2), Err(LexError::EscapeAtEnd)));
}
