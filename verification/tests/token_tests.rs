use rlox::diagnostics::{LexError, LexErrorKind};
use rlox::token::{Token, TokenType};

#[test]
fn token_construction_keeps_every_field() {
    let t = Token::new(TokenType::Number, "3.25".to_string(), "3.25".to_string(), 7);
    assert_eq!(t.token_type, TokenType::Number);
    assert_eq!(t.lexeme, "3.25");
    assert_eq!(t.literal, "3.25");
    assert_eq!(t.line, 7);
}

#[test]
fn token_clone_preserves_fields() {
    let t = Token::new(TokenType::Identifier, "name".to_string(), "".to_string(), 3);
    let c = t.clone();
    assert_eq!(c.token_type, t.token_type);
    assert_eq!(c.lexeme, t.lexeme);
    assert_eq!(c.literal, t.literal);
    assert_eq!(c.line, t.line);
}

#[test]
fn lex_error_carries_kind_and_line() {
    let e = LexError::new(LexErrorKind::UnexpectedCharacter(b'~'), 4);
    assert_eq!(e.kind, LexErrorKind::UnexpectedCharacter(b'~'));
    assert_eq!(e.line, 4);
    let u = LexError::new(LexErrorKind::UnterminatedString, 9);
    assert_eq!(u.kind, LexErrorKind::UnterminatedString);
    assert_eq!(u.line, 9);
}
