use rlox::lox_parser::LoxParser;
use rlox::token::{Token, TokenType};

fn tok(kind: TokenType, lexeme: &str) -> Token {
    Token::new(kind, lexeme.to_string(), "".to_string(), 1)
}

fn sample_tokens() -> Vec<Token> {
    vec![
        tok(TokenType::Number, "1"),
        tok(TokenType::Plus, "+"),
        tok(TokenType::Number, "2"),
        tok(TokenType::EOF, ""),
    ]
}

#[test]
fn peek_reads_without_consuming() {
    let parser = LoxParser::new(sample_tokens());
    assert_eq!(parser.peek().token_type, TokenType::Number);
    assert_eq!(parser.peek().lexeme, "1");
}

#[test]
fn advance_consumes_and_returns_the_passed_token() {
    let mut parser = LoxParser::new(sample_tokens());
    let first = parser.advance();
    assert_eq!(first.token_type, TokenType::Number);
    assert_eq!(parser.peek().token_type, TokenType::Plus);
    assert_eq!(parser.previous().lexeme, "1");
}

#[test]
fn advance_stops_at_end_of_input() {
    let mut parser = LoxParser::new(sample_tokens());
    parser.advance();
    parser.advance();
    parser.advance();
    assert!(parser.is_at_end());
    let again = parser.advance();
    assert_eq!(again.token_type, TokenType::Number);
    assert!(parser.is_at_end());
}

#[test]
fn check_is_false_at_end_of_input() {
    let parser = LoxParser::new(vec![tok(TokenType::EOF, "")]);
    assert!(parser.is_at_end());
    assert!(!parser.check(&TokenType::EOF));
    assert!(!parser.check(&TokenType::Plus));
}

#[test]
fn check_compares_the_current_kind() {
    let parser = LoxParser::new(sample_tokens());
    assert!(parser.check(&TokenType::Number));
    assert!(!parser.check(&TokenType::Plus));
}

#[test]
fn match_token_consumes_only_on_a_match() {
    let mut parser = LoxParser::new(sample_tokens());
    assert!(!parser.match_token(vec![TokenType::Plus, TokenType::Minus]));
    assert_eq!(parser.peek().token_type, TokenType::Number);
    assert!(parser.match_token(vec![TokenType::Minus, TokenType::Number]));
    assert_eq!(parser.peek().token_type, TokenType::Plus);
}
