use rlox::diagnostics::{LexError, LexErrorKind};
use rlox::lox_scanner::LoxScanner;
use rlox::scanner::Scanner;
use rlox::token::{Token, TokenType};

fn scan(src: &str) -> (Vec<Token>, Vec<LexError>) {
    let mut scanner = LoxScanner::new(src.as_bytes());
    let tokens = scanner.scan_tokens();
    let errors = scanner.errors().clone();
    (tokens, errors)
}

fn kinds(tokens: &[Token]) -> Vec<TokenType> {
    tokens.iter().map(|t| t.token_type).collect()
}

#[test]
fn string_plus_number() {
    let (tokens, errors) = scan("\"foo\" + 12.5");
    assert_eq!(
        kinds(&tokens),
        vec![TokenType::LoxString, TokenType::Plus, TokenType::Number, TokenType::EOF]
    );
    assert_eq!(tokens[0].lexeme, "\"foo\"");
    assert_eq!(tokens[0].literal, "foo");
    assert_eq!(tokens[1].lexeme, "+");
    assert_eq!(tokens[2].lexeme, "12.5");
    assert_eq!(tokens[2].literal.parse::<f64>().unwrap(), 12.5);
    assert!(errors.is_empty());
}

#[test]
fn comment_then_number_on_line_two() {
    let (tokens, errors) = scan("// a comment\n123");
    assert_eq!(kinds(&tokens), vec![TokenType::Number, TokenType::EOF]);
    assert_eq!(tokens[0].literal.parse::<f64>().unwrap(), 123.0);
    assert_eq!(tokens[0].line, 2);
    assert_eq!(tokens[1].line, 2);
    assert!(errors.is_empty());
}

#[test]
fn maximal_munch_operators() {
    let (tokens, errors) = scan("!=<<====");
    assert_eq!(
        kinds(&tokens),
        vec![
            TokenType::BangEqual,
            TokenType::Less,
            TokenType::LessEqual,
            TokenType::EqualEqual,
            TokenType::Equal,
            TokenType::EOF
        ]
    );
    assert_eq!(tokens[0].lexeme, "!=");
    assert_eq!(tokens[1].lexeme, "<");
    assert_eq!(tokens[2].lexeme, "<=");
    assert_eq!(tokens[3].lexeme, "==");
    assert_eq!(tokens[4].lexeme, "=");
    assert!(errors.is_empty());
}

#[test]
fn maximal_munch_leaves_no_lone_characters() {
    let (tokens, errors) = scan("!=<<===");
    assert_eq!(
        kinds(&tokens),
        vec![
            TokenType::BangEqual,
            TokenType::Less,
            TokenType::LessEqual,
            TokenType::EqualEqual,
            TokenType::EOF
        ]
    );
    assert!(errors.is_empty());
}

#[test]
fn unterminated_string_reports_one_error() {
    let (tokens, errors) = scan("\"unterminated");
    assert_eq!(kinds(&tokens), vec![TokenType::EOF]);
    assert_eq!(errors.len(), 1);
    assert_eq!(errors[0].kind, LexErrorKind::UnterminatedString);
    assert_eq!(errors[0].line, 1);
}

#[test]
fn unterminated_string_error_at_final_line() {
    let (tokens, errors) = scan("\"one\ntwo");
    assert_eq!(kinds(&tokens), vec![TokenType::EOF]);
    assert_eq!(errors.len(), 1);
    assert_eq!(errors[0].kind, LexErrorKind::UnterminatedString);
    assert_eq!(errors[0].line, 2);
}

#[test]
fn keyword_lookup_does_not_match_substrings() {
    let (tokens, errors) = scan("orchid");
    assert_eq!(kinds(&tokens), vec![TokenType::Identifier, TokenType::EOF]);
    assert_eq!(tokens[0].lexeme, "orchid");
    assert!(errors.is_empty());
}

#[test]
fn all_keywords_match_exactly() {
    let src = "and class else false for fun if nil or print return super this true var while";
    let (tokens, errors) = scan(src);
    assert_eq!(
        kinds(&tokens),
        vec![
            TokenType::And,
            TokenType::Class,
            TokenType::Else,
            TokenType::False,
            TokenType::For,
            TokenType::Fun,
            TokenType::If,
            TokenType::Nil,
            TokenType::Or,
            TokenType::Print,
            TokenType::Return,
            TokenType::Super,
            TokenType::This,
            TokenType::True,
            TokenType::Var,
            TokenType::While,
            TokenType::EOF
        ]
    );
    assert!(errors.is_empty());
}

#[test]
fn empty_input_yields_single_eof() {
    let (tokens, errors) = scan("");
    assert_eq!(kinds(&tokens), vec![TokenType::EOF]);
    assert_eq!(tokens[0].lexeme, "");
    assert_eq!(tokens[0].line, 1);
    assert!(errors.is_empty());
}

#[test]
fn trailing_dot_is_a_separate_token() {
    let (tokens, errors) = scan("12.x");
    assert_eq!(
        kinds(&tokens),
        vec![TokenType::Number, TokenType::Dot, TokenType::Identifier, TokenType::EOF]
    );
    assert_eq!(tokens[0].lexeme, "12");
    assert_eq!(tokens[0].literal.parse::<f64>().unwrap(), 12.0);
    assert!(errors.is_empty());
}

#[test]
fn unexpected_characters_each_report_once() {
    let (tokens, errors) = scan("@ (#");
    assert_eq!(kinds(&tokens), vec![TokenType::LeftParen, TokenType::EOF]);
    assert_eq!(errors.len(), 2);
    assert_eq!(errors[0].kind, LexErrorKind::UnexpectedCharacter(b'@'));
    assert_eq!(errors[1].kind, LexErrorKind::UnexpectedCharacter(b'#'));
    assert_eq!(errors[0].line, 1);
}

#[test]
fn string_token_starts_on_opening_line() {
    let (tokens, errors) = scan("\"a\nb\" x");
    assert_eq!(
        kinds(&tokens),
        vec![TokenType::LoxString, TokenType::Identifier, TokenType::EOF]
    );
    assert_eq!(tokens[0].literal, "a\nb");
    assert_eq!(tokens[0].line, 1);
    assert_eq!(tokens[1].line, 2);
    assert!(errors.is_empty());
}

#[test]
fn every_scan_ends_with_exactly_one_eof() {
    for src in ["", "var x = 1;", "\"open", "@@@", "((()))", "// only a comment"] {
        let (tokens, _) = scan(src);
        assert!(!tokens.is_empty());
        assert_eq!(tokens.last().unwrap().token_type, TokenType::EOF);
        let eof_count = tokens
            .iter()
            .filter(|t| t.token_type == TokenType::EOF)
            .count();
        assert_eq!(eof_count, 1);
    }
}

#[test]
fn token_lines_never_decrease() {
    let (tokens, _) = scan("a\nb b\n\nc \"x\ny\" d\ne");
    let mut last = 0usize;
    for t in &tokens {
        assert!(t.line >= last);
        last = t.line;
    }
}

#[test]
fn comment_insertion_only_shifts_lines() {
    let plain = "var x = 1;\nprint x;";
    let commented = "var x = // note\n1;\nprint x;";
    let (t1, e1) = scan(plain);
    let (t2, e2) = scan(commented);
    assert!(e1.is_empty() && e2.is_empty());
    assert_eq!(t1.len(), t2.len());
    for (a, b) in t1.iter().zip(t2.iter()) {
        assert_eq!(a.token_type, b.token_type);
        assert_eq!(a.lexeme, b.lexeme);
        assert_eq!(a.literal, b.literal);
    }
    let shifted = t2.iter().filter(|t| t.line == 2).count();
    assert!(shifted >= 1);
}

#[test]
fn slash_alone_is_division() {
    let (tokens, errors) = scan("8/2");
    assert_eq!(
        kinds(&tokens),
        vec![TokenType::Number, TokenType::Slash, TokenType::Number, TokenType::EOF]
    );
    assert_eq!(tokens[1].lexeme, "/");
    assert!(errors.is_empty());
}

#[test]
fn punctuators_carry_canonical_lexemes() {
    let (tokens, errors) = scan("(){},.-+;*");
    let expected = ["(", ")", "{", "}", ",", ".", "-", "+", ";", "*"];
    assert_eq!(tokens.len(), expected.len() + 1);
    for (t, want) in tokens.iter().zip(expected.iter()) {
        assert_eq!(&t.lexeme, want);
    }
    assert!(errors.is_empty());
}
