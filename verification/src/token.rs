//! The token model: an immutable record of a lexeme's classification, its
//! raw text, an optional literal value, and the source line it started on.

use vstd::prelude::*;

verus! {

/// The fixed classification of a token: single-character punctuators,
/// one/two-character operators, literals, identifiers, the reserved
/// keywords, and the end-of-input sentinel.
#[derive(Clone, Copy, PartialEq, Eq, Structural, Debug)]
pub enum TokenType {
    LeftParen,
    RightParen,
    LeftBrace,
    RightBrace,
    Comma,
    Dot,
    Minus,
    Plus,
    SemiColon,
    Slash,
    Star,
    Bang,
    BangEqual,
    Equal,
    EqualEqual,
    Greater,
    GreaterEqual,
    Less,
    LessEqual,
    Identifier,
    LoxString,
    Number,
    And,
    Class,
    Else,
    False,
    For,
    Fun,
    If,
    Nil,
    Or,
    Print,
    Return,
    Super,
    This,
    True,
    Var,
    While,
    EOF,
}

/// Mathematical model of a token: what the contracts speak of.
pub struct TokenModel {
    pub kind: TokenType,
    pub lexeme: Seq<char>,
    pub literal: Seq<char>,
    pub line: int,
}

/// A token as the scanner produces it. `lexeme` is the exact source
/// substring the token was derived from (empty for end-of-input).
/// `literal` is non-empty only for string and number literals: a string
/// literal carries the text strictly between the quotes, and a number
/// literal carries its exact digit text, which determines the numeric
/// value (decoding to a machine float is left to the caller, since the
/// digit text pins it down completely).
#[derive(Debug)]
pub struct Token {
    pub token_type: TokenType,
    pub lexeme: String,
    pub literal: String,
    pub line: usize,
}

impl View for Token {
    type V = TokenModel;

    open spec fn view(&self) -> TokenModel {
        TokenModel {
            kind: self.token_type,
            lexeme: self.lexeme@,
            literal: self.literal@,
            line: self.line as int,
        }
    }
}

impl Clone for Token {
    fn clone(&self) -> (t: Token)
        ensures
            t@ == self@,
    {
        Token {
            token_type: self.token_type,
            lexeme: self.lexeme.clone(),
            literal: self.literal.clone(),
            line: self.line,
        }
    }
}

/// Relies on `String::push`: appends the given character to the end of the
/// string. This is the library's only trusted item.
#[verifier::external_body]
pub(crate) fn push_char(s: &mut String, c: char)
    ensures
        final(s)@ == old(s)@.push(c),
{
    s.push(c);
}

impl Token {
    /// Construction is total: any combination of field values is accepted.
    pub fn new(token_type: TokenType, lexeme: String, literal: String, line: usize) -> (t: Token)
        ensures
            t@ == (TokenModel { kind: token_type, lexeme: lexeme@, literal: literal@, line: line as int }),
    {
        Token { token_type, lexeme, literal, line }
    }
}

} // verus!
