//! Mathematical model of the lexical scan: a recursive specification that
//! maps a source byte sequence to the exact token and diagnostic sequences
//! the scanner must produce. The executable scanner is proved equal to this
//! model, and the scanner's laws (single end-of-input terminator, monotone
//! line numbers, canonical operator lexemes, comment insertion) are proved
//! of the model by induction.

use vstd::prelude::*;

use crate::diagnostics::{LexError, LexErrorKind};
use crate::token::{Token, TokenModel, TokenType};

verus! {

/// A decimal digit byte.
pub open spec fn is_digit_byte(b: u8) -> bool {
    ('0' as u8) <= b && b <= ('9' as u8)
}

/// An alphabetic byte or underscore: what may start an identifier.
pub open spec fn is_alpha_byte(b: u8) -> bool {
    (('a' as u8) <= b && b <= ('z' as u8)) || (('A' as u8) <= b && b <= ('Z' as u8)) || b == ('_' as u8)
}

/// What may continue an identifier.
pub open spec fn is_alpha_numeric_byte(b: u8) -> bool {
    is_alpha_byte(b) || is_digit_byte(b)
}

/// Source bytes read as text, one character per byte. Every byte the
/// scanner examines outside string-literal bodies is ASCII, where this is
/// exactly the UTF-8 reading; inside a string-literal body the bytes are
/// carried through unchanged, one character each.
pub open spec fn chars_of(bs: Seq<u8>) -> Seq<char> {
    bs.map_values(|b: u8| b as char)
}

/// Length of the maximal run of digit bytes starting at `i`.
pub open spec fn digit_run_len(s: Seq<u8>, i: int) -> nat
    decreases s.len() - i,
{
    if 0 <= i < s.len() && is_digit_byte(s[i]) {
        (1 + digit_run_len(s, i + 1)) as nat
    } else {
        0
    }
}

/// Length of the maximal run of identifier bytes starting at `i`.
pub open spec fn ident_run_len(s: Seq<u8>, i: int) -> nat
    decreases s.len() - i,
{
    if 0 <= i < s.len() && is_alpha_numeric_byte(s[i]) {
        (1 + ident_run_len(s, i + 1)) as nat
    } else {
        0
    }
}

/// Length of a comment body starting at `i`: everything up to, and not
/// including, the next newline or the end of the buffer.
pub open spec fn comment_run_len(s: Seq<u8>, i: int) -> nat
    decreases s.len() - i,
{
    if 0 <= i < s.len() && s[i] != ('\n' as u8) {
        (1 + comment_run_len(s, i + 1)) as nat
    } else {
        0
    }
}

/// Length of a string-literal body starting at `i` (just past the opening
/// quote): everything up to, and not including, the closing quote or the
/// end of the buffer.
pub open spec fn string_body_len(s: Seq<u8>, i: int) -> nat
    decreases s.len() - i,
{
    if 0 <= i < s.len() && s[i] != ('"' as u8) {
        (1 + string_body_len(s, i + 1)) as nat
    } else {
        0
    }
}

/// How many newline bytes lie in `s[i..j]`.
pub open spec fn newline_count(s: Seq<u8>, i: int, j: int) -> int
    decreases j - i,
{
    if i < j {
        newline_count(s, i, j - 1) + (if s[j - 1] == ('\n' as u8) {
            1int
        } else {
            0int
        })
    } else {
        0
    }
}

/// The token kind of a byte that is a complete token by itself.
pub open spec fn single_char_kind(b: u8) -> Option<TokenType> {
    if b == ('(' as u8) {
        Some(TokenType::LeftParen)
    } else if b == (')' as u8) {
        Some(TokenType::RightParen)
    } else if b == ('{' as u8) {
        Some(TokenType::LeftBrace)
    } else if b == ('}' as u8) {
        Some(TokenType::RightBrace)
    } else if b == (',' as u8) {
        Some(TokenType::Comma)
    } else if b == ('.' as u8) {
        Some(TokenType::Dot)
    } else if b == ('-' as u8) {
        Some(TokenType::Minus)
    } else if b == ('+' as u8) {
        Some(TokenType::Plus)
    } else if b == (';' as u8) {
        Some(TokenType::SemiColon)
    } else if b == ('*' as u8) {
        Some(TokenType::Star)
    } else {
        None
    }
}

/// The kind of a `!`, `=`, `<` or `>` operator, two characters long when a
/// `=` follows (maximal munch).
pub open spec fn operator_kind(b: u8, two: bool) -> TokenType {
    if b == ('!' as u8) {
        if two {
            TokenType::BangEqual
        } else {
            TokenType::Bang
        }
    } else if b == ('=' as u8) {
        if two {
            TokenType::EqualEqual
        } else {
            TokenType::Equal
        }
    } else if b == ('<' as u8) {
        if two {
            TokenType::LessEqual
        } else {
            TokenType::Less
        }
    } else {
        if two {
            TokenType::GreaterEqual
        } else {
            TokenType::Greater
        }
    }
}

/// Keyword lookup: exact text, case-sensitive, applied only to a complete
/// maximal identifier run.
pub open spec fn keyword_kind(text: Seq<char>) -> TokenType {
    if text == "and"@ {
        TokenType::And
    } else if text == "class"@ {
        TokenType::Class
    } else if text == "else"@ {
        TokenType::Else
    } else if text == "false"@ {
        TokenType::False
    } else if text == "for"@ {
        TokenType::For
    } else if text == "fun"@ {
        TokenType::Fun
    } else if text == "if"@ {
        TokenType::If
    } else if text == "nil"@ {
        TokenType::Nil
    } else if text == "or"@ {
        TokenType::Or
    } else if text == "print"@ {
        TokenType::Print
    } else if text == "return"@ {
        TokenType::Return
    } else if text == "super"@ {
        TokenType::Super
    } else if text == "this"@ {
        TokenType::This
    } else if text == "true"@ {
        TokenType::True
    } else if text == "var"@ {
        TokenType::Var
    } else if text == "while"@ {
        TokenType::While
    } else {
        TokenType::Identifier
    }
}

/// What one step of the scan does, starting at byte `i` on line `line`:
/// where the cursor and the line counter land, and the at-most-one token
/// and at-most-one diagnostic the step yields.
pub struct StepResult {
    pub pos: int,
    pub line: int,
    pub token: Option<TokenModel>,
    pub error: Option<LexError>,
}

/// A step that only moves the cursor.
pub open spec fn step_skip(pos: int, line: int) -> StepResult {
    StepResult { pos, line, token: None, error: None }
}

/// A step that emits the token of `s[i..j]`, carrying `literal`.
pub open spec fn step_token(
    s: Seq<u8>,
    kind: TokenType,
    i: int,
    j: int,
    literal: Seq<char>,
    line: int,
) -> StepResult {
    StepResult {
        pos: j,
        line,
        token: Some(
            TokenModel { kind, lexeme: chars_of(s.subrange(i, j)), literal, line },
        ),
        error: None,
    }
}

/// One step of the scan, classifying the byte at `i`. A single forward
/// pass with one-character lookahead: exactly the algorithm the scanner
/// executes.
pub open spec fn scan_step(s: Seq<u8>, i: int, line: int) -> StepResult
    recommends
        0 <= i < s.len(),
{
    let b = s[i];
    if single_char_kind(b) is Some {
        step_token(s, single_char_kind(b)->Some_0, i, i + 1, Seq::empty(), line)
    } else if b == ('!' as u8) || b == ('=' as u8) || b == ('<' as u8) || b == ('>' as u8) {
        let two = i + 1 < s.len() && s[i + 1] == ('=' as u8);
        let j = if two {
            i + 2
        } else {
            i + 1
        };
        step_token(s, operator_kind(b, two), i, j, Seq::empty(), line)
    } else if b == ('/' as u8) {
        if i + 1 < s.len() && s[i + 1] == ('/' as u8) {
            // A comment: the rest of the physical line produces no token
            // and never itself advances the line counter.
            step_skip(i + 2 + comment_run_len(s, i + 2), line)
        } else {
            step_token(s, TokenType::Slash, i, i + 1, Seq::empty(), line)
        }
    } else if b == (' ' as u8) || b == ('\r' as u8) || b == ('\t' as u8) {
        step_skip(i + 1, line)
    } else if b == ('\n' as u8) {
        StepResult { pos: i + 1, line: line + 1, token: None, error: None }
    } else if b == ('"' as u8) {
        let body = string_body_len(s, i + 1);
        let close = i + 1 + body;
        let nl = newline_count(s, i + 1, close);
        if close < s.len() {
            // Closed string: the token starts on `line`; embedded newlines
            // advance the counter for what follows.
            StepResult {
                pos: close + 1,
                line: line + nl,
                token: Some(
                    TokenModel {
                        kind: TokenType::LoxString,
                        lexeme: chars_of(s.subrange(i, close + 1)),
                        literal: chars_of(s.subrange(i + 1, close)),
                        line,
                    },
                ),
                error: None,
            }
        } else {
            StepResult {
                pos: s.len() as int,
                line: line + nl,
                token: None,
                error: Some(
                    LexError { kind: LexErrorKind::UnterminatedString, line: (line + nl) as usize },
                ),
            }
        }
    } else if is_digit_byte(b) {
        let j1 = i + 1 + digit_run_len(s, i + 1);
        let j2 = if j1 < s.len() && s[j1] == ('.' as u8) && j1 + 1 < s.len() && is_digit_byte(s[j1 + 1]) {
            j1 + 1 + digit_run_len(s, j1 + 1)
        } else {
            j1
        };
        step_token(s, TokenType::Number, i, j2, chars_of(s.subrange(i, j2)), line)
    } else if is_alpha_byte(b) {
        let j = i + 1 + ident_run_len(s, i + 1);
        step_token(s, keyword_kind(chars_of(s.subrange(i, j))), i, j, Seq::empty(), line)
    } else {
        StepResult {
            pos: i + 1,
            line,
            token: None,
            error: Some(
                LexError { kind: LexErrorKind::UnexpectedCharacter(b), line: line as usize },
            ),
        }
    }
}

/// Everything a scan yields from a given cursor position on: its tokens in
/// order, its diagnostics in order, and the line the scan ends on.
pub struct ScanOutput {
    pub tokens: Seq<TokenModel>,
    pub errors: Seq<LexError>,
    pub end_line: int,
}

pub open spec fn opt_token_seq(t: Option<TokenModel>) -> Seq<TokenModel> {
    match t {
        Some(tok) => seq![tok],
        None => Seq::empty(),
    }
}

pub open spec fn opt_error_seq(e: Option<LexError>) -> Seq<LexError> {
    match e {
        Some(err) => seq![err],
        None => Seq::empty(),
    }
}

pub proof fn lemma_digit_run_le(s: Seq<u8>, i: int)
    requires
        0 <= i <= s.len(),
    ensures
        i + digit_run_len(s, i) <= s.len(),
    decreases s.len() - i,
{
    if i < s.len() && is_digit_byte(s[i]) {
        lemma_digit_run_le(s, i + 1);
    }
}

pub proof fn lemma_ident_run_le(s: Seq<u8>, i: int)
    requires
        0 <= i <= s.len(),
    ensures
        i + ident_run_len(s, i) <= s.len(),
    decreases s.len() - i,
{
    if i < s.len() && is_alpha_numeric_byte(s[i]) {
        lemma_ident_run_le(s, i + 1);
    }
}

pub proof fn lemma_comment_run_le(s: Seq<u8>, i: int)
    requires
        0 <= i <= s.len(),
    ensures
        i + comment_run_len(s, i) <= s.len(),
    decreases s.len() - i,
{
    if i < s.len() && s[i] != ('\n' as u8) {
        lemma_comment_run_le(s, i + 1);
    }
}

pub proof fn lemma_string_body_le(s: Seq<u8>, i: int)
    requires
        0 <= i <= s.len(),
    ensures
        i + string_body_len(s, i) <= s.len(),
    decreases s.len() - i,
{
    if i < s.len() && s[i] != ('"' as u8) {
        lemma_string_body_le(s, i + 1);
    }
}

/// Every step consumes at least one byte and never runs past the end.
pub proof fn lemma_scan_step_bounds(s: Seq<u8>, i: int, line: int)
    requires
        0 <= i < s.len(),
    ensures
        i < scan_step(s, i, line).pos <= s.len(),
{
    let b = s[i];
    if single_char_kind(b) is Some || b == ('!' as u8) || b == ('=' as u8) || b == ('<' as u8) || b == ('>' as u8) {
    } else if b == ('/' as u8) {
        if i + 1 < s.len() && s[i + 1] == ('/' as u8) {
            lemma_comment_run_le(s, i + 2);
        }
    } else if b == (' ' as u8) || b == ('\r' as u8) || b == ('\t' as u8) || b == ('\n' as u8) {
    } else if b == ('"' as u8) {
        lemma_string_body_le(s, i + 1);
    } else if is_digit_byte(b) {
        lemma_digit_run_le(s, i + 1);
        let j1 = i + 1 + digit_run_len(s, i + 1);
        if j1 < s.len() && s[j1] == ('.' as u8) && j1 + 1 < s.len() && is_digit_byte(s[j1 + 1]) {
            lemma_digit_run_le(s, j1 + 1);
        }
    } else if is_alpha_byte(b) {
        lemma_ident_run_le(s, i + 1);
    }
}

/// The scan from cursor `i` on line `line` to the end of the buffer. The
/// end-of-input token is appended separately by [`scan_spec`].
pub open spec fn scan_from(s: Seq<u8>, i: int, line: int) -> ScanOutput
    decreases s.len() - i,
{
    if !(0 <= i < s.len()) {
        ScanOutput { tokens: Seq::empty(), errors: Seq::empty(), end_line: line }
    } else {
        let st = scan_step(s, i, line);
        proof {
            lemma_scan_step_bounds(s, i, line);
        }
        let rest = scan_from(s, st.pos, st.line);
        ScanOutput {
            tokens: opt_token_seq(st.token) + rest.tokens,
            errors: opt_error_seq(st.error) + rest.errors,
            end_line: rest.end_line,
        }
    }
}

/// The end-of-input token: empty lexeme, no literal, at the final line.
pub open spec fn eof_model(line: int) -> TokenModel {
    TokenModel { kind: TokenType::EOF, lexeme: Seq::empty(), literal: Seq::empty(), line }
}

/// The complete scan of a source buffer: every token in order, terminated
/// by exactly one end-of-input token at the line of the last character
/// scanned, together with every diagnostic in order.
pub open spec fn scan_spec(s: Seq<u8>) -> ScanOutput {
    let o = scan_from(s, 0, 1);
    ScanOutput {
        tokens: o.tokens.push(eof_model(o.end_line)),
        errors: o.errors,
        end_line: o.end_line,
    }
}

/// The models of a sequence of produced tokens.
pub open spec fn toks_model(ts: Seq<Token>) -> Seq<TokenModel> {
    ts.map_values(|t: Token| t@)
}

pub proof fn lemma_toks_model_push(ts: Seq<Token>, t: Token)
    ensures
        toks_model(ts.push(t)) == toks_model(ts).push(t@),
{
    assert(toks_model(ts.push(t)) =~= toks_model(ts).push(t@));
}

} // verus!
