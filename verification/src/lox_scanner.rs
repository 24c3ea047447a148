//! The lexical scanner: one forward pass over a source byte buffer with a
//! one-character lookahead, proved to produce exactly the token and
//! diagnostic sequences of the model in [`crate::scan_model`].

use vstd::prelude::*;

use crate::diagnostics::{LexError, LexErrorKind};
use crate::scan_model::{
    chars_of, comment_run_len, digit_run_len, eof_model, ident_run_len, keyword_kind,
    lemma_scan_step_bounds, lemma_toks_model_push, newline_count, opt_error_seq, opt_token_seq,
    scan_from, scan_spec, scan_step, string_body_len, toks_model,
};
use crate::scan_model::{is_alpha_byte, is_digit_byte};
use crate::scanner::Scanner;
use crate::token::{push_char, Token, TokenModel, TokenType};
use vstd::string::StringExecFns;

verus! {

/// Consumes a source buffer and accumulates tokens and diagnostics.
/// `start` is the beginning of the current lexeme, `current` the next
/// unconsumed byte, and `line` the 1-based line the cursor is on.
pub struct LoxScanner<'a> {
    source: &'a [u8],
    tokens: Vec<Token>,
    errors: Vec<LexError>,
    start: usize,
    current: usize,
    line: usize,
}

/// Builds the text of `s[from..to]`, one character per byte.
fn string_from_range(s: &[u8], from: usize, to: usize) -> (r: String)
    requires
        from <= to <= s@.len(),
    ensures
        r@ == chars_of(s@.subrange(from as int, to as int)),
{
    let mut r = String::new();
    let mut i: usize = from;
    while i < to
        invariant
            from <= i <= to <= s@.len(),
            r@ == chars_of(s@.subrange(from as int, i as int)),
        decreases to - i,
    {
        push_char(&mut r, s[i] as char);
        proof {
            assert(s@.subrange(from as int, i + 1) =~= s@.subrange(from as int, i as int).push(
                s@[i as int],
            ));
            assert(chars_of(s@.subrange(from as int, i + 1)) =~= chars_of(
                s@.subrange(from as int, i as int),
            ).push(s@[i as int] as char));
        }
        i = i + 1;
    }
    proof {
        assert(s@.subrange(from as int, i as int) =~= s@.subrange(from as int, to as int));
    }
    r
}

/// An alphabetic character or underscore: what may begin an identifier.
fn is_alpha(c: char) -> (r: bool)
    ensures
        r == (('a' <= c && c <= 'z') || ('A' <= c && c <= 'Z') || c == '_'),
{
    (c >= 'a' && c <= 'z') || (c >= 'A' && c <= 'Z') || c == '_'
}

/// A decimal digit character.
fn is_digit(c: char) -> (r: bool)
    ensures
        r == ('0' <= c && c <= '9'),
{
    c >= '0' && c <= '9'
}

/// What may continue an identifier.
fn is_alpha_numeric(c: char) -> (r: bool)
    ensures
        r == (('a' <= c && c <= 'z') || ('A' <= c && c <= 'Z') || c == '_' || ('0' <= c && c
            <= '9')),
{
    is_alpha(c) || is_digit(c)
}

/// Compares the text of `text` against a keyword's spelling.
fn text_is(text: &String, kw: &str) -> (r: bool)
    ensures
        r == (text@ == kw@),
{
    let k = String::from_str(kw);
    *text == k
}

/// Keyword lookup: the matching keyword kind for exactly the 16 reserved
/// words, and `Identifier` for every other text.
fn lookup_keyword(text: &String) -> (kind: TokenType)
    ensures
        kind == keyword_kind(text@),
{
    if text_is(text, "and") {
        TokenType::And
    } else if text_is(text, "class") {
        TokenType::Class
    } else if text_is(text, "else") {
        TokenType::Else
    } else if text_is(text, "false") {
        TokenType::False
    } else if text_is(text, "for") {
        TokenType::For
    } else if text_is(text, "fun") {
        TokenType::Fun
    } else if text_is(text, "if") {
        TokenType::If
    } else if text_is(text, "nil") {
        TokenType::Nil
    } else if text_is(text, "or") {
        TokenType::Or
    } else if text_is(text, "print") {
        TokenType::Print
    } else if text_is(text, "return") {
        TokenType::Return
    } else if text_is(text, "super") {
        TokenType::Super
    } else if text_is(text, "this") {
        TokenType::This
    } else if text_is(text, "true") {
        TokenType::True
    } else if text_is(text, "var") {
        TokenType::Var
    } else if text_is(text, "while") {
        TokenType::While
    } else {
        TokenType::Identifier
    }
}

impl<'a> LoxScanner<'a> {
    /// States the scan can run from: the cursor is inside the buffer and
    /// the line counter cannot overflow while scanning the rest.
    pub closed spec fn wf_state(&self) -> bool {
        &&& self.current <= self.source@.len()
        &&& 1 <= self.line
        &&& self.line + (self.source@.len() - self.current) <= usize::MAX
    }

    /// A fresh scanner over `source`, ready to produce exactly the token
    /// and diagnostic sequences of the model scan of `source`.
    pub fn new(source: &'a [u8]) -> (scanner: Self)
        requires
            source@.len() < usize::MAX,
        ensures
            scanner.wf(),
            scanner.pending_tokens() == scan_spec(source@).tokens,
            scanner.pending_errors() == scan_spec(source@).errors,
            scanner.reported_errors() == Seq::<LexError>::empty(),
    {
        let scanner = LoxScanner {
            source,
            tokens: Vec::new(),
            errors: Vec::new(),
            start: 0,
            current: 0,
            line: 1,
        };
        proof {
            assert(toks_model(scanner.tokens@) =~= Seq::<TokenModel>::empty());
            assert(scanner.pending_tokens() =~= scan_spec(source@).tokens);
        }
        scanner
    }

    /// The diagnostics reported so far, in order of occurrence.
    pub fn errors(&self) -> (errors: &Vec<LexError>)
        ensures
            errors@ == self.reported_errors(),
    {
        &self.errors
    }

    fn is_at_end(&self) -> (r: bool)
        ensures
            r == (self.current >= self.source@.len()),
    {
        self.current >= self.source.len()
    }

    /// Consumes and returns the next byte as a character.
    fn advance(&mut self) -> (c: char)
        requires
            old(self).current < old(self).source@.len(),
        ensures
            final(self).source == old(self).source,
            final(self).tokens == old(self).tokens,
            final(self).errors == old(self).errors,
            final(self).start == old(self).start,
            final(self).line == old(self).line,
            final(self).current == old(self).current + 1,
            c == (old(self).source@[old(self).current as int] as char),
    {
        let res = self.source[self.current];
        self.current = self.current + 1;
        res as char
    }

    /// Consumes the next byte only when it is `next_expected_char`.
    fn match_next(&mut self, next_expected_char: char) -> (r: bool)
        requires
            old(self).current <= old(self).source@.len(),
        ensures
            final(self).source == old(self).source,
            final(self).tokens == old(self).tokens,
            final(self).errors == old(self).errors,
            final(self).start == old(self).start,
            final(self).line == old(self).line,
            r == (old(self).current < old(self).source@.len() && (old(self).source@[old(self).current as int] as char) == next_expected_char),
            final(self).current == old(self).current + (if r {
                1int
            } else {
                0int
            }),
    {
        if self.is_at_end() {
            false
        } else if (self.source[self.current] as char) != next_expected_char {
            false
        } else {
            self.current = self.current + 1;
            true
        }
    }

    /// The next unconsumed character, or `'\0'` at the end of the buffer.
    fn peek(&self) -> (c: char)
        ensures
            c == (if self.current < self.source@.len() {
                self.source@[self.current as int] as char
            } else {
                '\0'
            }),
    {
        if self.current >= self.source.len() {
            '\0'
        } else {
            self.source[self.current] as char
        }
    }

    /// The character after the next one, or `'\0'` past the end.
    fn peek_next(&self) -> (c: char)
        ensures
            c == (if self.current + 1 < self.source@.len() {
                self.source@[self.current + 1] as char
            } else {
                '\0'
            }),
    {
        let n: usize = self.source.len();
        if self.current >= n || self.current + 1 >= n {
            '\0'
        } else {
            self.source[self.current + 1] as char
        }
    }

    /// Appends the token of the current lexeme `source[start..current]`,
    /// with no literal value.
    fn add_token(&mut self, token_type: TokenType)
        requires
            old(self).start <= old(self).current <= old(self).source@.len(),
        ensures
            final(self).source == old(self).source,
            final(self).errors == old(self).errors,
            final(self).start == old(self).start,
            final(self).line == old(self).line,
            final(self).current == old(self).current,
            toks_model(final(self).tokens@) == toks_model(old(self).tokens@).push(
                (TokenModel {
                    kind: token_type,
                    lexeme: chars_of(
                        old(self).source@.subrange(
                            old(self).start as int,
                            old(self).current as int,
                        ),
                    ),
                    literal: Seq::<char>::empty(),
                    line: old(self).line as int,
                }),
            ),
    {
        self.add_full_token(token_type, None)
    }

    /// Appends the token of the current lexeme `source[start..current]`,
    /// carrying the given literal value.
    fn add_full_token(&mut self, token_type: TokenType, literal: Option<String>)
        requires
            old(self).start <= old(self).current <= old(self).source@.len(),
        ensures
            final(self).source == old(self).source,
            final(self).errors == old(self).errors,
            final(self).start == old(self).start,
            final(self).line == old(self).line,
            final(self).current == old(self).current,
            toks_model(final(self).tokens@) == toks_model(old(self).tokens@).push(
                (TokenModel {
                    kind: token_type,
                    lexeme: chars_of(
                        old(self).source@.subrange(
                            old(self).start as int,
                            old(self).current as int,
                        ),
                    ),
                    literal: (match literal {
                        Some(l) => l@,
                        None => Seq::<char>::empty(),
                    }),
                    line: old(self).line as int,
                }),
            ),
    {
        let lexeme = string_from_range(self.source, self.start, self.current);
        let lit = match literal {
            Some(l) => l,
            None => String::new(),
        };
        let token = Token::new(token_type, lexeme, lit, self.line);
        proof {
            lemma_toks_model_push(self.tokens@, token);
        }
        self.tokens.push(token);
    }

    /// Scans a string literal; the opening quote is already consumed and
    /// `start` points at it. A closed string's token starts on the line of
    /// the opening quote, and its literal value is the text strictly
    /// between the quotes; embedded newlines advance the line counter for
    /// what follows. At end-of-buffer the lexeme is abandoned and one
    /// unterminated-string diagnostic is reported at the final line.
    fn string(&mut self)
        requires
            old(self).wf_state(),
            old(self).start < old(self).source@.len(),
            old(self).current == old(self).start + 1,
            old(self).source@[old(self).start as int] == ('"' as u8),
        ensures
            final(self).source == old(self).source,
            final(self).start == old(self).start,
            final(self).wf_state(),
            ({
                let s = old(self).source@;
                let i = old(self).start as int;
                let body = string_body_len(s, i + 1);
                let close = i + 1 + body;
                let nl = newline_count(s, i + 1, close);
                &&& final(self).line == old(self).line + nl
                &&& (if close < s.len() {
                    &&& final(self).current == close + 1
                    &&& toks_model(final(self).tokens@) == toks_model(old(self).tokens@).push(
                        (TokenModel {
                            kind: TokenType::LoxString,
                            lexeme: chars_of(s.subrange(i, close + 1)),
                            literal: chars_of(s.subrange(i + 1, close)),
                            line: old(self).line as int,
                        }),
                    )
                    &&& final(self).errors == old(self).errors
                } else {
                    &&& final(self).current == s.len()
                    &&& final(self).tokens == old(self).tokens
                    &&& final(self).errors@ == old(self).errors@.push(
                        (LexError {
                            kind: LexErrorKind::UnterminatedString,
                            line: (old(self).line + nl) as usize,
                        }),
                    )
                })
            }),
    {
        let ghost s = self.source@;
        let ghost pre = *self;
        let ghost a = self.current as int;
        let mut nl: usize = 0;
        while self.peek() != '"' && !self.is_at_end()
            invariant
                self.source@ == s,
                self.start == pre.start,
                self.tokens == pre.tokens,
                self.errors == pre.errors,
                self.line == pre.line,
                a == pre.current,
                1 <= a <= self.current <= s.len(),
                self.wf_state(),
                forall|k: int| a <= k < self.current ==> s[k] != ('"' as u8),
                string_body_len(s, a) == (self.current - a) + string_body_len(
                    s,
                    self.current as int,
                ),
                nl == newline_count(s, a, self.current as int),
                nl <= self.current - a,
            decreases s.len() - self.current,
        {
            if self.peek() == '\n' {
                nl = nl + 1;
            }
            self.advance();
        }
        if self.is_at_end() {
            let new_line = self.line + nl;
            self.line = new_line;
            self.errors.push(LexError::new(LexErrorKind::UnterminatedString, new_line));
            return;
        }
        self.advance();
        let value = string_from_range(self.source, self.start + 1, self.current - 1);
        self.add_full_token(TokenType::LoxString, Some(value));
        self.line = self.line + nl;
    }

    /// Scans a number literal; the first digit is already consumed and
    /// `start` points at it. Consumes a maximal digit run, then one `.`
    /// followed by at least one digit (a trailing `.` is left for the next
    /// lexeme), then the fraction's maximal digit run. The token carries
    /// its exact digit text as its literal value.
    fn number(&mut self)
        requires
            old(self).wf_state(),
            old(self).start < old(self).source@.len(),
            old(self).current == old(self).start + 1,
            is_digit_byte(old(self).source@[old(self).start as int]),
        ensures
            final(self).source == old(self).source,
            final(self).start == old(self).start,
            final(self).errors == old(self).errors,
            final(self).line == old(self).line,
            final(self).wf_state(),
            ({
                let s = old(self).source@;
                let i = old(self).start as int;
                let j1 = i + 1 + digit_run_len(s, i + 1);
                let j2 = if j1 < s.len() && s[j1] == ('.' as u8) && j1 + 1 < s.len()
                    && is_digit_byte(s[j1 + 1]) {
                    j1 + 1 + digit_run_len(s, j1 + 1)
                } else {
                    j1
                };
                &&& final(self).current == j2
                &&& toks_model(final(self).tokens@) == toks_model(old(self).tokens@).push(
                    (TokenModel {
                        kind: TokenType::Number,
                        lexeme: chars_of(s.subrange(i, j2)),
                        literal: chars_of(s.subrange(i, j2)),
                        line: old(self).line as int,
                    }),
                )
            }),
    {
        let ghost s = self.source@;
        let ghost pre = *self;
        let ghost a = self.current as int;
        while is_digit(self.peek())
            invariant
                self.source@ == s,
                self.start == pre.start,
                self.tokens == pre.tokens,
                self.errors == pre.errors,
                self.line == pre.line,
                a == pre.current,
                a <= self.current <= s.len(),
                self.wf_state(),
                digit_run_len(s, a) == (self.current - a) + digit_run_len(s, self.current as int),
            decreases s.len() - self.current,
        {
            self.advance();
        }
        if self.peek() == '.' && is_digit(self.peek_next()) {
            self.advance();
            let ghost a2 = self.current as int;
            while is_digit(self.peek())
                invariant
                    self.source@ == s,
                    self.start == pre.start,
                    self.tokens == pre.tokens,
                    self.errors == pre.errors,
                    self.line == pre.line,
                    a2 == a + digit_run_len(s, a) + 1,
                    a2 <= self.current <= s.len(),
                    self.wf_state(),
                    digit_run_len(s, a2) == (self.current - a2) + digit_run_len(
                        s,
                        self.current as int,
                    ),
                decreases s.len() - self.current,
            {
                self.advance();
            }
        }
        let text = string_from_range(self.source, self.start, self.current);
        self.add_full_token(TokenType::Number, Some(text));
    }

    /// Scans an identifier or keyword; the first character is already
    /// consumed and `start` points at it. Consumes the maximal run of
    /// alphanumeric/underscore characters, then looks the complete text up
    /// in the keyword table.
    fn identifier(&mut self)
        requires
            old(self).wf_state(),
            old(self).start < old(self).source@.len(),
            old(self).current == old(self).start + 1,
            is_alpha_byte(old(self).source@[old(self).start as int]),
        ensures
            final(self).source == old(self).source,
            final(self).start == old(self).start,
            final(self).errors == old(self).errors,
            final(self).line == old(self).line,
            final(self).wf_state(),
            ({
                let s = old(self).source@;
                let i = old(self).start as int;
                let j = i + 1 + ident_run_len(s, i + 1);
                &&& final(self).current == j
                &&& toks_model(final(self).tokens@) == toks_model(old(self).tokens@).push(
                    (TokenModel {
                        kind: keyword_kind(chars_of(s.subrange(i, j))),
                        lexeme: chars_of(s.subrange(i, j)),
                        literal: Seq::<char>::empty(),
                        line: old(self).line as int,
                    }),
                )
            }),
    {
        let ghost s = self.source@;
        let ghost pre = *self;
        let ghost a = self.current as int;
        while is_alpha_numeric(self.peek())
            invariant
                self.source@ == s,
                self.start == pre.start,
                self.tokens == pre.tokens,
                self.errors == pre.errors,
                self.line == pre.line,
                a == pre.current,
                a <= self.current <= s.len(),
                self.wf_state(),
                ident_run_len(s, a) == (self.current - a) + ident_run_len(s, self.current as int),
            decreases s.len() - self.current,
        {
            self.advance();
        }
        let text = string_from_range(self.source, self.start, self.current);
        let kind = lookup_keyword(&text);
        self.add_full_token(kind, None);
    }

    /// Scans exactly one lexeme starting at `start == current`: performs
    /// one step of the model scan, appending the step's token and its
    /// diagnostic, if any.
    fn scan_token(&mut self)
        requires
            old(self).wf_state(),
            old(self).current < old(self).source@.len(),
            old(self).start == old(self).current,
        ensures
            final(self).source == old(self).source,
            final(self).wf_state(),
            ({
                let st = scan_step(
                    old(self).source@,
                    old(self).current as int,
                    old(self).line as int,
                );
                &&& final(self).current == st.pos
                &&& final(self).line == st.line
                &&& toks_model(final(self).tokens@) == toks_model(old(self).tokens@) + opt_token_seq(
                    st.token,
                )
                &&& final(self).errors@ == old(self).errors@ + opt_error_seq(st.error)
            }),
    {
        let c = self.advance();
        let token: Option<TokenType> = match c {
            '(' => Some(TokenType::LeftParen),
            ')' => Some(TokenType::RightParen),
            '{' => Some(TokenType::LeftBrace),
            '}' => Some(TokenType::RightBrace),
            ',' => Some(TokenType::Comma),
            '.' => Some(TokenType::Dot),
            '-' => Some(TokenType::Minus),
            '+' => Some(TokenType::Plus),
            ';' => Some(TokenType::SemiColon),
            '*' => Some(TokenType::Star),
            '!' => if self.match_next('=') {
                Some(TokenType::BangEqual)
            } else {
                Some(TokenType::Bang)
            },
            '=' => if self.match_next('=') {
                Some(TokenType::EqualEqual)
            } else {
                Some(TokenType::Equal)
            },
            '<' => if self.match_next('=') {
                Some(TokenType::LessEqual)
            } else {
                Some(TokenType::Less)
            },
            '>' => if self.match_next('=') {
                Some(TokenType::GreaterEqual)
            } else {
                Some(TokenType::Greater)
            },
            '/' => {
                if self.match_next('/') {
                    // A comment runs to the end of the physical line and
                    // produces no token; the terminating newline, if any,
                    // is consumed by the next step.
                    let ghost s = self.source@;
                    let ghost pre = *self;
                    let ghost a = self.current as int;
                    while self.peek() != '\n' && !self.is_at_end()
                        invariant
                            self.source@ == s,
                            self.start == pre.start,
                            self.tokens == pre.tokens,
                            self.errors == pre.errors,
                            self.line == pre.line,
                            a == pre.current,
                            a <= self.current <= s.len(),
                            self.wf_state(),
                            comment_run_len(s, a) == (self.current - a) + comment_run_len(
                                s,
                                self.current as int,
                            ),
                        decreases s.len() - self.current,
                    {
                        self.advance();
                    }
                    None
                } else {
                    Some(TokenType::Slash)
                }
            },
            ' ' => None,
            '\r' => None,
            '\t' => None,
            '\n' => {
                self.line = self.line + 1;
                None
            },
            '"' => {
                self.string();
                None
            },
            other => {
                if is_digit(other) {
                    self.number();
                } else if is_alpha(other) {
                    self.identifier();
                } else {
                    let e = LexError::new(
                        LexErrorKind::UnexpectedCharacter(other as u8),
                        self.line,
                    );
                    self.errors.push(e);
                }
                None
            },
        };
        match token {
            Some(t) => self.add_token(t),
            None => {},
        }
        proof {
            let st = scan_step(old(self).source@, old(self).current as int, old(self).line as int);
            assert(toks_model(self.tokens@) =~= toks_model(old(self).tokens@) + opt_token_seq(
                st.token,
            ));
            assert(self.errors@ =~= old(self).errors@ + opt_error_seq(st.error));
        }
    }
}

/// Clones an accumulated token sequence, model for model.
fn clone_tokens(ts: &Vec<Token>) -> (r: Vec<Token>)
    ensures
        toks_model(r@) == toks_model(ts@),
{
    let mut r: Vec<Token> = Vec::new();
    let mut i: usize = 0;
    while i < ts.len()
        invariant
            i <= ts@.len(),
            r@.len() == i,
            forall|k: int| 0 <= k < i ==> r@[k]@ == ts@[k]@,
        decreases ts@.len() - i,
    {
        let t = ts[i].clone();
        r.push(t);
        i = i + 1;
    }
    proof {
        assert(toks_model(r@) =~= toks_model(ts@));
    }
    r
}

impl<'a> Scanner for LoxScanner<'a> {
    open spec fn wf(&self) -> bool {
        self.wf_state()
    }

    closed spec fn pending_tokens(&self) -> Seq<TokenModel> {
        let o = scan_from(self.source@, self.current as int, self.line as int);
        toks_model(self.tokens@) + o.tokens + seq![eof_model(o.end_line)]
    }

    closed spec fn pending_errors(&self) -> Seq<LexError> {
        scan_from(self.source@, self.current as int, self.line as int).errors
    }

    closed spec fn reported_errors(&self) -> Seq<LexError> {
        self.errors@
    }

    /// Scans the whole buffer, one lexeme per iteration, then appends the
    /// single end-of-input token at the final line and returns every
    /// accumulated token.
    fn scan_tokens(&mut self) -> (tokens: Vec<Token>) {
        let ghost s = self.source@;
        let ghost pre = *self;
        while !self.is_at_end()
            invariant
                self.source@ == s,
                self.wf_state(),
                pre.source@ == s,
                toks_model(self.tokens@) + scan_from(
                    s,
                    self.current as int,
                    self.line as int,
                ).tokens == toks_model(pre.tokens@) + scan_from(
                    s,
                    pre.current as int,
                    pre.line as int,
                ).tokens,
                self.errors@ + scan_from(s, self.current as int, self.line as int).errors
                    == pre.errors@ + scan_from(s, pre.current as int, pre.line as int).errors,
                scan_from(s, self.current as int, self.line as int).end_line == scan_from(
                    s,
                    pre.current as int,
                    pre.line as int,
                ).end_line,
            decreases s.len() - self.current,
        {
            self.start = self.current;
            let ghost before = *self;
            self.scan_token();
            proof {
                let st = scan_step(s, before.current as int, before.line as int);
                assert(toks_model(self.tokens@) + scan_from(
                    s,
                    self.current as int,
                    self.line as int,
                ).tokens =~= toks_model(before.tokens@) + scan_from(
                    s,
                    before.current as int,
                    before.line as int,
                ).tokens);
                assert(self.errors@ + scan_from(s, self.current as int, self.line as int).errors
                    =~= before.errors@ + scan_from(
                    s,
                    before.current as int,
                    before.line as int,
                ).errors);
            }
        }
        let eof_line = self.line;
        let eof_token = Token::new(TokenType::EOF, String::new(), String::new(), eof_line);
        proof {
            lemma_toks_model_push(self.tokens@, eof_token);
        }
        self.tokens.push(eof_token);
        let result = clone_tokens(&self.tokens);
        proof {
            assert(toks_model(result@) =~= old(self).pending_tokens());
            assert(self.errors@ =~= old(self).errors@ + old(self).pending_errors());
        }
        result
    }
}

} // verus!
