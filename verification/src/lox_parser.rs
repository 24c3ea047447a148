//! Token-stream navigation for the recursive-descent parser: a cursor over
//! a scanned token sequence that always ends in the end-of-input token.
//! The expression grammar itself is an external collaborator and is not
//! defined here; these are the movements it builds on.

use vstd::prelude::*;

use crate::token::{Token, TokenType};

verus! {

/// A cursor over a token sequence. Well-formed states keep the cursor on a
/// token, and the last token is always end-of-input, so the cursor can
/// never be advanced past it.
pub struct LoxParser {
    tokens: Vec<Token>,
    current: usize,
}

impl LoxParser {
    /// The token sequence under the cursor.
    pub closed spec fn toks(&self) -> Seq<Token> {
        self.tokens@
    }

    /// Where the cursor stands.
    pub closed spec fn cursor(&self) -> int {
        self.current as int
    }

    /// The cursor is on a token and the sequence ends with end-of-input.
    pub closed spec fn wf(&self) -> bool {
        &&& self.tokens@.len() >= 1
        &&& self.tokens@[self.tokens@.len() - 1]@.kind == TokenType::EOF
        &&& self.current < self.tokens@.len()
    }

    /// A parser at the start of `tokens`, which must be a complete scan
    /// output: nonempty and terminated by the end-of-input token.
    pub fn new(tokens: Vec<Token>) -> (p: LoxParser)
        requires
            tokens@.len() >= 1,
            tokens@[tokens@.len() - 1]@.kind == TokenType::EOF,
        ensures
            p.wf(),
            p.toks() == tokens@,
            p.cursor() == 0,
    {
        LoxParser { tokens, current: 0 }
    }

    /// The token under the cursor.
    pub fn peek(&self) -> (t: Token)
        requires
            self.wf(),
        ensures
            t@ == self.toks()[self.cursor()]@,
    {
        self.tokens[self.current].clone()
    }

    /// The token just before the cursor.
    pub fn previous(&self) -> (t: Token)
        requires
            self.wf(),
            self.cursor() >= 1,
        ensures
            t@ == self.toks()[self.cursor() - 1]@,
    {
        self.tokens[self.current - 1].clone()
    }

    /// Whether the cursor has reached the end-of-input token.
    pub fn is_at_end(&self) -> (r: bool)
        requires
            self.wf(),
        ensures
            r == (self.toks()[self.cursor()]@.kind == TokenType::EOF),
    {
        self.peek().token_type == TokenType::EOF
    }

    /// Whether the token under the cursor has the given kind; always false
    /// at end-of-input.
    pub fn check(&self, token_type: &TokenType) -> (r: bool)
        requires
            self.wf(),
        ensures
            r == (self.toks()[self.cursor()]@.kind != TokenType::EOF && self.toks()[self.cursor()]@.kind
                == *token_type),
    {
        if self.is_at_end() {
            return false;
        }
        self.peek().token_type == *token_type
    }

    /// Consumes the token under the cursor and returns it; at end-of-input
    /// the cursor stays put and the preceding token is returned.
    pub fn advance(&mut self) -> (t: Token)
        requires
            old(self).wf(),
            old(self).cursor() >= 1 || old(self).toks()[old(self).cursor()]@.kind
                != TokenType::EOF,
        ensures
            final(self).wf(),
            final(self).toks() == old(self).toks(),
            final(self).cursor() == old(self).cursor() + (if old(self).toks()[old(
                self,
            ).cursor()]@.kind == TokenType::EOF {
                0int
            } else {
                1int
            }),
            t@ == old(self).toks()[final(self).cursor() - 1]@,
    {
        let n: usize = self.tokens.len();
        if !self.is_at_end() {
            assert(self.current < n);
            self.current = self.current + 1;
        }
        self.previous()
    }

    /// Consumes the token under the cursor exactly when its kind is one of
    /// `types`, and says whether it did.
    pub fn match_token(&mut self, types: Vec<TokenType>) -> (r: bool)
        requires
            old(self).wf(),
        ensures
            final(self).wf(),
            final(self).toks() == old(self).toks(),
            r == (old(self).toks()[old(self).cursor()]@.kind != TokenType::EOF && exists|k: int|
                0 <= k < types@.len() && old(self).toks()[old(self).cursor()]@.kind == types@[k]),
            final(self).cursor() == old(self).cursor() + (if r {
                1int
            } else {
                0int
            }),
    {
        let mut i: usize = 0;
        while i < types.len()
            invariant
                *self == *old(self),
                old(self).wf(),
                i <= types@.len(),
                forall|k: int|
                    0 <= k < i ==> !(old(self).toks()[old(self).cursor()]@.kind != TokenType::EOF
                        && old(self).toks()[old(self).cursor()]@.kind == types@[k]),
            decreases types@.len() - i,
        {
            if self.check(&types[i]) {
                self.advance();
                return true;
            }
            i = i + 1;
        }
        false
    }
}

} // verus!
