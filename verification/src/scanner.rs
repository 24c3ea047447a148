//! The scanning capability: anything that can turn its source into an
//! ordered token sequence terminated by exactly one end-of-input token.

use vstd::prelude::*;

use crate::diagnostics::LexError;
use crate::scan_model::toks_model;
use crate::token::{Token, TokenModel};

verus! {

/// A producer of a token sequence. An implementor chooses what its
/// well-formed states are, which tokens a scan will yield from the current
/// state, and which diagnostics it will add while doing so; `scan_tokens`
/// is then bound to exactly that.
pub trait Scanner: Sized {
    /// States from which scanning may be asked to run.
    spec fn wf(&self) -> bool;

    /// The models of the tokens the next `scan_tokens` call returns.
    spec fn pending_tokens(&self) -> Seq<TokenModel>;

    /// The diagnostics the next `scan_tokens` call adds, in order.
    spec fn pending_errors(&self) -> Seq<LexError>;

    /// The diagnostics reported so far, in order.
    spec fn reported_errors(&self) -> Seq<LexError>;

    /// Scans to the end of the source. Never fails: lexical problems are
    /// reported as diagnostics and scanning continues, so the returned
    /// sequence is always complete.
    fn scan_tokens(&mut self) -> (tokens: Vec<Token>)
        requires
            old(self).wf(),
        ensures
            final(self).wf(),
            toks_model(tokens@) == old(self).pending_tokens(),
            final(self).reported_errors() == old(self).reported_errors() + old(self).pending_errors(),
    ;
}

} // verus!
