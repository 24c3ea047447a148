//! Front end of a small tree-walking interpreter: a lexical scanner that
//! turns raw source bytes into a stream of typed tokens, and an expression
//! tree with a double-dispatch visitor mechanism, including a
//! fully-parenthesized prefix printer.

pub mod ast_printer;
pub mod comment_laws;
pub mod diagnostics;
pub mod expression;
pub mod lox_parser;
pub mod lox_scanner;
pub mod scanner;
pub mod scan_laws;
pub mod scan_model;
pub mod token;
