//! Laws of the scan, proved of the model by induction: every scan ends in
//! exactly one end-of-input token, token lines never decrease, and every
//! fixed punctuator or operator token carries its canonical spelling as
//! its lexeme.

use vstd::prelude::*;

use crate::scan_model::{
    chars_of, lemma_scan_step_bounds, newline_count, scan_from, scan_spec, scan_step,
    string_body_len,
};
use crate::token::TokenType;

verus! {

pub proof fn lemma_newline_count_bounds(s: Seq<u8>, i: int, j: int)
    requires
        i <= j,
    ensures
        0 <= newline_count(s, i, j) <= j - i,
    decreases j - i,
{
    if i < j {
        lemma_newline_count_bounds(s, i, j - 1);
    }
}

/// No step of the scan itself emits an end-of-input token.
proof fn lemma_scan_from_no_eof(s: Seq<u8>, i: int, line: int)
    ensures
        forall|k: int|
            0 <= k < scan_from(s, i, line).tokens.len() ==> (#[trigger] scan_from(
                s,
                i,
                line,
            ).tokens[k]).kind != TokenType::EOF,
    decreases s.len() - i,
{
    if 0 <= i < s.len() {
        lemma_scan_step_bounds(s, i, line);
        let st = scan_step(s, i, line);
        lemma_scan_from_no_eof(s, st.pos, st.line);
    }
}

/// Law: for every input, the scan's token sequence is nonempty and ends
/// with exactly one end-of-input token: it stands last, and no other token
/// has that kind.
pub proof fn lemma_scan_terminator(s: Seq<u8>)
    ensures
        scan_spec(s).tokens.len() >= 1,
        scan_spec(s).tokens[scan_spec(s).tokens.len() - 1].kind == TokenType::EOF,
        forall|k: int|
            0 <= k < scan_spec(s).tokens.len() - 1 ==> (#[trigger] scan_spec(s).tokens[k]).kind
                != TokenType::EOF,
{
    lemma_scan_from_no_eof(s, 0, 1);
}

/// Every token of a scan from line `line` lies between `line` and the
/// final line, and the token lines never decrease.
proof fn lemma_scan_from_lines(s: Seq<u8>, i: int, line: int)
    ensures
        line <= scan_from(s, i, line).end_line,
        forall|k: int|
            0 <= k < scan_from(s, i, line).tokens.len() ==> line <= (#[trigger] scan_from(
                s,
                i,
                line,
            ).tokens[k]).line <= scan_from(s, i, line).end_line,
        forall|k1: int, k2: int|
            0 <= k1 <= k2 < scan_from(s, i, line).tokens.len() ==> (#[trigger] scan_from(
                s,
                i,
                line,
            ).tokens[k1]).line <= (#[trigger] scan_from(s, i, line).tokens[k2]).line,
    decreases s.len() - i,
{
    if 0 <= i < s.len() {
        lemma_scan_step_bounds(s, i, line);
        let st = scan_step(s, i, line);
        if s[i] == ('"' as u8) {
            lemma_newline_count_bounds(s, i + 1, i + 1 + string_body_len(s, i + 1));
        }
        lemma_scan_from_lines(s, st.pos, st.line);
    }
}

/// Law: for every input, the `line` field is monotonically non-decreasing
/// across the scan's token sequence, the end-of-input token included.
pub proof fn lemma_scan_lines_monotone(s: Seq<u8>)
    ensures
        forall|k1: int, k2: int|
            0 <= k1 <= k2 < scan_spec(s).tokens.len() ==> (#[trigger] scan_spec(
                s,
            ).tokens[k1]).line <= (#[trigger] scan_spec(s).tokens[k2]).line,
{
    lemma_scan_from_lines(s, 0, 1);
}

/// The canonical source spelling of each fixed punctuator or operator
/// kind; the data-dependent kinds have none.
pub open spec fn fixed_spelling(kind: TokenType) -> Option<Seq<char>> {
    match kind {
        TokenType::LeftParen => Some("("@),
        TokenType::RightParen => Some(")"@),
        TokenType::LeftBrace => Some("{"@),
        TokenType::RightBrace => Some("}"@),
        TokenType::Comma => Some(","@),
        TokenType::Dot => Some("."@),
        TokenType::Minus => Some("-"@),
        TokenType::Plus => Some("+"@),
        TokenType::SemiColon => Some(";"@),
        TokenType::Slash => Some("/"@),
        TokenType::Star => Some("*"@),
        TokenType::Bang => Some("!"@),
        TokenType::BangEqual => Some("!="@),
        TokenType::Equal => Some("="@),
        TokenType::EqualEqual => Some("=="@),
        TokenType::Less => Some("<"@),
        TokenType::LessEqual => Some("<="@),
        TokenType::Greater => Some(">"@),
        TokenType::GreaterEqual => Some(">="@),
        _ => None,
    }
}

proof fn lemma_chars_one(s: Seq<u8>, i: int)
    requires
        0 <= i < s.len(),
    ensures
        chars_of(s.subrange(i, i + 1)) =~= seq![s[i] as char],
{
}

proof fn lemma_chars_two(s: Seq<u8>, i: int)
    requires
        0 <= i,
        i + 2 <= s.len(),
    ensures
        chars_of(s.subrange(i, i + 2)) =~= seq![s[i] as char, s[i + 1] as char],
{
}

/// Every token a scan step emits whose kind has a canonical spelling
/// carries exactly that spelling as its lexeme.
proof fn lemma_scan_from_spelling(s: Seq<u8>, i: int, line: int)
    ensures
        forall|k: int|
            0 <= k < scan_from(s, i, line).tokens.len() ==> (fixed_spelling(
                (#[trigger] scan_from(s, i, line).tokens[k]).kind,
            ) is Some ==> scan_from(s, i, line).tokens[k].lexeme == fixed_spelling(
                scan_from(s, i, line).tokens[k].kind,
            )->Some_0),
    decreases s.len() - i,
{
    if 0 <= i < s.len() {
        lemma_scan_step_bounds(s, i, line);
        let st = scan_step(s, i, line);
        lemma_scan_from_spelling(s, st.pos, st.line);
        let b = s[i];
        if b == ('(' as u8) {
            lemma_chars_one(s, i);
            reveal_strlit("(");
            assert(chars_of(s.subrange(i, i + 1)) =~= "("@);
        } else if b == (')' as u8) {
            lemma_chars_one(s, i);
            reveal_strlit(")");
            assert(chars_of(s.subrange(i, i + 1)) =~= ")"@);
        } else if b == ('{' as u8) {
            lemma_chars_one(s, i);
            reveal_strlit("{");
            assert(chars_of(s.subrange(i, i + 1)) =~= "{"@);
        } else if b == ('}' as u8) {
            lemma_chars_one(s, i);
            reveal_strlit("}");
            assert(chars_of(s.subrange(i, i + 1)) =~= "}"@);
        } else if b == (',' as u8) {
            lemma_chars_one(s, i);
            reveal_strlit(",");
            assert(chars_of(s.subrange(i, i + 1)) =~= ","@);
        } else if b == ('.' as u8) {
            lemma_chars_one(s, i);
            reveal_strlit(".");
            assert(chars_of(s.subrange(i, i + 1)) =~= "."@);
        } else if b == ('-' as u8) {
            lemma_chars_one(s, i);
            reveal_strlit("-");
            assert(chars_of(s.subrange(i, i + 1)) =~= "-"@);
        } else if b == ('+' as u8) {
            lemma_chars_one(s, i);
            reveal_strlit("+");
            assert(chars_of(s.subrange(i, i + 1)) =~= "+"@);
        } else if b == (';' as u8) {
            lemma_chars_one(s, i);
            reveal_strlit(";");
            assert(chars_of(s.subrange(i, i + 1)) =~= ";"@);
        } else if b == ('*' as u8) {
            lemma_chars_one(s, i);
            reveal_strlit("*");
            assert(chars_of(s.subrange(i, i + 1)) =~= "*"@);
        } else if b == ('!' as u8) || b == ('=' as u8) || b == ('<' as u8) || b == ('>' as u8) {
            if i + 1 < s.len() && s[i + 1] == ('=' as u8) {
                lemma_chars_two(s, i);
                if b == ('!' as u8) {
                    reveal_strlit("!=");
                    assert(chars_of(s.subrange(i, i + 2)) =~= "!="@);
                } else if b == ('=' as u8) {
                    reveal_strlit("==");
                    assert(chars_of(s.subrange(i, i + 2)) =~= "=="@);
                } else if b == ('<' as u8) {
                    reveal_strlit("<=");
                    assert(chars_of(s.subrange(i, i + 2)) =~= "<="@);
                } else {
                    reveal_strlit(">=");
                    assert(chars_of(s.subrange(i, i + 2)) =~= ">="@);
                }
            } else {
                lemma_chars_one(s, i);
                if b == ('!' as u8) {
                    reveal_strlit("!");
                    assert(chars_of(s.subrange(i, i + 1)) =~= "!"@);
                } else if b == ('=' as u8) {
                    reveal_strlit("=");
                    assert(chars_of(s.subrange(i, i + 1)) =~= "="@);
                } else if b == ('<' as u8) {
                    reveal_strlit("<");
                    assert(chars_of(s.subrange(i, i + 1)) =~= "<"@);
                } else {
                    reveal_strlit(">");
                    assert(chars_of(s.subrange(i, i + 1)) =~= ">"@);
                }
            }
        } else if b == ('/' as u8) {
            if !(i + 1 < s.len() && s[i + 1] == ('/' as u8)) {
                lemma_chars_one(s, i);
                reveal_strlit("/");
                assert(chars_of(s.subrange(i, i + 1)) =~= "/"@);
            }
        }
    }
}

/// Law: every token whose kind is a fixed punctuator or operator has
/// exactly that operator's canonical source spelling as its lexeme.
pub proof fn lemma_scan_operator_lexemes(s: Seq<u8>)
    ensures
        forall|k: int|
            0 <= k < scan_spec(s).tokens.len() ==> (fixed_spelling(
                (#[trigger] scan_spec(s).tokens[k]).kind,
            ) is Some ==> scan_spec(s).tokens[k].lexeme == fixed_spelling(
                scan_spec(s).tokens[k].kind,
            )->Some_0),
{
    lemma_scan_from_spelling(s, 0, 1);
}

} // verus!
