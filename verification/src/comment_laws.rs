//! Law of comment insertion: splicing a `//...` comment (with its closing
//! newline) into a source at any legal token boundary leaves the token
//! sequence unchanged except that everything from the insertion point on
//! moves down one line. Legal boundaries are the positions where a lexeme
//! may start: the cursor positions the scan itself visits, except inside
//! an unterminated string, whose end-of-buffer lies mid-lexeme. The one
//! boundary excluded is a position directly after a `/`: there the
//! inserted `//` would fuse with that slash into a comment and swallow it.

use vstd::prelude::*;

use crate::diagnostics::LexError;
use crate::scan_laws::lemma_newline_count_bounds;
use crate::scan_model::{
    chars_of, comment_run_len, digit_run_len, ident_run_len, lemma_scan_step_bounds,
    newline_count, opt_error_seq, opt_token_seq, scan_from, scan_spec, scan_step,
    string_body_len,
};
use crate::token::TokenModel;

verus! {

/// The spliced-in bytes: two slashes, the comment text, one newline.
pub open spec fn comment_bytes(ctext: Seq<u8>) -> Seq<u8> {
    seq![('/' as u8), ('/' as u8)] + ctext + seq![('\n' as u8)]
}

/// `s` with a comment spliced in at position `i`.
pub open spec fn spliced(s: Seq<u8>, i: int, ctext: Seq<u8>) -> Seq<u8> {
    s.subrange(0, i) + comment_bytes(ctext) + s.subrange(i, s.len() as int)
}

/// A `"` at `c` that never closes: the rest of the buffer is its body.
pub open spec fn unterminated_string_at(s: Seq<u8>, c: int) -> bool {
    &&& 0 <= c < s.len()
    &&& s[c] == ('"' as u8)
    &&& c + 1 + string_body_len(s, c + 1) >= s.len()
}

/// Positions the scan visits as lexeme starts when it runs from cursor
/// `c`, together with the clean end of the buffer; the interior of an
/// unterminated string is no boundary.
pub open spec fn is_boundary_from(s: Seq<u8>, c: int, i: int) -> bool
    decreases s.len() - c,
{
    if i == c {
        true
    } else if !(0 <= c < s.len()) {
        false
    } else if unterminated_string_at(s, c) {
        false
    } else {
        proof {
            lemma_scan_step_bounds(s, c, 1);
        }
        is_boundary_from(s, scan_step(s, c, 1).pos, i)
    }
}

/// A legal token boundary of `s`.
pub open spec fn is_boundary(s: Seq<u8>, i: int) -> bool {
    is_boundary_from(s, 0, i)
}

/// The same token, one line-count effect applied.
pub open spec fn shift_token(t: TokenModel, d: int) -> TokenModel {
    TokenModel { kind: t.kind, lexeme: t.lexeme, literal: t.literal, line: t.line + d }
}

/// The same diagnostic, one line-count effect applied.
pub open spec fn shift_error(e: LexError, d: int) -> LexError {
    LexError { kind: e.kind, line: (e.line + d) as usize }
}

/// Where a step lands does not depend on the line counter.
proof fn lemma_step_pos_line(s: Seq<u8>, c: int, l1: int, l2: int)
    requires
        0 <= c < s.len(),
    ensures
        scan_step(s, c, l1).pos == scan_step(s, c, l2).pos,
{
}

/// Boundaries lie ahead of the cursor they are reached from.
proof fn lemma_boundary_le(s: Seq<u8>, c: int, i: int)
    requires
        is_boundary_from(s, c, i),
    ensures
        c <= i,
    decreases s.len() - c,
{
    if i != c {
        lemma_scan_step_bounds(s, c, 1);
        lemma_boundary_le(s, scan_step(s, c, 1).pos, i);
    }
}

/// A step's line counter moves by at least zero and at most one per byte
/// consumed.
proof fn lemma_step_line_growth(s: Seq<u8>, c: int, line: int)
    requires
        0 <= c < s.len(),
    ensures
        line <= scan_step(s, c, line).line <= line + (scan_step(s, c, line).pos - c),
{
    lemma_scan_step_bounds(s, c, line);
    if s[c] == ('"' as u8) {
        let body = string_body_len(s, c + 1);
        crate::scan_model::lemma_string_body_le(s, c + 1);
        lemma_newline_count_bounds(s, c + 1, c + 1 + body);
    }
}

/// The bytes of a comment body are free of newlines, and the byte that
/// ends it, if any, is one.
proof fn lemma_crl_char(s: Seq<u8>, k: int)
    requires
        0 <= k <= s.len(),
    ensures
        forall|j: int| k <= j < k + comment_run_len(s, k) ==> s[j] != ('\n' as u8),
        k + comment_run_len(s, k) == s.len() || s[k + comment_run_len(s, k)] == ('\n' as u8),
    decreases s.len() - k,
{
    if k < s.len() && s[k] != ('\n' as u8) {
        lemma_crl_char(s, k + 1);
    }
}

/// A run of non-newline bytes closed by a newline is exactly a comment
/// body.
proof fn lemma_crl_exact(s: Seq<u8>, k: int, p: int)
    requires
        0 <= k <= p < s.len(),
        forall|j: int| k <= j < p ==> s[j] != ('\n' as u8),
        s[p] == ('\n' as u8),
    ensures
        comment_run_len(s, k) == p - k,
    decreases p - k,
{
    if k < p {
        lemma_crl_exact(s, k + 1, p);
    }
}

/// What the spliced buffer holds where: the untouched prefix, the two
/// slashes, the comment text, the newline, and the shifted suffix.
proof fn lemma_spliced_facts(s: Seq<u8>, i: int, ctext: Seq<u8>)
    requires
        0 <= i <= s.len(),
    ensures
        spliced(s, i, ctext).len() == s.len() + ctext.len() + 3,
        forall|j: int| 0 <= j < i ==> spliced(s, i, ctext)[j] == s[j],
        spliced(s, i, ctext)[i] == ('/' as u8),
        spliced(s, i, ctext)[i + 1] == ('/' as u8),
        forall|j: int| 0 <= j < ctext.len() ==> spliced(s, i, ctext)[i + 2 + j] == ctext[j],
        spliced(s, i, ctext)[i + 2 + ctext.len()] == ('\n' as u8),
        forall|j: int|
            i <= j < s.len() ==> spliced(s, i, ctext)[j + ctext.len() + 3] == s[j],
{
}

/// Digit runs that stop before the insertion point are unchanged by the
/// splice: the splice's first byte is a slash, which no run crosses into.
proof fn lemma_drl_agree(s: Seq<u8>, s2: Seq<u8>, i: int, k: int)
    requires
        0 <= k <= i <= s.len(),
        i < s2.len(),
        forall|j: int| 0 <= j < i ==> s2[j] == s[j],
        s2[i] == ('/' as u8),
        k + digit_run_len(s, k) <= i,
    ensures
        digit_run_len(s2, k) == digit_run_len(s, k),
    decreases i - k,
{
    if k < s.len() && crate::scan_model::is_digit_byte(s[k]) {
        lemma_drl_agree(s, s2, i, k + 1);
    }
}

/// As [`lemma_drl_agree`], for identifier runs.
proof fn lemma_irl_agree(s: Seq<u8>, s2: Seq<u8>, i: int, k: int)
    requires
        0 <= k <= i <= s.len(),
        i < s2.len(),
        forall|j: int| 0 <= j < i ==> s2[j] == s[j],
        s2[i] == ('/' as u8),
        k + ident_run_len(s, k) <= i,
    ensures
        ident_run_len(s2, k) == ident_run_len(s, k),
    decreases i - k,
{
    if k < s.len() && crate::scan_model::is_alpha_numeric_byte(s[k]) {
        lemma_irl_agree(s, s2, i, k + 1);
    }
}

/// Comment bodies that end strictly before the insertion point (at a
/// newline) are unchanged by the splice.
proof fn lemma_crl_agree(s: Seq<u8>, s2: Seq<u8>, i: int, k: int)
    requires
        0 <= k <= i <= s.len(),
        i <= s2.len(),
        forall|j: int| 0 <= j < i ==> s2[j] == s[j],
        k + comment_run_len(s, k) < i,
    ensures
        comment_run_len(s2, k) == comment_run_len(s, k),
    decreases i - k,
{
    if k < s.len() && s[k] != ('\n' as u8) {
        lemma_crl_agree(s, s2, i, k + 1);
    }
}

/// String bodies whose closing quote lies before the insertion point are
/// unchanged by the splice.
proof fn lemma_sbl_agree(s: Seq<u8>, s2: Seq<u8>, i: int, k: int)
    requires
        0 <= k <= i <= s.len(),
        i <= s2.len(),
        forall|j: int| 0 <= j < i ==> s2[j] == s[j],
        k + string_body_len(s, k) < i,
    ensures
        string_body_len(s2, k) == string_body_len(s, k),
    decreases i - k,
{
    if k < s.len() && s[k] != ('"' as u8) {
        lemma_sbl_agree(s, s2, i, k + 1);
    }
}

/// Newline counts over a range below the insertion point are unchanged by
/// the splice.
proof fn lemma_nc_agree(s: Seq<u8>, s2: Seq<u8>, i: int, a: int, b: int)
    requires
        a <= b <= i,
        forall|j: int| 0 <= j < i ==> s2[j] == s[j],
        0 <= a,
    ensures
        newline_count(s2, a, b) == newline_count(s, a, b),
    decreases b - a,
{
    if a < b {
        lemma_nc_agree(s, s2, i, a, b - 1);
    }
}

/// Digit runs only depend on the bytes from their start on.
proof fn lemma_drl_translate(s: Seq<u8>, s2: Seq<u8>, off: int, k: int)
    requires
        0 <= k <= s.len(),
        0 <= k + off,
        s2.len() == s.len() + off,
        forall|j: int| k <= j < s.len() ==> s2[j + off] == s[j],
    ensures
        digit_run_len(s2, k + off) == digit_run_len(s, k),
    decreases s.len() - k,
{
    if k < s.len() && crate::scan_model::is_digit_byte(s[k]) {
        lemma_drl_translate(s, s2, off, k + 1);
    }
}

/// As [`lemma_drl_translate`], for identifier runs.
proof fn lemma_irl_translate(s: Seq<u8>, s2: Seq<u8>, off: int, k: int)
    requires
        0 <= k <= s.len(),
        0 <= k + off,
        s2.len() == s.len() + off,
        forall|j: int| k <= j < s.len() ==> s2[j + off] == s[j],
    ensures
        ident_run_len(s2, k + off) == ident_run_len(s, k),
    decreases s.len() - k,
{
    if k < s.len() && crate::scan_model::is_alpha_numeric_byte(s[k]) {
        lemma_irl_translate(s, s2, off, k + 1);
    }
}

/// As [`lemma_drl_translate`], for comment bodies.
proof fn lemma_crl_translate(s: Seq<u8>, s2: Seq<u8>, off: int, k: int)
    requires
        0 <= k <= s.len(),
        0 <= k + off,
        s2.len() == s.len() + off,
        forall|j: int| k <= j < s.len() ==> s2[j + off] == s[j],
    ensures
        comment_run_len(s2, k + off) == comment_run_len(s, k),
    decreases s.len() - k,
{
    if k < s.len() && s[k] != ('\n' as u8) {
        lemma_crl_translate(s, s2, off, k + 1);
    }
}

/// As [`lemma_drl_translate`], for string bodies.
proof fn lemma_sbl_translate(s: Seq<u8>, s2: Seq<u8>, off: int, k: int)
    requires
        0 <= k <= s.len(),
        0 <= k + off,
        s2.len() == s.len() + off,
        forall|j: int| k <= j < s.len() ==> s2[j + off] == s[j],
    ensures
        string_body_len(s2, k + off) == string_body_len(s, k),
    decreases s.len() - k,
{
    if k < s.len() && s[k] != ('"' as u8) {
        lemma_sbl_translate(s, s2, off, k + 1);
    }
}

/// As [`lemma_drl_translate`], for newline counts.
proof fn lemma_nc_translate(s: Seq<u8>, s2: Seq<u8>, off: int, a: int, b: int)
    requires
        0 <= a <= b <= s.len(),
        0 <= a + off,
        s2.len() == s.len() + off,
        forall|j: int| a <= j < s.len() ==> s2[j + off] == s[j],
    ensures
        newline_count(s2, a + off, b + off) == newline_count(s, a, b),
    decreases b - a,
{
    if a < b {
        lemma_nc_translate(s, s2, off, a, b - 1);
    }
}

/// Starting the same scan one line later shifts every token and
/// diagnostic line by exactly that much and nothing else.
proof fn lemma_scan_from_shift(s: Seq<u8>, c: int, line: int, d: int)
    requires
        0 <= c,
        1 <= line,
        0 <= d,
        line + d + (s.len() - c) <= usize::MAX,
    ensures
        scan_from(s, c, line + d).tokens == scan_from(s, c, line).tokens.map_values(
            |t: TokenModel| shift_token(t, d),
        ),
        scan_from(s, c, line + d).errors == scan_from(s, c, line).errors.map_values(
            |e: LexError| shift_error(e, d),
        ),
        scan_from(s, c, line + d).end_line == scan_from(s, c, line).end_line + d,
    decreases s.len() - c,
{
    if 0 <= c < s.len() {
        lemma_scan_step_bounds(s, c, line);
        lemma_step_line_growth(s, c, line);
        if s[c] == ('"' as u8) {
            crate::scan_model::lemma_string_body_le(s, c + 1);
            lemma_newline_count_bounds(s, c + 1, c + 1 + string_body_len(s, c + 1));
        }
        let st1 = scan_step(s, c, line);
        let st2 = scan_step(s, c, line + d);
        lemma_scan_from_shift(s, st1.pos, st1.line, d);
        assert(st2.pos == st1.pos);
        assert(st2.line == st1.line + d);
        assert(scan_from(s, c, line + d).tokens =~= scan_from(s, c, line).tokens.map_values(
            |t: TokenModel| shift_token(t, d),
        ));
        assert(scan_from(s, c, line + d).errors =~= scan_from(s, c, line).errors.map_values(
            |e: LexError| shift_error(e, d),
        ));
    } else {
        assert(scan_from(s, c, line + d).tokens =~= scan_from(s, c, line).tokens.map_values(
            |t: TokenModel| shift_token(t, d),
        ));
        assert(scan_from(s, c, line + d).errors =~= scan_from(s, c, line).errors.map_values(
            |e: LexError| shift_error(e, d),
        ));
    }
}

/// One scan step reads nothing before its own start: shifting the whole
/// suffix shifts the step.
proof fn lemma_step_translate(s: Seq<u8>, s2: Seq<u8>, off: int, c: int, line: int)
    requires
        0 <= c < s.len(),
        0 <= c + off,
        s2.len() == s.len() + off,
        forall|j: int| c <= j < s.len() ==> s2[j + off] == s[j],
    ensures
        scan_step(s2, c + off, line).pos == scan_step(s, c, line).pos + off,
        scan_step(s2, c + off, line).line == scan_step(s, c, line).line,
        scan_step(s2, c + off, line).token == scan_step(s, c, line).token,
        scan_step(s2, c + off, line).error == scan_step(s, c, line).error,
{
    lemma_scan_step_bounds(s, c, line);
    let b = s[c];
    assert(s2[c + off] == b);
    if crate::scan_model::single_char_kind(b) is Some {
        assert(chars_of(s2.subrange(c + off, c + 1 + off)) =~= chars_of(s.subrange(c, c + 1)));
    } else if b == ('!' as u8) || b == ('=' as u8) || b == ('<' as u8) || b == ('>' as u8) {
        if c + 1 < s.len() {
            assert(s2[c + 1 + off] == s[c + 1]);
        }
        assert(chars_of(s2.subrange(c + off, c + 1 + off)) =~= chars_of(s.subrange(c, c + 1)));
        if c + 1 < s.len() && s[c + 1] == ('=' as u8) {
            assert(chars_of(s2.subrange(c + off, c + 2 + off)) =~= chars_of(
                s.subrange(c, c + 2),
            ));
        }
    } else if b == ('/' as u8) {
        if c + 1 < s.len() {
            assert(s2[c + 1 + off] == s[c + 1]);
        }
        if c + 1 < s.len() && s[c + 1] == ('/' as u8) {
            lemma_crl_translate(s, s2, off, c + 2);
        } else {
            assert(chars_of(s2.subrange(c + off, c + 1 + off)) =~= chars_of(
                s.subrange(c, c + 1),
            ));
        }
    } else if b == (' ' as u8) || b == ('\r' as u8) || b == ('\t' as u8) || b == ('\n' as u8) {
    } else if b == ('"' as u8) {
        let body = string_body_len(s, c + 1);
        crate::scan_model::lemma_string_body_le(s, c + 1);
        lemma_sbl_translate(s, s2, off, c + 1);
        lemma_nc_translate(s, s2, off, c + 1, c + 1 + body);
        if c + 1 + body < s.len() {
            assert(chars_of(s2.subrange(c + off, c + 2 + body + off)) =~= chars_of(
                s.subrange(c, c + 2 + body),
            ));
            assert(chars_of(s2.subrange(c + 1 + off, c + 1 + body + off)) =~= chars_of(
                s.subrange(c + 1, c + 1 + body),
            ));
        }
    } else if crate::scan_model::is_digit_byte(b) {
        crate::scan_model::lemma_digit_run_le(s, c + 1);
        lemma_drl_translate(s, s2, off, c + 1);
        let j1 = c + 1 + digit_run_len(s, c + 1);
        if j1 < s.len() {
            assert(s2[j1 + off] == s[j1]);
        }
        if j1 + 1 < s.len() {
            assert(s2[j1 + 1 + off] == s[j1 + 1]);
        }
        if j1 < s.len() && s[j1] == ('.' as u8) && j1 + 1 < s.len()
            && crate::scan_model::is_digit_byte(s[j1 + 1]) {
            lemma_drl_translate(s, s2, off, j1 + 1);
            let j2 = j1 + 1 + digit_run_len(s, j1 + 1);
            crate::scan_model::lemma_digit_run_le(s, j1 + 1);
            assert(chars_of(s2.subrange(c + off, j2 + off)) =~= chars_of(s.subrange(c, j2)));
        } else {
            assert(chars_of(s2.subrange(c + off, j1 + off)) =~= chars_of(s.subrange(c, j1)));
        }
    } else if crate::scan_model::is_alpha_byte(b) {
        crate::scan_model::lemma_ident_run_le(s, c + 1);
        lemma_irl_translate(s, s2, off, c + 1);
        let j = c + 1 + ident_run_len(s, c + 1);
        assert(chars_of(s2.subrange(c + off, j + off)) =~= chars_of(s.subrange(c, j)));
    } else {
    }
}

/// A whole scan reads nothing before its start: shifting the suffix
/// shifts the scan.
proof fn lemma_scan_from_translate(s: Seq<u8>, s2: Seq<u8>, off: int, c: int, line: int)
    requires
        0 <= c <= s.len(),
        0 <= c + off,
        s2.len() == s.len() + off,
        forall|j: int| c <= j < s.len() ==> s2[j + off] == s[j],
    ensures
        scan_from(s2, c + off, line).tokens == scan_from(s, c, line).tokens,
        scan_from(s2, c + off, line).errors == scan_from(s, c, line).errors,
        scan_from(s2, c + off, line).end_line == scan_from(s, c, line).end_line,
    decreases s.len() - c,
{
    if c < s.len() {
        lemma_scan_step_bounds(s, c, line);
        lemma_step_translate(s, s2, off, c, line);
        let st = scan_step(s, c, line);
        lemma_scan_from_translate(s, s2, off, st.pos, st.line);
    }
}

/// A step that neither touches the insertion point nor is a comment
/// running exactly up to it is the same step after the splice.
proof fn lemma_step_agree(s: Seq<u8>, ctext: Seq<u8>, i: int, c: int, line: int)
    requires
        0 <= c < i <= s.len(),
        s[i - 1] != ('/' as u8),
        forall|k: int| 0 <= k < ctext.len() ==> ctext[k] != ('\n' as u8),
        scan_step(s, c, line).pos <= i,
        !unterminated_string_at(s, c),
        !(s[c] == ('/' as u8) && c + 1 < s.len() && s[c + 1] == ('/' as u8) && scan_step(
            s,
            c,
            line,
        ).pos == i),
    ensures
        scan_step(spliced(s, i, ctext), c, line).pos == scan_step(s, c, line).pos,
        scan_step(spliced(s, i, ctext), c, line).line == scan_step(s, c, line).line,
        scan_step(spliced(s, i, ctext), c, line).token == scan_step(s, c, line).token,
        scan_step(spliced(s, i, ctext), c, line).error == scan_step(s, c, line).error,
{
    let s2 = spliced(s, i, ctext);
    lemma_spliced_facts(s, i, ctext);
    lemma_scan_step_bounds(s, c, line);
    let st = scan_step(s, c, line);
    let b = s[c];
    assert(s2[c] == b);
    if crate::scan_model::single_char_kind(b) is Some {
        assert(chars_of(s2.subrange(c, c + 1)) =~= chars_of(s.subrange(c, c + 1)));
    } else if b == ('!' as u8) || b == ('=' as u8) || b == ('<' as u8) || b == ('>' as u8) {
        if c + 1 < i {
            assert(s2[c + 1] == s[c + 1]);
        } else {
            assert(c + 1 == i);
            assert(!(c + 1 < s.len() && s[c + 1] == ('=' as u8)));
            assert(s2[c + 1] == ('/' as u8));
        }
        assert(chars_of(s2.subrange(c, c + 1)) =~= chars_of(s.subrange(c, c + 1)));
        if c + 1 < s.len() && s[c + 1] == ('=' as u8) {
            assert(chars_of(s2.subrange(c, c + 2)) =~= chars_of(s.subrange(c, c + 2)));
        }
    } else if b == ('/' as u8) {
        assert(c + 1 != i);
        assert(c + 1 < i);
        assert(s2[c + 1] == s[c + 1]);
        if c + 1 < s.len() && s[c + 1] == ('/' as u8) {
            assert(st.pos == c + 2 + comment_run_len(s, c + 2));
            assert(st.pos < i);
            lemma_crl_agree(s, s2, i, c + 2);
        } else {
            assert(chars_of(s2.subrange(c, c + 1)) =~= chars_of(s.subrange(c, c + 1)));
        }
    } else if b == (' ' as u8) || b == ('\r' as u8) || b == ('\t' as u8) || b == ('\n' as u8) {
    } else if b == ('"' as u8) {
        let body = string_body_len(s, c + 1);
        let close = c + 1 + body;
        assert(close < s.len());
        assert(st.pos == close + 1);
        assert(close < i);
        lemma_sbl_agree(s, s2, i, c + 1);
        lemma_nc_agree(s, s2, i, c + 1, close);
        assert(chars_of(s2.subrange(c, close + 1)) =~= chars_of(s.subrange(c, close + 1)));
        assert(chars_of(s2.subrange(c + 1, close)) =~= chars_of(s.subrange(c + 1, close)));
    } else if crate::scan_model::is_digit_byte(b) {
        let j1 = c + 1 + digit_run_len(s, c + 1);
        assert(j1 <= st.pos);
        lemma_drl_agree(s, s2, i, c + 1);
        let cond_s = j1 < s.len() && s[j1] == ('.' as u8) && j1 + 1 < s.len()
            && crate::scan_model::is_digit_byte(s[j1 + 1]);
        let cond_s2 = j1 < s2.len() && s2[j1] == ('.' as u8) && j1 + 1 < s2.len()
            && crate::scan_model::is_digit_byte(s2[j1 + 1]);
        if cond_s {
            let j2 = j1 + 1 + digit_run_len(s, j1 + 1);
            assert(j2 == st.pos);
            assert(j1 + 1 < i);
            assert(s2[j1] == s[j1] && s2[j1 + 1] == s[j1 + 1]);
            assert(cond_s2);
            lemma_drl_agree(s, s2, i, j1 + 1);
            assert(chars_of(s2.subrange(c, j2)) =~= chars_of(s.subrange(c, j2)));
        } else {
            assert(j1 == st.pos);
            if j1 < i {
                if j1 < s.len() && s[j1] == ('.' as u8) && j1 + 1 == i {
                    assert(s2[j1 + 1] == ('/' as u8));
                    assert(!cond_s2);
                } else {
                    assert(!cond_s2);
                }
            } else {
                assert(j1 == i);
                assert(s2[j1] == ('/' as u8));
                assert(!cond_s2);
            }
            assert(chars_of(s2.subrange(c, j1)) =~= chars_of(s.subrange(c, j1)));
        }
    } else if crate::scan_model::is_alpha_byte(b) {
        let j = c + 1 + ident_run_len(s, c + 1);
        assert(j == st.pos);
        lemma_irl_agree(s, s2, i, c + 1);
        assert(chars_of(s2.subrange(c, j)) =~= chars_of(s.subrange(c, j)));
    } else {
    }
}

/// From a comment opener whose body runs exactly to the inserted
/// newline, the spliced scan yields the original scan of the suffix,
/// every line one greater: the comment emits nothing, the inserted
/// newline advances the counter, and the rest is the shifted suffix.
proof fn lemma_spliced_comment_scan(s: Seq<u8>, ctext: Seq<u8>, i: int, q: int, line: int)
    requires
        0 <= q <= i <= s.len(),
        forall|k: int| 0 <= k < ctext.len() ==> ctext[k] != ('\n' as u8),
        spliced(s, i, ctext)[q] == ('/' as u8),
        spliced(s, i, ctext)[q + 1] == ('/' as u8),
        forall|j: int| q + 2 <= j < i ==> spliced(s, i, ctext)[j] != ('\n' as u8),
        1 <= line,
        line + (s.len() - i) + 1 <= usize::MAX,
    ensures
        ({
            let o2 = scan_from(spliced(s, i, ctext), q, line);
            let tail = scan_from(s, i, line);
            &&& o2.tokens == tail.tokens.map_values(|t: TokenModel| shift_token(t, 1))
            &&& o2.errors == tail.errors.map_values(|e: LexError| shift_error(e, 1))
            &&& o2.end_line == tail.end_line + 1
        }),
{
    let s2 = spliced(s, i, ctext);
    lemma_spliced_facts(s, i, ctext);
    let off = ctext.len() as int + 3;
    let p2 = i + 2 + ctext.len() as int;
    assert forall|j: int| q + 2 <= j < p2 implies s2[j] != ('\n' as u8) by {
        if i <= j < i + 2 {
            assert(s2[j] == ('/' as u8));
        } else if i + 2 <= j {
            assert(s2[j] == ctext[j - i - 2]);
        }
    }
    assert(s2[p2] == ('\n' as u8));
    lemma_crl_exact(s2, q + 2, p2);
    let st1 = scan_step(s2, q, line);
    assert(st1.pos == p2 && st1.line == line);
    assert(st1.token is None && st1.error is None);
    let st2 = scan_step(s2, p2, line);
    assert(st2.pos == p2 + 1 && st2.line == line + 1);
    assert(st2.token is None && st2.error is None);
    lemma_scan_from_translate(s, s2, off, i, line + 1);
    lemma_scan_from_shift(s, i, line, 1);
    let o2 = scan_from(s2, q, line);
    let tail = scan_from(s, i, line);
    assert(o2.tokens == opt_token_seq(st1.token) + scan_from(s2, p2, line).tokens);
    assert(scan_from(s2, p2, line).tokens == opt_token_seq(st2.token) + scan_from(
        s2,
        p2 + 1,
        line + 1,
    ).tokens);
    assert(p2 + 1 == i + off);
    assert(scan_from(s2, i + off, line + 1).tokens == scan_from(s, i, line + 1).tokens);
    assert(o2.tokens =~= tail.tokens.map_values(|t: TokenModel| shift_token(t, 1)));
    assert(o2.errors =~= tail.errors.map_values(|e: LexError| shift_error(e, 1)));
}

/// Splicing a comment in at a boundary ahead of the cursor: every token
/// and diagnostic before the insertion point is untouched, everything
/// from it on moves down exactly one line, and the scan ends one line
/// later. Returns how many tokens and how many diagnostics precede the
/// insertion point.
proof fn lemma_insert_from(s: Seq<u8>, ctext: Seq<u8>, i: int, c: int, line: int) -> (split: (
    int,
    int,
))
    requires
        0 <= c <= i <= s.len(),
        is_boundary_from(s, c, i),
        i == 0 || s[i - 1] != ('/' as u8),
        forall|k: int| 0 <= k < ctext.len() ==> ctext[k] != ('\n' as u8),
        1 <= line,
        line + (s.len() - c) + 1 <= usize::MAX,
    ensures
        ({
            let o1 = scan_from(s, c, line);
            let o2 = scan_from(spliced(s, i, ctext), c, line);
            &&& 0 <= split.0 <= o1.tokens.len()
            &&& 0 <= split.1 <= o1.errors.len()
            &&& o2.tokens.len() == o1.tokens.len()
            &&& o2.errors.len() == o1.errors.len()
            &&& (forall|k: int| 0 <= k < split.0 ==> o2.tokens[k] == o1.tokens[k])
            &&& (forall|k: int|
                split.0 <= k < o1.tokens.len() ==> o2.tokens[k] == shift_token(o1.tokens[k], 1))
            &&& (forall|k: int| 0 <= k < split.1 ==> o2.errors[k] == o1.errors[k])
            &&& (forall|k: int|
                split.1 <= k < o1.errors.len() ==> o2.errors[k] == shift_error(o1.errors[k], 1))
            &&& o2.end_line == o1.end_line + 1
        }),
    decreases i - c,
{
    let s2 = spliced(s, i, ctext);
    lemma_spliced_facts(s, i, ctext);
    let off = ctext.len() as int + 3;
    let o1 = scan_from(s, c, line);
    let o2 = scan_from(s2, c, line);
    if c == i {
        lemma_spliced_comment_scan(s, ctext, i, i, line);
        assert forall|k: int| 0 <= k < o1.tokens.len() implies o2.tokens[k] == shift_token(
            o1.tokens[k],
            1,
        ) by {}
        assert forall|k: int| 0 <= k < o1.errors.len() implies o2.errors[k] == shift_error(
            o1.errors[k],
            1,
        ) by {}
        (0, 0)
    } else {
        lemma_step_pos_line(s, c, 1, line);
        let st = scan_step(s, c, line);
        lemma_boundary_le(s, st.pos, i);
        lemma_scan_step_bounds(s, c, line);
        lemma_step_line_growth(s, c, line);
        if s[c] == ('/' as u8) && c + 1 < s.len() && s[c + 1] == ('/' as u8) && st.pos == i {
            // The comment ends exactly at the insertion point: after the
            // splice it continues through the inserted comment text up to
            // the inserted newline, still producing nothing.
            assert(comment_run_len(s, c + 2) == i - c - 2);
            lemma_crl_char(s, c + 2);
            assert(s2[c] == ('/' as u8) && s2[c + 1] == s[c + 1]);
            assert forall|j: int| c + 2 <= j < i implies s2[j] != ('\n' as u8) by {
                assert(s2[j] == s[j]);
            }
            lemma_spliced_comment_scan(s, ctext, i, c, line);
            assert(st.token is None && st.error is None);
            let rest1 = scan_from(s, i, line);
            assert(o1.tokens =~= rest1.tokens);
            assert(o1.errors =~= rest1.errors);
            assert(o1.end_line == rest1.end_line);
            assert forall|k: int| 0 <= k < o1.tokens.len() implies o2.tokens[k] == shift_token(
                o1.tokens[k],
                1,
            ) by {
                assert(o2.tokens[k] == rest1.tokens.map_values(|t: TokenModel| shift_token(t, 1))[k]);
            }
            assert forall|k: int| 0 <= k < o1.errors.len() implies o2.errors[k] == shift_error(
                o1.errors[k],
                1,
            ) by {
                assert(o2.errors[k] == rest1.errors.map_values(|e: LexError| shift_error(e, 1))[k]);
            }
            (0, 0)
        } else {
            lemma_step_agree(s, ctext, i, c, line);
            let split_rest = lemma_insert_from(s, ctext, i, st.pos, st.line);
            let rest1 = scan_from(s, st.pos, st.line);
            let rest2 = scan_from(s2, st.pos, st.line);
            let dt = opt_token_seq(st.token).len() as int;
            let de = opt_error_seq(st.error).len() as int;
            assert(o1.tokens == opt_token_seq(st.token) + rest1.tokens);
            assert(o2.tokens == opt_token_seq(st.token) + rest2.tokens);
            assert(o1.errors == opt_error_seq(st.error) + rest1.errors);
            assert(o2.errors == opt_error_seq(st.error) + rest2.errors);
            let m = split_rest.0 + dt;
            let me = split_rest.1 + de;
            assert forall|k: int| 0 <= k < m implies o2.tokens[k] == o1.tokens[k] by {
                if k >= dt {
                    assert(o1.tokens[k] == rest1.tokens[k - dt]);
                    assert(o2.tokens[k] == rest2.tokens[k - dt]);
                }
            }
            assert forall|k: int| m <= k < o1.tokens.len() implies o2.tokens[k] == shift_token(
                o1.tokens[k],
                1,
            ) by {
                assert(o1.tokens[k] == rest1.tokens[k - dt]);
                assert(o2.tokens[k] == rest2.tokens[k - dt]);
            }
            assert forall|k: int| 0 <= k < me implies o2.errors[k] == o1.errors[k] by {
                if k >= de {
                    assert(o1.errors[k] == rest1.errors[k - de]);
                    assert(o2.errors[k] == rest2.errors[k - de]);
                }
            }
            assert forall|k: int| me <= k < o1.errors.len() implies o2.errors[k] == shift_error(
                o1.errors[k],
                1,
            ) by {
                assert(o1.errors[k] == rest1.errors[k - de]);
                assert(o2.errors[k] == rest2.errors[k - de]);
            }
            (m, me)
        }
    }
}

/// Law: inserting a `//...` comment, closed by its newline, at any legal
/// token boundary that does not directly follow a `/` leaves every
/// token's kind, lexeme and literal and every diagnostic's kind
/// unchanged; the only effect is on line counts, which grow by one from
/// the insertion point on. Returns how many tokens and diagnostics stand
/// before the insertion point.
pub proof fn lemma_comment_insertion(s: Seq<u8>, ctext: Seq<u8>, i: int) -> (split: (int, int))
    requires
        0 <= i <= s.len(),
        is_boundary(s, i),
        i == 0 || s[i - 1] != ('/' as u8),
        forall|k: int| 0 <= k < ctext.len() ==> ctext[k] != ('\n' as u8),
        s.len() + 2 <= usize::MAX,
    ensures
        ({
            let t1 = scan_spec(s).tokens;
            let t2 = scan_spec(spliced(s, i, ctext)).tokens;
            let e1 = scan_spec(s).errors;
            let e2 = scan_spec(spliced(s, i, ctext)).errors;
            &&& t2.len() == t1.len()
            &&& e2.len() == e1.len()
            &&& 0 <= split.0 <= t1.len()
            &&& 0 <= split.1 <= e1.len()
            &&& (forall|k: int| 0 <= k < split.0 ==> t2[k] == t1[k])
            &&& (forall|k: int| split.0 <= k < t1.len() ==> t2[k] == shift_token(t1[k], 1))
            &&& (forall|k: int| 0 <= k < split.1 ==> e2[k] == e1[k])
            &&& (forall|k: int| split.1 <= k < e1.len() ==> e2[k] == shift_error(e1[k], 1))
        }),
{
    let r = lemma_insert_from(s, ctext, i, 0, 1);
    let o1 = scan_from(s, 0, 1);
    let o2 = scan_from(spliced(s, i, ctext), 0, 1);
    let t1 = scan_spec(s).tokens;
    let t2 = scan_spec(spliced(s, i, ctext)).tokens;
    assert(t1 == o1.tokens.push(crate::scan_model::eof_model(o1.end_line)));
    assert(t2 == o2.tokens.push(crate::scan_model::eof_model(o2.end_line)));
    assert forall|k: int| r.0 <= k < t1.len() implies t2[k] == shift_token(t1[k], 1) by {
        if k < o1.tokens.len() {
            assert(t1[k] == o1.tokens[k]);
            assert(t2[k] == o2.tokens[k]);
        } else {
            assert(t1[k] == crate::scan_model::eof_model(o1.end_line));
            assert(t2[k] == crate::scan_model::eof_model(o2.end_line));
        }
    }
    assert forall|k: int| 0 <= k < r.0 implies t2[k] == t1[k] by {
        assert(t1[k] == o1.tokens[k]);
        assert(t2[k] == o2.tokens[k]);
    }
    r
}

} // verus!
