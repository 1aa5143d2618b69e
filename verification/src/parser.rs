//! The LC-3 assembly parser: line-oriented recursive descent with error
//! recovery. A line may be empty, a comment, a bare label, a directive or
//! an instruction, either optionally labelled (with a colon or
//! whitespace). A comment begins at `;` and runs to end-of-line. A line
//! that fails to parse is recorded as an error line and parsing resumes at
//! the next newline; all errors are collected.

use vstd::prelude::*;
use vstd::string::StrSliceExecFns;
use vstd::string::StringExecFns;

use crate::ast::AddSrc2;
use crate::ast::AndSrc2;
use crate::ast::Directive;
use crate::ast::Instruction;
use crate::ast::Line;
use crate::ast::Operand;
use crate::ast::ParseError;
use crate::ast::Program;
use crate::ast::Register;
use crate::ast::Span;
use crate::ast::Spanned;
use crate::ast::SpannedLine;
use crate::text::chars_pos;
use crate::text::spec_pos;

verus! {

/// Ghost model of a [`ParseError`].
#[verifier::ext_equal]
pub struct ParseErrModel {
    pub message: Seq<char>,
    pub line: int,
    pub column: int,
    pub span: Span,
}

impl View for ParseError {
    type V = ParseErrModel;

    open spec fn view(&self) -> ParseErrModel {
        ParseErrModel {
            message: self.message@,
            line: self.line as int,
            column: self.column as int,
            span: self.span,
        }
    }
}

/// The model of a parse error at `span` with the given message.
pub open spec fn parse_err(s: Seq<char>, span: Span, message: Seq<char>) -> ParseErrModel {
    ParseErrModel {
        message,
        line: spec_pos(s, span.start as int).0 as int,
        column: spec_pos(s, span.start as int).1 as int,
        span,
    }
}

/// The ghost models of a list of parse errors.
pub open spec fn perr_views(es: Seq<ParseError>) -> Seq<ParseErrModel> {
    es.map_values(|e: ParseError| e@)
}

// ============================================================================
// Well-formedness of parsed data: every span within the source.
// ============================================================================

/// Every span a directive carries lies within `[0, n]`.
pub open spec fn wf_directive(d: Directive, n: int) -> bool {
    match d {
        Directive::Fill(Operand::Label(l)) => l.span.start <= l.span.end <= n,
        _ => true,
    }
}

/// Every span an instruction carries lies within `[0, n]`.
pub open spec fn wf_instruction(i: Instruction, n: int) -> bool {
    match i {
        Instruction::Br { label, .. } => label.span.start <= label.span.end <= n,
        Instruction::Jsr { label } => label.span.start <= label.span.end <= n,
        Instruction::Ld { label, .. } => label.span.start <= label.span.end <= n,
        Instruction::Ldi { label, .. } => label.span.start <= label.span.end <= n,
        Instruction::Lea { label, .. } => label.span.start <= label.span.end <= n,
        Instruction::St { label, .. } => label.span.start <= label.span.end <= n,
        Instruction::Sti { label, .. } => label.span.start <= label.span.end <= n,
        _ => true,
    }
}

/// Every span a line carries lies within `[0, n]`.
pub open spec fn wf_line(l: Line, n: int) -> bool {
    match l {
        Line::Label(lab) => lab.span.start <= lab.span.end <= n,
        Line::LabeledDirective(lab, d) => lab.span.start <= lab.span.end <= n && wf_directive(d, n),
        Line::LabeledInstruction(lab, i) => lab.span.start <= lab.span.end <= n && wf_instruction(
            i,
            n,
        ),
        Line::Directive(d) => wf_directive(d, n),
        Line::Instruction(i) => wf_instruction(i, n),
        Line::Empty => true,
        Line::Error => true,
    }
}

/// Every span of a parsed line, the line's own included, lies within
/// `[0, n]`.
pub open spec fn wf_spanned_line(sl: SpannedLine, n: int) -> bool {
    sl.span.start <= sl.span.end <= n && wf_line(sl.line, n)
}


// ============================================================================
// Small helpers.
// ============================================================================

/// The characters of the source string.
pub(crate) fn to_chars(source: &str) -> (r: Vec<char>)
    ensures
        r@ == source@,
{
    let n = source.unicode_len();
    let mut out: Vec<char> = Vec::new();
    let mut i: usize = 0;
    while i < n
        invariant
            i <= n,
            n == source@.len(),
            out@ == source@.subrange(0, i as int),
        decreases n - i,
    {
        out.push(source.get_char(i));
        proof {
            assert(out@ =~= source@.subrange(0, i + 1));
        }
        i = i + 1;
    }
    proof {
        assert(out@ =~= source@);
    }
    out
}

/// Whether two strings are equal, character by character.
pub fn str_eq_lit_str(w: &str, lit: &str) -> (r: bool)
    ensures
        r == (w@ == lit@),
{
    let wn = w.unicode_len();
    let ln = lit.unicode_len();
    if wn != ln {
        proof {
            assert(w@ != lit@);
        }
        return false;
    }
    let mut i: usize = 0;
    while i < wn
        invariant
            i <= wn,
            wn == w@.len(),
            wn == lit@.len(),
            forall|k: int| 0 <= k < i ==> w@[k] == lit@[k],
        decreases wn - i,
    {
        if w.get_char(i) != lit.get_char(i) {
            return false;
        }
        i = i + 1;
    }
    proof {
        assert(w@ =~= lit@);
    }
    true
}

/// Whether a string equals a literal, character by character.
fn str_eq_lit(w: &String, lit: &str) -> (r: bool)
    ensures
        r == (w@ == lit@),
{
    str_eq_lit_str(w.as_str(), lit)
}

fn is_ws(c: char) -> (r: bool)
    ensures
        r == (c == ' ' || c == '\t'),
{
    c == ' ' || c == '\t'
}

fn is_alpha(c: char) -> (r: bool)
    ensures
        r == ('A' <= c <= 'Z' || 'a' <= c <= 'z'),
{
    ('A' <= c && c <= 'Z') || ('a' <= c && c <= 'z')
}

fn is_digit(c: char) -> (r: bool)
    ensures
        r == ('0' <= c <= '9'),
{
    '0' <= c && c <= '9'
}

fn is_hex_digit(c: char) -> (r: bool)
    ensures
        r == ('0' <= c <= '9' || 'A' <= c <= 'F' || 'a' <= c <= 'f'),
{
    ('0' <= c && c <= '9') || ('A' <= c && c <= 'F') || ('a' <= c && c <= 'f')
}

/// The upper-case form of an ASCII letter; other characters unchanged.
fn to_upper(c: char) -> (r: char)
    ensures
        r == spec_to_upper(c),
{
    if 'a' <= c && c <= 'z' {
        ((c as u8) - 32) as char
    } else {
        c
    }
}

/// The position after the run of spaces and tabs starting at `i`.
pub open spec fn scan_ws_end(s: Seq<char>, i: int, end: int) -> int
    decreases end - i,
{
    if i < 0 || i >= end || i >= s.len() || !(s[i] == ' ' || s[i] == '\t') {
        i
    } else {
        scan_ws_end(s, i + 1, end)
    }
}

/// Skip spaces and tabs.
fn skip_ws(chars: &Vec<char>, pos: usize, end: usize) -> (r: usize)
    requires
        pos <= end <= chars@.len(),
    ensures
        pos <= r <= end,
        r == scan_ws_end(chars@, pos as int, end as int),
{
    let mut p = pos;
    while p < end && is_ws(chars[p])
        invariant
            pos <= p <= end,
            end <= chars@.len(),
            scan_ws_end(chars@, pos as int, end as int) == scan_ws_end(
                chars@,
                p as int,
                end as int,
            ),
        decreases end - p,
    {
        p = p + 1;
    }
    p
}

/// Create a parse error from a span.
fn make_parse_error(chars: &Vec<char>, span: Span, message: String) -> (r: ParseError)
    ensures
        r@ == parse_err(chars@, span, message@),
{
    let (line, column) = chars_pos(chars, span.start);
    ParseError { message, line, column, span }
}

/// The description of a character in an error message.
pub open spec fn spec_char_desc(c: char) -> Seq<char> {
    if c == ' ' {
        "space"@
    } else if c == '\t' {
        "tab"@
    } else if c == '\n' {
        "newline"@
    } else if c == '\r' {
        "carriage return"@
    } else if (c as u32) < 32 || (c as u32) == 127 {
        "control character"@
    } else {
        seq!['\''] + seq![c] + seq!['\'']
    }
}

/// Append the description of a character for an error message.
fn push_char_desc(s: &mut String, c: char)
    ensures
        final(s)@ == old(s)@ + spec_char_desc(c),
{
    if c == ' ' {
        s.append("space");
    } else if c == '\t' {
        s.append("tab");
    } else if c == '\n' {
        s.append("newline");
    } else if c == '\r' {
        s.append("carriage return");
    } else if (c as u32) < 32 || (c as u32) == 127 {
        s.append("control character");
    } else {
        s.push('\'');
        s.push(c);
        s.push('\'');
        proof {
            assert(s@ =~= old(s)@ + spec_char_desc(c));
        }
    }
}


// ============================================================================
// Token character classes and values.
// ============================================================================

/// Whether a character is an ASCII letter.
pub open spec fn spec_is_alpha(c: char) -> bool {
    ('A' <= c && c <= 'Z') || ('a' <= c && c <= 'z')
}

/// Whether a character is a decimal digit.
pub open spec fn spec_is_digit(c: char) -> bool {
    '0' <= c && c <= '9'
}

/// Whether a character is a hexadecimal digit.
pub open spec fn spec_is_hex(c: char) -> bool {
    spec_is_digit(c) || ('A' <= c && c <= 'F') || ('a' <= c && c <= 'f')
}

/// The value of a hexadecimal digit character.
pub open spec fn spec_hex_val(c: char) -> u16
    recommends
        spec_is_hex(c),
{
    if spec_is_digit(c) {
        ((c as u32) - 48) as u16
    } else if 'A' <= c && c <= 'F' {
        ((c as u32) - 55) as u16
    } else {
        ((c as u32) - 87) as u16
    }
}

/// The upper-case form of an ASCII letter; other characters unchanged.
pub open spec fn spec_to_upper(c: char) -> char {
    if 'a' <= c && c <= 'z' {
        ((c as u8) - 32) as char
    } else {
        c
    }
}

/// A character sequence upper-cased.
pub open spec fn spec_upper(s: Seq<char>) -> Seq<char> {
    s.map_values(|c: char| spec_to_upper(c))
}

/// The position after the run of hexadecimal digits starting at `i`.
pub open spec fn scan_hex_end(s: Seq<char>, i: int, end: int) -> int
    decreases end - i,
{
    if i < 0 || i >= end || i >= s.len() || !spec_is_hex(s[i]) {
        i
    } else {
        scan_hex_end(s, i + 1, end)
    }
}

/// The 16-bit value of the run of hexadecimal digits starting at `i`,
/// accumulated onto `acc`, wrapping.
pub open spec fn spec_hex_acc(s: Seq<char>, i: int, end: int, acc: u16) -> u16
    decreases end - i,
{
    if i < 0 || i >= end || i >= s.len() || !spec_is_hex(s[i]) {
        acc
    } else {
        spec_hex_acc(s, i + 1, end, acc.wrapping_mul(16).wrapping_add(spec_hex_val(s[i])))
    }
}

/// The position after the run of decimal digits starting at `i`.
pub open spec fn scan_digits_end(s: Seq<char>, i: int, end: int) -> int
    decreases end - i,
{
    if i < 0 || i >= end || i >= s.len() || !spec_is_digit(s[i]) {
        i
    } else {
        scan_digits_end(s, i + 1, end)
    }
}

/// The value of the run of decimal digits starting at `i`, accumulated
/// onto `acc`, as an unbounded integer.
pub open spec fn spec_dec_acc(s: Seq<char>, i: int, end: int, acc: int) -> int
    decreases end - i,
{
    if i < 0 || i >= end || i >= s.len() || !spec_is_digit(s[i]) {
        acc
    } else {
        spec_dec_acc(s, i + 1, end, acc * 10 + ((s[i] as u32) - 48))
    }
}

/// Accumulating decimal digits never shrinks a non-negative value.
proof fn lemma_dec_acc_monotone(s: Seq<char>, i: int, end: int, acc: int)
    requires
        acc >= 0,
    ensures
        spec_dec_acc(s, i, end, acc) >= acc,
    decreases end - i,
{
    if !(i < 0 || i >= end || i >= s.len() || !spec_is_digit(s[i])) {
        lemma_dec_acc_monotone(s, i + 1, end, acc * 10 + ((s[i] as u32) - 48));
    }
}

/// The position after the run of identifier characters (letters, digits,
/// underscores) starting at `i`.
pub open spec fn scan_ident_end(s: Seq<char>, i: int, end: int) -> int
    decreases end - i,
{
    if i < 0 || i >= end || i >= s.len() || !(spec_is_alpha(s[i]) || spec_is_digit(s[i]) || s[i]
        == '_') {
        i
    } else {
        scan_ident_end(s, i + 1, end)
    }
}

/// The position after the run of letters and underscores starting at `i`.
pub open spec fn scan_word_end(s: Seq<char>, i: int, end: int) -> int
    decreases end - i,
{
    if i < 0 || i >= end || i >= s.len() || !(spec_is_alpha(s[i]) || s[i] == '_') {
        i
    } else {
        scan_word_end(s, i + 1, end)
    }
}

// ============================================================================
// Token parsers.
// ============================================================================

/// Parse an identifier: a letter or underscore, then letters, digits and
/// underscores, canonicalized to upper case.
pub fn parse_ident(chars: &Vec<char>, pos: usize, end: usize) -> (r: Option<(Spanned<String>, usize)>)
    requires
        pos <= end <= chars@.len(),
    ensures
        r is Some <==> pos < end && (spec_is_alpha(chars@[pos as int]) || chars@[pos as int]
            == '_'),
        match r {
            Some(t) => {
                &&& pos < t.1 <= end
                &&& t.1 == scan_ident_end(chars@, pos + 1, end as int)
                &&& t.0.span.start == pos
                &&& t.0.span.end == t.1
                &&& t.0.value@ == spec_upper(chars@.subrange(pos as int, t.1 as int))
            },
            None => true,
        },
{
    if pos >= end {
        return None;
    }
    let c = chars[pos];
    if !(is_alpha(c) || c == '_') {
        return None;
    }
    let mut name = String::new();
    name.push(to_upper(c));
    let mut p = pos + 1;
    proof {
        assert(name@ =~= spec_upper(chars@.subrange(pos as int, pos + 1)));
    }
    while p < end && (is_alpha(chars[p]) || is_digit(chars[p]) || chars[p] == '_')
        invariant
            pos < p <= end,
            end <= chars@.len(),
            name@ == spec_upper(chars@.subrange(pos as int, p as int)),
            scan_ident_end(chars@, pos + 1, end as int) == scan_ident_end(
                chars@,
                p as int,
                end as int,
            ),
        decreases end - p,
    {
        name.push(to_upper(chars[p]));
        proof {
            assert(name@ =~= spec_upper(chars@.subrange(pos as int, p + 1)));
        }
        p = p + 1;
    }
    Some((Spanned::new(name, Span::new(pos, p)), p))
}

/// Parse a register: `R` or `r` and one decimal digit. A digit above 7 is
/// diagnosed and treated as R0.
pub fn parse_register(chars: &Vec<char>, pos: usize, end: usize, errors: &mut Vec<ParseError>) -> (r:
    Option<(Register, usize)>)
    requires
        pos <= end <= chars@.len(),
    ensures
        r is Some <==> pos + 1 < end && (chars@[pos as int] == 'R' || chars@[pos as int] == 'r')
            && spec_is_digit(chars@[pos + 1]),
        match r {
            Some(t) => {
                &&& t.1 == pos + 2
                &&& t.0.0 as u32 == (if (chars@[pos + 1] as u32) - 48 <= 7 {
                    (chars@[pos + 1] as u32) - 48
                } else {
                    0
                })
                &&& perr_views(final(errors)@) == perr_views(old(errors)@) + spec_reg_diags(
                    chars@,
                    pos as int,
                )
            },
            None => final(errors)@ == old(errors)@,
        },
{
    if pos >= end {
        return None;
    }
    let c = chars[pos];
    if !(c == 'R' || c == 'r') {
        return None;
    }
    if pos + 1 >= end {
        return None;
    }
    let d = chars[pos + 1];
    if !is_digit(d) {
        return None;
    }
    let dv = (d as u8) - 48;
    if dv <= 7 {
        proof {
            assert(perr_views(errors@) =~= perr_views(old(errors)@) + spec_reg_diags(
                chars@,
                pos as int,
            ));
        }
        Some((Register(dv), pos + 2))
    } else {
        let mut m = "R".to_owned();
        m.push(d);
        m.append(" is not valid, use R0-R7");
        proof {
            reveal_strlit("R");
            assert(m@ =~= seq!['R', chars@[pos + 1]] + " is not valid, use R0-R7"@);
        }
        let e = make_parse_error(chars, Span::new(pos, pos + 2), m);
        let ghost ev = e@;
        errors.push(e);
        proof {
            assert(perr_views(errors@) =~= perr_views(old(errors)@) + seq![ev]);
        }
        Some((Register(0), pos + 2))
    }
}

fn hex_val(c: char) -> (r: u8)
    requires
        spec_is_hex(c),
    ensures
        r < 16,
        r as u16 == spec_hex_val(c),
{
    if '0' <= c && c <= '9' {
        (c as u8) - 48
    } else if 'A' <= c && c <= 'F' {
        (c as u8) - 55
    } else {
        (c as u8) - 87
    }
}

/// Parse a hexadecimal number: `x` or `X` and hex digits, as a 16-bit
/// word, wrapping.
pub fn parse_hex(chars: &Vec<char>, pos: usize, end: usize) -> (r: Option<(u16, usize)>)
    requires
        pos <= end <= chars@.len(),
    ensures
        r is Some <==> pos + 1 < end && (chars@[pos as int] == 'x' || chars@[pos as int] == 'X')
            && spec_is_hex(chars@[pos + 1]),
        match r {
            Some(t) => {
                &&& pos < t.1 <= end
                &&& t.1 == scan_hex_end(chars@, pos + 1, end as int)
                &&& t.0 == spec_hex_acc(chars@, pos + 1, end as int, 0)
            },
            None => true,
        },
{
    if pos >= end {
        return None;
    }
    let c = chars[pos];
    if !(c == 'x' || c == 'X') {
        return None;
    }
    let mut p = pos + 1;
    if p >= end || !is_hex_digit(chars[p]) {
        return None;
    }
    let mut val: u16 = 0;
    while p < end && is_hex_digit(chars[p])
        invariant
            pos < p <= end,
            end <= chars@.len(),
            scan_hex_end(chars@, pos + 1, end as int) == scan_hex_end(chars@, p as int, end as int),
            spec_hex_acc(chars@, pos + 1, end as int, 0) == spec_hex_acc(
                chars@,
                p as int,
                end as int,
                val,
            ),
        decreases end - p,
    {
        val = val.wrapping_mul(16).wrapping_add(hex_val(chars[p]) as u16);
        p = p + 1;
    }
    Some((val, p))
}

/// Where the digits of a decimal literal at `pos` begin (after the
/// optional `#` and `-`), and whether it is negated.
pub open spec fn spec_dec_shape(s: Seq<char>, pos: int, end: int) -> (bool, int) {
    let p = if pos < end && s[pos] == '#' {
        pos + 1
    } else {
        pos
    };
    if p < end && s[p] == '-' {
        (true, p + 1)
    } else {
        (false, p)
    }
}

/// Parse a decimal number: optional `#`, optional `-`, decimal digits, as
/// a signed 16-bit value; a value out of the 16-bit signed range fails.
pub fn parse_decimal(chars: &Vec<char>, pos: usize, end: usize) -> (r: Option<(i16, usize)>)
    requires
        pos <= end <= chars@.len(),
    ensures
        ({
            let (neg, d) = spec_dec_shape(chars@, pos as int, end as int);
            let mag = spec_dec_acc(chars@, d, end as int, 0);
            &&& (r is Some <==> d < end && spec_is_digit(chars@[d]) && (if neg {
                mag <= 32768
            } else {
                mag <= 32767
            }))
            &&& match r {
                Some(t) => pos <= t.1 <= end && t.1 == scan_digits_end(chars@, d, end as int)
                    && t.0 == if neg {
                    -mag
                } else {
                    mag
                },
                None => true,
            }
        }),
{
    let ghost shape = spec_dec_shape(chars@, pos as int, end as int);
    let mut p = pos;
    if p < end && chars[p] == '#' {
        p = p + 1;
    }
    let mut neg = false;
    if p < end && chars[p] == '-' {
        neg = true;
        p = p + 1;
    }
    proof {
        assert(shape == (neg, p as int));
    }
    if p >= end || !is_digit(chars[p]) {
        return None;
    }
    let ghost d = p as int;
    let ghost mag = spec_dec_acc(chars@, d, end as int, 0);
    let mut val: i32 = 0;
    while p < end && is_digit(chars[p])
        invariant
            pos <= p <= end,
            end <= chars@.len(),
            0 <= val <= 327689,
            shape == spec_dec_shape(chars@, pos as int, end as int),
            shape.0 == neg,
            shape.1 == d,
            mag == spec_dec_acc(chars@, d, end as int, 0),
            scan_digits_end(chars@, d, end as int) == scan_digits_end(
                chars@,
                p as int,
                end as int,
            ),
            mag == spec_dec_acc(chars@, p as int, end as int, val as int),
        decreases end - p,
    {
        if val > 32768 {
            proof {
                lemma_dec_acc_monotone(chars@, p as int, end as int, val as int);
            }
            return None;
        }
        val = val * 10 + (((chars[p] as u8) - 48) as i32);
        p = p + 1;
    }
    proof {
        assert(mag == val as int);
    }
    if neg {
        if val > 32768 {
            None
        } else {
            Some(((0 - val) as i16, p))
        }
    } else {
        if val > 32767 {
            None
        } else {
            Some((val as i16, p))
        }
    }
}

/// Parse a number: hexadecimal or decimal.
pub fn parse_number(chars: &Vec<char>, pos: usize, end: usize) -> (r: Option<(i16, usize)>)
    requires
        pos <= end <= chars@.len(),
    ensures
        match r {
            Some(t) => pos <= t.1 <= end && spec_parse_number_at(chars@, pos as int, end as int)
                == Some((t.0, t.1 as int)),
            None => spec_parse_number_at(chars@, pos as int, end as int) is None,
        },
{
    match parse_hex(chars, pos, end) {
        Some((v, p)) => Some((v as i16, p)),
        None => parse_decimal(chars, pos, end),
    }
}

/// Whether a character is one of the recognised escape letters.
pub open spec fn spec_is_escape(c: char) -> bool {
    c == 'n' || c == 'r' || c == 't' || c == '\\' || c == '"' || c == '0'
}

/// The character an escape letter denotes.
pub open spec fn spec_escape_char(c: char) -> char
    recommends
        spec_is_escape(c),
{
    if c == 'n' {
        '\n'
    } else if c == 'r' {
        '\r'
    } else if c == 't' {
        '\t'
    } else if c == '\\' {
        '\\'
    } else if c == '"' {
        '"'
    } else {
        '\0'
    }
}

/// The unescaped content of a string-literal body starting at `i` (just
/// past the opening quote), with the position past the closing quote;
/// nothing when the literal is unterminated or holds an unknown escape.
pub open spec fn spec_string_body(s: Seq<char>, i: int, end: int) -> Option<(Seq<char>, int)>
    decreases end - i,
{
    if i < 0 || i >= end || i >= s.len() {
        None
    } else if s[i] == '"' {
        Some((Seq::empty(), i + 1))
    } else if s[i] == '\\' {
        if i + 1 >= end || i + 1 >= s.len() || !spec_is_escape(s[i + 1]) {
            None
        } else {
            match spec_string_body(s, i + 2, end) {
                Some((rest, p)) => Some((seq![spec_escape_char(s[i + 1])] + rest, p)),
                None => None,
            }
        }
    } else {
        match spec_string_body(s, i + 1, end) {
            Some((rest, p)) => Some((seq![s[i]] + rest, p)),
            None => None,
        }
    }
}

/// Parse a string literal with the escapes `\n \r \t \\ \" \0`.
pub fn parse_string(chars: &Vec<char>, pos: usize, end: usize) -> (r: Option<(String, usize)>)
    requires
        pos <= end <= chars@.len(),
    ensures
        ({
            let body = if pos < end && chars@[pos as int] == '"' {
                spec_string_body(chars@, pos + 1, end as int)
            } else {
                None
            };
            match r {
                Some(t) => pos < t.1 <= end && body == Some((t.0@, t.1 as int)),
                None => body is None,
            }
        }),
{
    if pos >= end || chars[pos] != '"' {
        return None;
    }
    let mut p = pos + 1;
    let mut out = String::new();
    while p < end
        invariant
            pos < p <= end,
            end <= chars@.len(),
            chars@[pos as int] == '"',
            spec_string_body(chars@, pos + 1, end as int) == match spec_string_body(
                chars@,
                p as int,
                end as int,
            ) {
                Some((rest, q)) => Some((out@ + rest, q)),
                None => None::<(Seq<char>, int)>,
            },
        decreases end - p,
    {
        let c = chars[p];
        if c == '"' {
            proof {
                assert(out@ + Seq::<char>::empty() =~= out@);
            }
            return Some((out, p + 1));
        }
        if c == '\\' {
            if p + 1 >= end {
                return None;
            }
            let e = chars[p + 1];
            if e == 'n' {
                out.push('\n');
            } else if e == 'r' {
                out.push('\r');
            } else if e == 't' {
                out.push('\t');
            } else if e == '\\' {
                out.push('\\');
            } else if e == '"' {
                out.push('"');
            } else if e == '0' {
                out.push('\0');
            } else {
                return None;
            }
            proof {
                assert(forall|rest: Seq<char>|
                    out@.drop_last() + (seq![spec_escape_char(chars@[p + 1])] + rest) =~= out@
                        + rest);
            }
            p = p + 2;
        } else {
            out.push(c);
            proof {
                assert(forall|rest: Seq<char>|
                    out@.drop_last() + (seq![chars@[p as int]] + rest) =~= out@ + rest);
            }
            p = p + 1;
        }
    }
    None
}

/// Parse a mnemonic word: a maximal run of letters and underscores,
/// upper-cased.
fn parse_word(chars: &Vec<char>, pos: usize, end: usize) -> (r: Option<(String, usize)>)
    requires
        pos <= end <= chars@.len(),
    ensures
        r is Some <==> pos < end && (spec_is_alpha(chars@[pos as int]) || chars@[pos as int]
            == '_'),
        match r {
            Some(t) => {
                &&& pos < t.1 <= end
                &&& t.1 == scan_word_end(chars@, pos + 1, end as int)
                &&& t.0@ == spec_upper(chars@.subrange(pos as int, t.1 as int))
            },
            None => true,
        },
{
    if pos >= end {
        return None;
    }
    let c = chars[pos];
    if !(is_alpha(c) || c == '_') {
        return None;
    }
    let mut w = String::new();
    w.push(to_upper(c));
    let mut p = pos + 1;
    proof {
        assert(w@ =~= spec_upper(chars@.subrange(pos as int, pos + 1)));
    }
    while p < end && (is_alpha(chars[p]) || chars[p] == '_')
        invariant
            pos < p <= end,
            end <= chars@.len(),
            w@ == spec_upper(chars@.subrange(pos as int, p as int)),
            scan_word_end(chars@, pos + 1, end as int) == scan_word_end(
                chars@,
                p as int,
                end as int,
            ),
        decreases end - p,
    {
        w.push(to_upper(chars[p]));
        proof {
            assert(w@ =~= spec_upper(chars@.subrange(pos as int, p + 1)));
        }
        p = p + 1;
    }
    Some((w, p))
}

/// Decode a branch mnemonic: `BR` followed by a subset of `N`, `Z`, `P`;
/// the bare form sets all three flags (unconditional).
fn parse_branch_cond(w: &String) -> (r: Option<(bool, bool, bool)>)
    ensures
        r is Some <==> w@.len() >= 2 && w@[0] == 'B' && w@[1] == 'R' && (forall|k: int|
            2 <= k < w@.len() ==> w@[k] == 'N' || w@[k] == 'Z' || #[trigger] w@[k] == 'P'),
        match r {
            Some(t) => if w@.len() == 2 {
                t == (true, true, true)
            } else {
                &&& t.0 == exists|k: int| 2 <= k < w@.len() && w@[k] == 'N'
                &&& t.1 == exists|k: int| 2 <= k < w@.len() && w@[k] == 'Z'
                &&& t.2 == exists|k: int| 2 <= k < w@.len() && w@[k] == 'P'
            },
            None => true,
        },
{
    let n = w.as_str().unicode_len();
    if n < 2 {
        return None;
    }
    if w.as_str().get_char(0) != 'B' || w.as_str().get_char(1) != 'R' {
        return None;
    }
    let mut has_n = false;
    let mut has_z = false;
    let mut has_p = false;
    let mut i: usize = 2;
    while i < n
        invariant
            2 <= i <= n,
            n == w@.len(),
            has_n == exists|k: int| 2 <= k < i && w@[k] == 'N',
            has_z == exists|k: int| 2 <= k < i && w@[k] == 'Z',
            has_p == exists|k: int| 2 <= k < i && w@[k] == 'P',
            forall|k: int| 2 <= k < i ==> w@[k] == 'N' || w@[k] == 'Z' || #[trigger] w@[k] == 'P',
        decreases n - i,
    {
        let c = w.as_str().get_char(i);
        if c == 'N' {
            has_n = true;
        } else if c == 'Z' {
            has_z = true;
        } else if c == 'P' {
            has_p = true;
        } else {
            return None;
        }
        i = i + 1;
    }
    if n == 2 {
        Some((true, true, true))
    } else {
        Some((has_n, has_z, has_p))
    }
}

/// Whether a name is a reserved mnemonic, which cannot be a colon-less
/// label.
pub open spec fn spec_is_reserved(w: Seq<char>) -> bool {
    ||| w == "ADD"@
    ||| w == "AND"@
    ||| w == "NOT"@
    ||| w == "BR"@
    ||| w == "BRN"@
    ||| w == "BRZ"@
    ||| w == "BRP"@
    ||| w == "BRNZ"@
    ||| w == "BRNP"@
    ||| w == "BRZP"@
    ||| w == "BRNZP"@
    ||| w == "JMP"@
    ||| w == "RET"@
    ||| w == "JSR"@
    ||| w == "JSRR"@
    ||| w == "LD"@
    ||| w == "LDI"@
    ||| w == "LDR"@
    ||| w == "LEA"@
    ||| w == "ST"@
    ||| w == "STI"@
    ||| w == "STR"@
    ||| w == "TRAP"@
    ||| w == "RTI"@
    ||| w == "GETC"@
    ||| w == "OUT"@
    ||| w == "PUTS"@
    ||| w == "IN"@
    ||| w == "PUTSP"@
    ||| w == "HALT"@
}

/// Whether a name is a reserved mnemonic and cannot be a colon-less label.
fn is_reserved(name: &String) -> (r: bool)
    ensures
        r == spec_is_reserved(name@),
{
    str_eq_lit(name, "ADD") || str_eq_lit(name, "AND") || str_eq_lit(name, "NOT") || str_eq_lit(
        name,
        "BR",
    ) || str_eq_lit(name, "BRN") || str_eq_lit(name, "BRZ") || str_eq_lit(name, "BRP")
        || str_eq_lit(name, "BRNZ") || str_eq_lit(name, "BRNP") || str_eq_lit(name, "BRZP")
        || str_eq_lit(name, "BRNZP") || str_eq_lit(name, "JMP") || str_eq_lit(name, "RET")
        || str_eq_lit(name, "JSR") || str_eq_lit(name, "JSRR") || str_eq_lit(name, "LD")
        || str_eq_lit(name, "LDI") || str_eq_lit(name, "LDR") || str_eq_lit(name, "LEA")
        || str_eq_lit(name, "ST") || str_eq_lit(name, "STI") || str_eq_lit(name, "STR")
        || str_eq_lit(name, "TRAP") || str_eq_lit(name, "RTI") || str_eq_lit(name, "GETC")
        || str_eq_lit(name, "OUT") || str_eq_lit(name, "PUTS") || str_eq_lit(name, "IN")
        || str_eq_lit(name, "PUTSP") || str_eq_lit(name, "HALT")
}

// ============================================================================
// Grammar: directives, instructions, lines.
// ============================================================================

/// The position after required leading whitespace, if there is any.
pub open spec fn spec_ws1(s: Seq<char>, i: int, end: int) -> Option<int> {
    if i < end && i < s.len() && (s[i] == ' ' || s[i] == '\t') {
        Some(scan_ws_end(s, i + 1, end))
    } else {
        None
    }
}

/// Require at least one space or tab, then skip the rest.
fn ws1(chars: &Vec<char>, pos: usize, end: usize) -> (r: Option<usize>)
    requires
        pos <= end <= chars@.len(),
    ensures
        match r {
            Some(p) => pos <= p <= end && spec_ws1(chars@, pos as int, end as int) == Some(
                p as int,
            ),
            None => spec_ws1(chars@, pos as int, end as int) is None,
        },
{
    if pos < end && is_ws(chars[pos]) {
        Some(skip_ws(chars, pos + 1, end))
    } else {
        None
    }
}

/// The position after optional whitespace, one optional comma, and more
/// optional whitespace.
pub open spec fn spec_comma_end(s: Seq<char>, i: int, end: int) -> int {
    let a = scan_ws_end(s, i, end);
    let b = if a < end && a < s.len() && s[a] == ',' {
        a + 1
    } else {
        a
    };
    scan_ws_end(s, b, end)
}

/// Skip an optional comma with surrounding whitespace.
fn comma(chars: &Vec<char>, pos: usize, end: usize) -> (r: usize)
    requires
        pos <= end <= chars@.len(),
    ensures
        pos <= r <= end,
        r == spec_comma_end(chars@, pos as int, end as int),
{
    let mut p = skip_ws(chars, pos, end);
    if p < end && chars[p] == ',' {
        p = p + 1;
    }
    skip_ws(chars, p, end)
}


/// The number a directive operand position denotes: hexadecimal first,
/// else decimal, with the position after it.
pub open spec fn spec_parse_number_at(s: Seq<char>, i: int, end: int) -> Option<(i16, int)> {
    if i + 1 < end && (s[i] == 'x' || s[i] == 'X') && spec_is_hex(s[i + 1]) {
        Some((spec_hex_acc(s, i + 1, end, 0) as i16, scan_hex_end(s, i + 1, end)))
    } else {
        let (neg, d) = spec_dec_shape(s, i, end);
        let mag = spec_dec_acc(s, d, end, 0);
        if d < end && spec_is_digit(s[d]) && (if neg {
            mag <= 32768
        } else {
            mag <= 32767
        }) {
            Some(((if neg { -mag } else { mag }) as i16, scan_digits_end(s, d, end)))
        } else {
            None
        }
    }
}


// ============================================================================
// The parse decision, as spec-level functions: what parses, where it ends,
// and which diagnostics it raises.
// ============================================================================

/// Whether a successful directive parse starts at `pos`, and where it ends.
pub open spec fn spec_try_directive(s: Seq<char>, pos: int, end: int) -> Option<int> {
    if !(pos < end && pos < s.len() && s[pos] == '.') {
        None
    } else if !(pos + 1 < end && (spec_is_alpha(s[pos + 1]) || s[pos + 1] == '_')) {
        None
    } else {
        let wend = scan_word_end(s, pos + 2, end);
        let w = spec_upper(s.subrange(pos + 1, wend));
        if w == "ORIG"@ {
            match spec_ws1(s, wend, end) {
                Some(p1) => match spec_parse_number_at(s, p1, end) {
                    Some((_v, q)) => Some(q),
                    None => None,
                },
                None => None,
            }
        } else if w == "FILL"@ {
            match spec_ws1(s, wend, end) {
                Some(p1) => match spec_parse_number_at(s, p1, end) {
                    Some((_v, q)) => Some(q),
                    None => if p1 < end && (spec_is_alpha(s[p1]) || s[p1] == '_') {
                        Some(scan_ident_end(s, p1 + 1, end))
                    } else {
                        None
                    },
                },
                None => None,
            }
        } else if w == "BLKW"@ {
            match spec_ws1(s, wend, end) {
                Some(p1) => match spec_parse_number_at(s, p1, end) {
                    Some((_v, q)) => Some(q),
                    None => None,
                },
                None => None,
            }
        } else if w == "STRINGZ"@ {
            match spec_ws1(s, wend, end) {
                Some(p1) => if p1 < end && p1 < s.len() && s[p1] == '"' {
                    match spec_string_body(s, p1 + 1, end) {
                        Some((_t, q)) => Some(q),
                        None => None,
                    }
                } else {
                    None
                },
                None => None,
            }
        } else if w == "END"@ {
            Some(wend)
        } else {
            None
        }
    }
}

/// A register token at `i`: where it ends and its diagnostic, if any.
pub open spec fn try_reg(s: Seq<char>, i: int, end: int) -> Option<(int, Seq<ParseErrModel>)> {
    if i + 1 < end && (s[i] == 'R' || s[i] == 'r') && spec_is_digit(s[i + 1]) {
        Some((i + 2, spec_reg_diags(s, i)))
    } else {
        None
    }
}

/// An identifier at `i`: where it ends.
pub open spec fn try_ident_at(s: Seq<char>, i: int, end: int) -> Option<int> {
    if i < end && i < s.len() && (spec_is_alpha(s[i]) || s[i] == '_') {
        Some(scan_ident_end(s, i + 1, end))
    } else {
        None
    }
}

/// Two registers separated by a comma, from `p1`.
pub open spec fn try_two_regs(s: Seq<char>, p1: int, end: int) -> Option<(int, Seq<ParseErrModel>)> {
    match try_reg(s, p1, end) {
        Some((q1, d1)) => match try_reg(s, spec_comma_end(s, q1, end), end) {
            Some((q2, d2)) => Some((q2, d1 + d2)),
            None => None,
        },
        None => None,
    }
}

/// The ALU operand tail: two registers, then a register or a number.
pub open spec fn try_alu_tail(s: Seq<char>, p1: int, end: int) -> Option<(int, Seq<ParseErrModel>)> {
    match try_two_regs(s, p1, end) {
        Some((q2, d12)) => {
            let p3 = spec_comma_end(s, q2, end);
            match try_reg(s, p3, end) {
                Some((q3, d3)) => Some((q3, d12 + d3)),
                None => match spec_parse_number_at(s, p3, end) {
                    Some((_v, q3)) => Some((q3, d12)),
                    None => None,
                },
            }
        },
        None => None,
    }
}

/// Whether an upper-cased word is a branch mnemonic: `BR` and a subset of
/// `N`, `Z`, `P`.
pub open spec fn spec_is_br_word(w: Seq<char>) -> bool {
    &&& w.len() >= 2
    &&& w[0] == 'B'
    &&& w[1] == 'R'
    &&& forall|k: int| 2 <= k < w.len() ==> w[k] == 'N' || w[k] == 'Z' || #[trigger] w[k] == 'P'
}

/// Whether a successful instruction parse starts at `pos`: where it ends
/// and the register diagnostics it raises, in source order.
pub open spec fn spec_try_instruction(s: Seq<char>, pos: int, end: int) -> Option<
    (int, Seq<ParseErrModel>),
> {
    if !(pos < end && pos < s.len() && (spec_is_alpha(s[pos]) || s[pos] == '_')) {
        None
    } else {
        let wend = scan_word_end(s, pos + 1, end);
        let w = spec_upper(s.subrange(pos, wend));
        if w == "ADD"@ || w == "AND"@ {
            match spec_ws1(s, wend, end) {
                Some(p1) => try_alu_tail(s, p1, end),
                None => None,
            }
        } else if w == "NOT"@ {
            match spec_ws1(s, wend, end) {
                Some(p1) => try_two_regs(s, p1, end),
                None => None,
            }
        } else if w == "JMP"@ || w == "JSRR"@ {
            match spec_ws1(s, wend, end) {
                Some(p1) => try_reg(s, p1, end),
                None => None,
            }
        } else if w == "RET"@ {
            Some((wend, Seq::empty()))
        } else if w == "JSR"@ {
            match spec_ws1(s, wend, end) {
                Some(p1) => match try_ident_at(s, p1, end) {
                    Some(q) => Some((q, Seq::empty())),
                    None => None,
                },
                None => None,
            }
        } else if w == "LD"@ || w == "LDI"@ || w == "LEA"@ || w == "ST"@ || w == "STI"@ {
            match spec_ws1(s, wend, end) {
                Some(p1) => match try_reg(s, p1, end) {
                    Some((q1, d1)) => match try_ident_at(s, spec_comma_end(s, q1, end), end) {
                        Some(q) => Some((q, d1)),
                        None => None,
                    },
                    None => None,
                },
                None => None,
            }
        } else if w == "LDR"@ || w == "STR"@ {
            match spec_ws1(s, wend, end) {
                Some(p1) => match try_two_regs(s, p1, end) {
                    Some((q2, d12)) => match spec_parse_number_at(
                        s,
                        spec_comma_end(s, q2, end),
                        end,
                    ) {
                        Some((_v, q)) => Some((q, d12)),
                        None => None,
                    },
                    None => None,
                },
                None => None,
            }
        } else if w == "TRAP"@ {
            match spec_ws1(s, wend, end) {
                Some(p1) => match spec_parse_number_at(s, p1, end) {
                    Some((_v, q)) => Some((q, Seq::empty())),
                    None => None,
                },
                None => None,
            }
        } else if w == "GETC"@ || w == "OUT"@ || w == "PUTS"@ || w == "IN"@ || w == "PUTSP"@ || w
            == "HALT"@ || w == "RTI"@ {
            Some((wend, Seq::empty()))
        } else if spec_is_br_word(w) {
            match spec_ws1(s, wend, end) {
                Some(p1) => match try_ident_at(s, p1, end) {
                    Some(q) => Some((q, Seq::empty())),
                    None => None,
                },
                None => None,
            }
        } else {
            None
        }
    }
}

/// A returned directive is faithful to the text: the dotted word at `pos`
/// is its keyword, and its operand is exactly what the following token
/// denotes, ending at `p`.
pub open spec fn directive_matches(
    s: Seq<char>,
    pos: int,
    end: int,
    d: Directive,
    p: int,
) -> bool {
    &&& pos < end
    &&& s[pos] == '.'
    &&& pos + 1 < end
    &&& (spec_is_alpha(s[pos + 1]) || s[pos + 1] == '_')
    &&& {
        let wend = scan_word_end(s, pos + 2, end);
        let w = spec_upper(s.subrange(pos + 1, wend));
        match d {
            Directive::Orig(a) => w == "ORIG"@ && match spec_ws1(s, wend, end) {
                Some(p1) => match spec_parse_number_at(s, p1, end) {
                    Some((v, q)) => a == v as u16 && p == q,
                    None => false,
                },
                None => false,
            },
            Directive::Fill(op) => w == "FILL"@ && match spec_ws1(s, wend, end) {
                Some(p1) => match spec_parse_number_at(s, p1, end) {
                    Some((v, q)) => op == Operand::Immediate(v) && p == q,
                    None => match op {
                        Operand::Label(l) => {
                            &&& p1 < end
                            &&& (spec_is_alpha(s[p1]) || s[p1] == '_')
                            &&& p == scan_ident_end(s, p1 + 1, end)
                            &&& l.value@ == spec_upper(s.subrange(p1, p as int))
                            &&& l.span == (crate::ast::Span { start: p1 as usize, end: p as usize })
                        },
                        _ => false,
                    },
                },
                None => false,
            },
            Directive::Blkw(a) => w == "BLKW"@ && match spec_ws1(s, wend, end) {
                Some(p1) => match spec_parse_number_at(s, p1, end) {
                    Some((v, q)) => a == v as u16 && p == q,
                    None => false,
                },
                None => false,
            },
            Directive::Stringz(text) => w == "STRINGZ"@ && match spec_ws1(s, wend, end) {
                Some(p1) => p1 < end && s[p1] == '"' && spec_string_body(s, p1 + 1, end) == Some(
                    (text@, p),
                ),
                None => false,
            },
            Directive::End => w == "END"@ && p == wend,
        }
    }
}

/// Parse a directive: a leading `.` and one of `ORIG`, `FILL`, `BLKW`,
/// `STRINGZ`, `END`, case-insensitive, with its operand. It succeeds
/// exactly when the text holds a directive, and whatever comes back is
/// faithful to that text.
#[verifier::rlimit(60)]
pub fn parse_directive(chars: &Vec<char>, pos: usize, end: usize) -> (r: Option<(Directive, usize)>)
    requires
        pos <= end <= chars@.len(),
    ensures
        r is Some <==> spec_try_directive(chars@, pos as int, end as int) is Some,
        match r {
            Some(t) => pos <= t.1 <= end && wf_directive(t.0, chars@.len() as int)
                && directive_matches(chars@, pos as int, end as int, t.0, t.1 as int)
                && spec_try_directive(chars@, pos as int, end as int) == Some(t.1 as int),
            None => true,
        },
{
    if pos >= end || chars[pos] != '.' {
        return None;
    }
    let wr = parse_word(chars, pos + 1, end);
    match wr {
        None => None,
        Some((w, p)) => {
            if str_eq_lit(&w, "ORIG") {
                match ws1(chars, p, end) {
                    None => None,
                    Some(p1) => match parse_hex(chars, p1, end) {
                        Some((v, p2)) => {
                            proof {
                                assert((v as i16) as u16 == v) by (bit_vector);
                            }
                            Some((Directive::Orig(v), p2))
                        },
                        None => match parse_decimal(chars, p1, end) {
                            Some((v, p2)) => Some((Directive::Orig(v as u16), p2)),
                            None => None,
                        },
                    },
                }
            } else if str_eq_lit(&w, "FILL") {
                match ws1(chars, p, end) {
                    None => None,
                    Some(p1) => match parse_hex(chars, p1, end) {
                        Some((v, p2)) => Some((Directive::Fill(Operand::Immediate(v as i16)), p2)),
                        None => match parse_decimal(chars, p1, end) {
                            Some((v, p2)) => Some((Directive::Fill(Operand::Immediate(v)), p2)),
                            None => match parse_ident(chars, p1, end) {
                                Some((l, p2)) => Some((Directive::Fill(Operand::Label(l)), p2)),
                                None => None,
                            },
                        },
                    },
                }
            } else if str_eq_lit(&w, "BLKW") {
                match ws1(chars, p, end) {
                    None => None,
                    Some(p1) => match parse_hex(chars, p1, end) {
                        Some((v, p2)) => {
                            proof {
                                assert((v as i16) as u16 == v) by (bit_vector);
                            }
                            Some((Directive::Blkw(v), p2))
                        },
                        None => match parse_decimal(chars, p1, end) {
                            Some((v, p2)) => Some((Directive::Blkw(v as u16), p2)),
                            None => None,
                        },
                    },
                }
            } else if str_eq_lit(&w, "STRINGZ") {
                match ws1(chars, p, end) {
                    None => None,
                    Some(p1) => match parse_string(chars, p1, end) {
                        Some((v, p2)) => Some((Directive::Stringz(v), p2)),
                        None => None,
                    },
                }
            } else if str_eq_lit(&w, "END") {
                Some((Directive::End, p))
            } else {
                None
            }
        },
    }
}


/// The diagnostic a register token at `i` raises: one error when its
/// digit exceeds 7 (the register is then read as R0), none otherwise.
pub open spec fn spec_reg_diags(s: Seq<char>, i: int) -> Seq<ParseErrModel>
    recommends
        0 <= i && i + 1 < s.len(),
{
    if (s[i + 1] as u32) - 48 <= 7 {
        Seq::empty()
    } else {
        seq![
            parse_err(
                s,
                Span { start: i as usize, end: (i + 2) as usize },
                seq!['R', s[i + 1]] + " is not valid, use R0-R7"@,
            ),
        ]
    }
}

/// The register a position denotes: `R` or `r` and one digit, a digit
/// above 7 standing for R0, with the position after it.
pub open spec fn spec_reg_at(s: Seq<char>, i: int, end: int) -> Option<(u8, int)> {
    if i + 1 < end && (s[i] == 'R' || s[i] == 'r') && spec_is_digit(s[i + 1]) {
        let d = (s[i + 1] as u32) - 48;
        Some(
            (
                (if d <= 7 {
                    d
                } else {
                    0
                }) as u8,
                i + 2,
            ),
        )
    } else {
        None
    }
}

/// A returned label operand is faithful to the text: the identifier at
/// `i`, upper-cased, with its exact span, ending at `q`.
pub open spec fn label_matches(s: Seq<char>, i: int, end: int, l: Spanned<String>, q: int) -> bool {
    &&& i < end
    &&& (spec_is_alpha(s[i]) || s[i] == '_')
    &&& q == scan_ident_end(s, i + 1, end)
    &&& l.value@ == spec_upper(s.subrange(i, q))
    &&& l.span == (crate::ast::Span { start: i as usize, end: q as usize })
}

/// A returned instruction is faithful to the text: the word at `pos` is
/// its mnemonic and its operands are exactly what the following tokens
/// denote, ending at `p`.
pub open spec fn instruction_matches(
    s: Seq<char>,
    pos: int,
    end: int,
    ins: Instruction,
    p: int,
) -> bool {
    &&& pos < end
    &&& (spec_is_alpha(s[pos]) || s[pos] == '_')
    &&& {
        let wend = scan_word_end(s, pos + 1, end);
        let w = spec_upper(s.subrange(pos, wend));
        match ins {
            Instruction::Add { dr, sr1, src2 } => w == "ADD"@ && alu_operands_match(
                s,
                wend,
                end,
                dr,
                sr1,
                match src2 {
                    AddSrc2::Register(r2) => Some(r2),
                    AddSrc2::Immediate(_) => None,
                },
                match src2 {
                    AddSrc2::Register(_) => None,
                    AddSrc2::Immediate(v) => Some(v),
                },
                p,
            ),
            Instruction::And { dr, sr1, src2 } => w == "AND"@ && alu_operands_match(
                s,
                wend,
                end,
                dr,
                sr1,
                match src2 {
                    AndSrc2::Register(r2) => Some(r2),
                    AndSrc2::Immediate(_) => None,
                },
                match src2 {
                    AndSrc2::Register(_) => None,
                    AndSrc2::Immediate(v) => Some(v),
                },
                p,
            ),
            Instruction::Not { dr, sr } => w == "NOT"@ && match spec_ws1(s, wend, end) {
                Some(p1) => match spec_reg_at(s, p1, end) {
                    Some((d1, q1)) => dr.0 == d1 && match spec_reg_at(
                        s,
                        spec_comma_end(s, q1, end),
                        end,
                    ) {
                        Some((d2, q2)) => sr.0 == d2 && p == q2,
                        None => false,
                    },
                    None => false,
                },
                None => false,
            },
            Instruction::Br { n, z, p: pf, label } => {
                &&& w.len() >= 2
                &&& w[0] == 'B'
                &&& w[1] == 'R'
                &&& (forall|k: int| 2 <= k < w.len() ==> w[k] == 'N' || w[k] == 'Z' || #[trigger] w[k] == 'P')
                &&& (if w.len() == 2 {
                    n && z && pf
                } else {
                    &&& n == exists|k: int| 2 <= k < w.len() && w[k] == 'N'
                    &&& z == exists|k: int| 2 <= k < w.len() && w[k] == 'Z'
                    &&& pf == exists|k: int| 2 <= k < w.len() && w[k] == 'P'
                })
                &&& match spec_ws1(s, wend, end) {
                    Some(p1) => label_matches(s, p1, end, label, p),
                    None => false,
                }
            },
            Instruction::Jmp { base } => w == "JMP"@ && reg_operand_matches(s, wend, end, base, p),
            Instruction::Ret => w == "RET"@ && p == wend,
            Instruction::Jsr { label } => w == "JSR"@ && match spec_ws1(s, wend, end) {
                Some(p1) => label_matches(s, p1, end, label, p),
                None => false,
            },
            Instruction::Jsrr { base } => w == "JSRR"@ && reg_operand_matches(s, wend, end, base, p),
            Instruction::Ld { dr, label } => w == "LD"@ && reg_label_operands_match(
                s,
                wend,
                end,
                dr,
                label,
                p,
            ),
            Instruction::Ldi { dr, label } => w == "LDI"@ && reg_label_operands_match(
                s,
                wend,
                end,
                dr,
                label,
                p,
            ),
            Instruction::Ldr { dr, base, offset } => w == "LDR"@ && reg_base_offset_operands_match(
                s,
                wend,
                end,
                dr,
                base,
                offset,
                p,
            ),
            Instruction::Lea { dr, label } => w == "LEA"@ && reg_label_operands_match(
                s,
                wend,
                end,
                dr,
                label,
                p,
            ),
            Instruction::St { sr, label } => w == "ST"@ && reg_label_operands_match(
                s,
                wend,
                end,
                sr,
                label,
                p,
            ),
            Instruction::Sti { sr, label } => w == "STI"@ && reg_label_operands_match(
                s,
                wend,
                end,
                sr,
                label,
                p,
            ),
            Instruction::Str { sr, base, offset } => w == "STR"@ && reg_base_offset_operands_match(
                s,
                wend,
                end,
                sr,
                base,
                offset,
                p,
            ),
            Instruction::Trap { trapvect } => w == "TRAP"@ && match spec_ws1(s, wend, end) {
                Some(p1) => match spec_parse_number_at(s, p1, end) {
                    Some((v, q)) => trapvect == (v as u16) as u8 && p == q,
                    None => false,
                },
                None => false,
            },
            Instruction::Getc => w == "GETC"@ && p == wend,
            Instruction::Out => w == "OUT"@ && p == wend,
            Instruction::Puts => w == "PUTS"@ && p == wend,
            Instruction::In => w == "IN"@ && p == wend,
            Instruction::Putsp => w == "PUTSP"@ && p == wend,
            Instruction::Halt => w == "HALT"@ && p == wend,
            Instruction::Rti => w == "RTI"@ && p == wend,
        }
    }
}

/// One register operand after required whitespace, ending at `p`.
pub open spec fn reg_operand_matches(
    s: Seq<char>,
    wend: int,
    end: int,
    reg: Register,
    p: int,
) -> bool {
    match spec_ws1(s, wend, end) {
        Some(p1) => match spec_reg_at(s, p1, end) {
            Some((d, q)) => reg.0 == d && p == q,
            None => false,
        },
        None => false,
    }
}

/// A register, a comma and a label, ending at `p`.
pub open spec fn reg_label_operands_match(
    s: Seq<char>,
    wend: int,
    end: int,
    reg: Register,
    label: Spanned<String>,
    p: int,
) -> bool {
    match spec_ws1(s, wend, end) {
        Some(p1) => match spec_reg_at(s, p1, end) {
            Some((d, q)) => reg.0 == d && label_matches(s, spec_comma_end(s, q, end), end, label, p),
            None => false,
        },
        None => false,
    }
}

/// A register, a base register and a signed offset, ending at `p`.
pub open spec fn reg_base_offset_operands_match(
    s: Seq<char>,
    wend: int,
    end: int,
    reg: Register,
    base: Register,
    offset: i8,
    p: int,
) -> bool {
    match spec_ws1(s, wend, end) {
        Some(p1) => match spec_reg_at(s, p1, end) {
            Some((d1, q1)) => reg.0 == d1 && match spec_reg_at(s, spec_comma_end(s, q1, end), end) {
                Some((d2, q2)) => base.0 == d2 && match spec_parse_number_at(
                    s,
                    spec_comma_end(s, q2, end),
                    end,
                ) {
                    Some((v, q)) => offset == v as i8 && p == q,
                    None => false,
                },
                None => false,
            },
            None => false,
        },
        None => false,
    }
}

/// Both ALU forms: two registers, then a third register or an immediate.
pub open spec fn alu_operands_match(
    s: Seq<char>,
    wend: int,
    end: int,
    dr: Register,
    sr1: Register,
    reg2: Option<Register>,
    imm: Option<i8>,
    p: int,
) -> bool {
    match spec_ws1(s, wend, end) {
        Some(p1) => match spec_reg_at(s, p1, end) {
            Some((d1, q1)) => dr.0 == d1 && match spec_reg_at(s, spec_comma_end(s, q1, end), end) {
                Some((d2, q2)) => sr1.0 == d2 && {
                    let p3 = spec_comma_end(s, q2, end);
                    match spec_reg_at(s, p3, end) {
                        Some((d3, q3)) => reg2 == Some(Register(d3)) && imm is None && p == q3,
                        None => match spec_parse_number_at(s, p3, end) {
                            Some((v, q3)) => imm == Some(v as i8) && reg2 is None && p == q3,
                            None => false,
                        },
                    }
                },
                None => false,
            },
            None => false,
        },
        None => false,
    }
}

/// Parse one instruction with its operands, case-insensitive. It
/// succeeds exactly when the text holds an instruction; whatever comes
/// back is faithful to that text, and exactly the successful parse's
/// register diagnostics are recorded.
pub fn parse_instruction(
    chars: &Vec<char>,
    pos: usize,
    end: usize,
    errors: &mut Vec<ParseError>,
) -> (r: Option<(Instruction, usize)>)
    requires
        pos <= end <= chars@.len(),
    ensures
        r is Some <==> spec_try_instruction(chars@, pos as int, end as int) is Some,
        match r {
            Some(t) => pos <= t.1 <= end && wf_instruction(t.0, chars@.len() as int)
                && instruction_matches(chars@, pos as int, end as int, t.0, t.1 as int) && ({
                let (q, ds) = spec_try_instruction(chars@, pos as int, end as int).unwrap();
                t.1 == q && perr_views(final(errors)@) == perr_views(old(errors)@) + ds
            }),
            None => final(errors)@ == old(errors)@,
        },
{
    let mut local: Vec<ParseError> = Vec::new();
    match parse_instruction_arms(chars, pos, end, &mut local) {
        Some(t) => {
            let ghost ds = spec_try_instruction(chars@, pos as int, end as int).unwrap().1;
            proof {
                assert(perr_views(local@) =~= ds);
            }
            errors.append(&mut local);
            proof {
                assert(perr_views(errors@) =~= perr_views(old(errors)@) + ds);
            }
            Some(t)
        },
        None => None,
    }
}

/// The instruction dispatch itself; diagnostics of a failed alternative
/// stay in the scratch list the caller discards.
#[verifier::rlimit(100)]
fn parse_instruction_arms(
    chars: &Vec<char>,
    pos: usize,
    end: usize,
    errors: &mut Vec<ParseError>,
) -> (r: Option<(Instruction, usize)>)
    requires
        pos <= end <= chars@.len(),
    ensures
        r is Some <==> spec_try_instruction(chars@, pos as int, end as int) is Some,
        match r {
            Some(t) => pos <= t.1 <= end && wf_instruction(t.0, chars@.len() as int)
                && instruction_matches(chars@, pos as int, end as int, t.0, t.1 as int) && ({
                let (q, ds) = spec_try_instruction(chars@, pos as int, end as int).unwrap();
                t.1 == q && perr_views(final(errors)@) == perr_views(old(errors)@) + ds
            }),
            None => true,
        },
{
    let wr = parse_word(chars, pos, end);
    match wr {
        None => None,
        Some((w, p)) => {
            if str_eq_lit(&w, "ADD") || str_eq_lit(&w, "AND") {
                let add = str_eq_lit(&w, "ADD");
                match ws1(chars, p, end) {
                    None => None,
                    Some(p1) => match parse_register(chars, p1, end, errors) {
                        None => None,
                        Some((dr, p2)) => {
                            let p3 = comma(chars, p2, end);
                            match parse_register(chars, p3, end, errors) {
                                None => None,
                                Some((sr1, p4)) => {
                                    let p5 = comma(chars, p4, end);
                                    match parse_register(chars, p5, end, errors) {
                                        Some((r2, p6)) => if add {
                                            Some((
                                                Instruction::Add {
                                                    dr,
                                                    sr1,
                                                    src2: AddSrc2::Register(r2),
                                                },
                                                p6,
                                            ))
                                        } else {
                                            Some((
                                                Instruction::And {
                                                    dr,
                                                    sr1,
                                                    src2: AndSrc2::Register(r2),
                                                },
                                                p6,
                                            ))
                                        },
                                        None => match parse_number(chars, p5, end) {
                                            Some((v, p6)) => if add {
                                                Some((
                                                    Instruction::Add {
                                                        dr,
                                                        sr1,
                                                        src2: AddSrc2::Immediate(v as i8),
                                                    },
                                                    p6,
                                                ))
                                            } else {
                                                Some((
                                                    Instruction::And {
                                                        dr,
                                                        sr1,
                                                        src2: AndSrc2::Immediate(v as i8),
                                                    },
                                                    p6,
                                                ))
                                            },
                                            None => None,
                                        },
                                    }
                                },
                            }
                        },
                    },
                }
            } else if str_eq_lit(&w, "NOT") {
                match ws1(chars, p, end) {
                    None => None,
                    Some(p1) => match parse_register(chars, p1, end, errors) {
                        None => None,
                        Some((dr, p2)) => {
                            let p3 = comma(chars, p2, end);
                            match parse_register(chars, p3, end, errors) {
                                None => None,
                                Some((sr, p4)) => Some((Instruction::Not { dr, sr }, p4)),
                            }
                        },
                    },
                }
            } else if str_eq_lit(&w, "JMP") || str_eq_lit(&w, "JSRR") {
                let jmp = str_eq_lit(&w, "JMP");
                match ws1(chars, p, end) {
                    None => None,
                    Some(p1) => match parse_register(chars, p1, end, errors) {
                        None => None,
                        Some((base, p2)) => if jmp {
                            Some((Instruction::Jmp { base }, p2))
                        } else {
                            Some((Instruction::Jsrr { base }, p2))
                        },
                    },
                }
            } else if str_eq_lit(&w, "RET") {
                Some((Instruction::Ret, p))
            } else if str_eq_lit(&w, "JSR") {
                match ws1(chars, p, end) {
                    None => None,
                    Some(p1) => match parse_ident(chars, p1, end) {
                        None => None,
                        Some((label, p2)) => Some((Instruction::Jsr { label }, p2)),
                    },
                }
            } else if str_eq_lit(&w, "LD") || str_eq_lit(&w, "LDI") || str_eq_lit(&w, "LEA")
                || str_eq_lit(&w, "ST") || str_eq_lit(&w, "STI") {
                match ws1(chars, p, end) {
                    None => None,
                    Some(p1) => match parse_register(chars, p1, end, errors) {
                        None => None,
                        Some((reg, p2)) => {
                            let p3 = comma(chars, p2, end);
                            match parse_ident(chars, p3, end) {
                                None => None,
                                Some((label, p4)) => {
                                    if str_eq_lit(&w, "LD") {
                                        Some((Instruction::Ld { dr: reg, label }, p4))
                                    } else if str_eq_lit(&w, "LDI") {
                                        Some((Instruction::Ldi { dr: reg, label }, p4))
                                    } else if str_eq_lit(&w, "LEA") {
                                        Some((Instruction::Lea { dr: reg, label }, p4))
                                    } else if str_eq_lit(&w, "ST") {
                                        Some((Instruction::St { sr: reg, label }, p4))
                                    } else {
                                        Some((Instruction::Sti { sr: reg, label }, p4))
                                    }
                                },
                            }
                        },
                    },
                }
            } else if str_eq_lit(&w, "LDR") || str_eq_lit(&w, "STR") {
                match ws1(chars, p, end) {
                    None => None,
                    Some(p1) => match parse_register(chars, p1, end, errors) {
                        None => None,
                        Some((reg, p2)) => {
                            let p3 = comma(chars, p2, end);
                            match parse_register(chars, p3, end, errors) {
                                None => None,
                                Some((base, p4)) => {
                                    let p5 = comma(chars, p4, end);
                                    match parse_number(chars, p5, end) {
                                        None => None,
                                        Some((v, p6)) => {
                                            if str_eq_lit(&w, "LDR") {
                                                Some((
                                                    Instruction::Ldr {
                                                        dr: reg,
                                                        base,
                                                        offset: v as i8,
                                                    },
                                                    p6,
                                                ))
                                            } else {
                                                Some((
                                                    Instruction::Str {
                                                        sr: reg,
                                                        base,
                                                        offset: v as i8,
                                                    },
                                                    p6,
                                                ))
                                            }
                                        },
                                    }
                                },
                            }
                        },
                    },
                }
            } else if str_eq_lit(&w, "TRAP") {
                match ws1(chars, p, end) {
                    None => None,
                    Some(p1) => match parse_hex(chars, p1, end) {
                        Some((v, p2)) => {
                            proof {
                                assert(((v as i16) as u16) as u8 == v as u8) by (bit_vector);
                            }
                            Some((Instruction::Trap { trapvect: v as u8 }, p2))
                        },
                        None => match parse_decimal(chars, p1, end) {
                            Some((v, p2)) => Some((
                                Instruction::Trap { trapvect: (v as u16) as u8 },
                                p2,
                            )),
                            None => None,
                        },
                    },
                }
            } else if str_eq_lit(&w, "GETC") {
                Some((Instruction::Getc, p))
            } else if str_eq_lit(&w, "OUT") {
                Some((Instruction::Out, p))
            } else if str_eq_lit(&w, "PUTS") {
                Some((Instruction::Puts, p))
            } else if str_eq_lit(&w, "IN") {
                Some((Instruction::In, p))
            } else if str_eq_lit(&w, "PUTSP") {
                Some((Instruction::Putsp, p))
            } else if str_eq_lit(&w, "HALT") {
                Some((Instruction::Halt, p))
            } else if str_eq_lit(&w, "RTI") {
                Some((Instruction::Rti, p))
            } else {
                match parse_branch_cond(&w) {
                    None => None,
                    Some((n, z, p_flag)) => match ws1(chars, p, end) {
                        None => None,
                        Some(p1) => match parse_ident(chars, p1, end) {
                            None => None,
                            Some((label, p2)) => Some((
                                Instruction::Br { n, z, p: p_flag, label },
                                p2,
                            )),
                        },
                    },
                }
            }
        },
    }
}

/// The diagnostic raised when anything but whitespace or a comment
/// follows a line's parsed content at `pos`.
pub open spec fn spec_eol_errors(s: Seq<char>, pos: int, end: int) -> Seq<ParseErrModel> {
    let q = scan_ws_end(s, pos, end);
    if q < end && q < s.len() && s[q] != ';' {
        seq![
            parse_err(
                s,
                Span { start: q as usize, end: (q + 1) as usize },
                "unexpected "@ + spec_char_desc(s[q]) + ", expected end of line or comment"@,
            ),
        ]
    } else {
        Seq::empty()
    }
}

/// Check that only whitespace or a comment follows the parsed content of a
/// line, diagnosing anything else.
fn check_eol(chars: &Vec<char>, pos: usize, end: usize, errors: &mut Vec<ParseError>)
    requires
        pos <= end <= chars@.len(),
    ensures
        perr_views(final(errors)@) == perr_views(old(errors)@) + spec_eol_errors(
            chars@,
            pos as int,
            end as int,
        ),
{
    let q = skip_ws(chars, pos, end);
    if q < end && chars[q] != ';' {
        let mut m = "unexpected ".to_owned();
        push_char_desc(&mut m, chars[q]);
        m.append(", expected end of line or comment");
        let e = make_parse_error(chars, Span::new(q, q + 1), m);
        let ghost ev = e@;
        errors.push(e);
        proof {
            assert(perr_views(errors@) =~= perr_views(old(errors)@) + seq![ev]);
        }
    } else {
        proof {
            assert(perr_views(errors@) =~= perr_views(old(errors)@) + Seq::<ParseErrModel>::empty());
        }
    }
}


/// The position of the first newline at or after `i`, or the end of the
/// source.
pub open spec fn scan_line_end(s: Seq<char>, i: int) -> int
    decreases s.len() - i,
{
    if i < 0 || i >= s.len() || s[i] == '\n' {
        i
    } else {
        scan_line_end(s, i + 1)
    }
}

/// A region free of newlines followed by a newline or the end of the
/// source ends the line exactly there.
pub proof fn lemma_scan_line_end(s: Seq<char>, start: int, i: int)
    requires
        0 <= start <= i <= s.len(),
        forall|j: int| start <= j < i ==> s[j] != '\n',
        i == s.len() || s[i] == '\n',
    ensures
        scan_line_end(s, start) == i,
    decreases i - start,
{
    if start < i {
        lemma_scan_line_end(s, start + 1, i);
    }
}

/// A returned parsed line is faithful to the text of its line `[start,
/// end)` and is the form the ordered grammar yields: a label with a colon
/// takes a following directive or instruction if one parses; a colon-less
/// non-reserved label does the same after whitespace; otherwise a bare
/// directive, a bare instruction, a bare label, an empty or comment line,
/// and only when nothing fits an error line spanning the rest.
pub open spec fn line_matches(s: Seq<char>, start: int, end: int, sl: SpannedLine) -> bool {
    let p0 = scan_ws_end(s, start, end);
    let identp = p0 < end && p0 < s.len() && (spec_is_alpha(s[p0]) || s[p0] == '_');
    let q0 = scan_ident_end(s, p0 + 1, end);
    let word = spec_upper(s.subrange(p0, q0));
    let colon = identp && q0 < end && q0 < s.len() && s[q0] == ':';
    let p2c = scan_ws_end(s, q0 + 1, end);
    &&& sl.span.start == start
    &&& match sl.line {
        Line::Empty => (p0 >= end || (p0 < s.len() && s[p0] == ';')) && sl.span.end == p0,
        Line::Error => {
            &&& p0 < end
            &&& p0 < s.len()
            &&& s[p0] != ';'
            &&& spec_try_directive(s, p0, end) is None
            &&& spec_try_instruction(s, p0, end) is None
            &&& (identp ==> (!colon && spec_is_reserved(word)))
            &&& sl.span.end == end
        },
        Line::Label(l) => {
            &&& label_matches(s, p0, end, l, q0)
            &&& ((colon && spec_try_directive(s, p2c, end) is None && spec_try_instruction(
                s,
                p2c,
                end,
            ) is None && sl.span.end == q0 + 1) || (!colon && !spec_is_reserved(l.value@)
                && spec_try_instruction(s, p0, end) is None && (match spec_ws1(s, q0, end) {
                Some(p2) => spec_try_directive(s, p2, end) is None && spec_try_instruction(
                    s,
                    p2,
                    end,
                ) is None,
                None => true,
            }) && sl.span.end == q0))
        },
        Line::LabeledDirective(l, d) => {
            &&& label_matches(s, p0, end, l, q0)
            &&& ((colon && directive_matches(s, p2c, end, d, sl.span.end as int)) || (!colon
                && !spec_is_reserved(l.value@) && (match spec_ws1(s, q0, end) {
                Some(p2) => directive_matches(s, p2, end, d, sl.span.end as int),
                None => false,
            })))
        },
        Line::LabeledInstruction(l, ins) => {
            &&& label_matches(s, p0, end, l, q0)
            &&& ((colon && spec_try_directive(s, p2c, end) is None && instruction_matches(
                s,
                p2c,
                end,
                ins,
                sl.span.end as int,
            )) || (!colon && !spec_is_reserved(l.value@) && (match spec_ws1(s, q0, end) {
                Some(p2) => spec_try_directive(s, p2, end) is None && instruction_matches(
                    s,
                    p2,
                    end,
                    ins,
                    sl.span.end as int,
                ),
                None => false,
            })))
        },
        Line::Directive(d) => directive_matches(s, p0, end, d, sl.span.end as int),
        Line::Instruction(ins) => {
            &&& instruction_matches(s, p0, end, ins, sl.span.end as int)
            &&& !colon
            &&& (spec_is_reserved(word) || (match spec_ws1(s, q0, end) {
                Some(p2) => spec_try_directive(s, p2, end) is None && spec_try_instruction(
                    s,
                    p2,
                    end,
                ) is None,
                None => true,
            }))
        },
    }
}

/// The diagnostics one line raises: the successful form's register
/// diagnostics, a trailing-junk diagnostic, or one error-line diagnostic.
pub open spec fn spec_line_errors(s: Seq<char>, start: int, end: int) -> Seq<ParseErrModel> {
    let p0 = scan_ws_end(s, start, end);
    let identp = p0 < end && p0 < s.len() && (spec_is_alpha(s[p0]) || s[p0] == '_');
    let q0 = scan_ident_end(s, p0 + 1, end);
    let word = spec_upper(s.subrange(p0, q0));
    let colon = identp && q0 < end && q0 < s.len() && s[q0] == ':';
    if colon {
        let p2 = scan_ws_end(s, q0 + 1, end);
        match spec_try_directive(s, p2, end) {
            Some(q) => spec_eol_errors(s, q, end),
            None => match spec_try_instruction(s, p2, end) {
                Some((q, ds)) => ds + spec_eol_errors(s, q, end),
                None => spec_eol_errors(s, q0 + 1, end),
            },
        }
    } else {
        let space_path = identp && !spec_is_reserved(word) && spec_ws1(s, q0, end) is Some;
        let p2 = spec_ws1(s, q0, end).unwrap();
        if space_path && spec_try_directive(s, p2, end) is Some {
            spec_eol_errors(s, spec_try_directive(s, p2, end).unwrap(), end)
        } else if space_path && spec_try_instruction(s, p2, end) is Some {
            spec_try_instruction(s, p2, end).unwrap().1 + spec_eol_errors(
                s,
                spec_try_instruction(s, p2, end).unwrap().0,
                end,
            )
        } else if spec_try_directive(s, p0, end) is Some {
            spec_eol_errors(s, spec_try_directive(s, p0, end).unwrap(), end)
        } else if spec_try_instruction(s, p0, end) is Some {
            spec_try_instruction(s, p0, end).unwrap().1 + spec_eol_errors(
                s,
                spec_try_instruction(s, p0, end).unwrap().0,
                end,
            )
        } else if identp && !spec_is_reserved(word) {
            spec_eol_errors(s, q0, end)
        } else if p0 >= end || (p0 < s.len() && s[p0] == ';') {
            Seq::empty()
        } else {
            seq![
                parse_err(
                    s,
                    Span { start: p0 as usize, end: end as usize },
                    "unexpected "@ + spec_char_desc(s[p0])
                        + ", expected instruction, directive, or label"@,
                ),
            ]
        }
    }
}

/// Parse one source line; a line that fits no form is recorded as an
/// error line spanning to the end of the line.
#[verifier::rlimit(100)]
fn parse_line(chars: &Vec<char>, start: usize, end: usize, errors: &mut Vec<ParseError>) -> (r:
    SpannedLine)
    requires
        start <= end <= chars@.len(),
    ensures
        wf_spanned_line(r, chars@.len() as int),
        line_matches(chars@, start as int, end as int, r),
        perr_views(final(errors)@) == perr_views(old(errors)@) + spec_line_errors(
            chars@,
            start as int,
            end as int,
        ),
{
    let p0 = skip_ws(chars, start, end);

    // A label with a colon, alone or followed by a directive or instruction.
    match parse_ident(chars, p0, end) {
        Some((label, p1)) => {
            if p1 < end && chars[p1] == ':' {
                let p2 = skip_ws(chars, p1 + 1, end);
                match parse_directive(chars, p2, end) {
                    Some((d, p3)) => {
                        check_eol(chars, p3, end, errors);
                        proof {
                            assert(label_matches(chars@, scan_ws_end(chars@, start as int,
                            end as int), end as int, label, p1 as int));
                            assert(directive_matches(chars@, scan_ws_end(chars@, p1 + 1,
                            end as int), end as int, d, p3 as int));
                        }
                        return SpannedLine {
                            line: Line::LabeledDirective(label, d),
                            span: Span::new(start, p3),
                        };
                    },
                    None => {},
                }
                match parse_instruction(chars, p2, end, errors) {
                    Some((ins, p3)) => {
                        check_eol(chars, p3, end, errors);
                        proof {
                            assert(label_matches(chars@, scan_ws_end(chars@, start as int,
                            end as int), end as int, label, p1 as int));
                            assert(instruction_matches(chars@, scan_ws_end(chars@, p1 + 1,
                            end as int), end as int, ins, p3 as int));
                        }
                        return SpannedLine {
                            line: Line::LabeledInstruction(label, ins),
                            span: Span::new(start, p3),
                        };
                    },
                    None => {},
                }
                check_eol(chars, p1 + 1, end, errors);
                proof {
                    assert(label_matches(chars@, scan_ws_end(chars@, start as int, end as int),
                    end as int, label, p1 as int));
                }
                return SpannedLine { line: Line::Label(label), span: Span::new(start, p1 + 1) };
            }
            // A colon-less label followed by a directive or instruction.
            if !is_reserved(&label.value) {
                if p1 < end && is_ws(chars[p1]) {
                    let p2 = skip_ws(chars, p1, end);
                    proof {
                        assert(spec_ws1(chars@, p1 as int, end as int) == Some(p2 as int));
                    }
                    match parse_directive(chars, p2, end) {
                        Some((d, p3)) => {
                            check_eol(chars, p3, end, errors);
                            proof {
                                assert(label_matches(chars@, scan_ws_end(chars@, start as int,
                                end as int), end as int, label, p1 as int));
                            }
                            return SpannedLine {
                                line: Line::LabeledDirective(label, d),
                                span: Span::new(start, p3),
                            };
                        },
                        None => {},
                    }
                    match parse_instruction(chars, p2, end, errors) {
                        Some((ins, p3)) => {
                            check_eol(chars, p3, end, errors);
                            proof {
                                assert(label_matches(chars@, scan_ws_end(chars@, start as int,
                                end as int), end as int, label, p1 as int));
                            }
                            return SpannedLine {
                                line: Line::LabeledInstruction(label, ins),
                                span: Span::new(start, p3),
                            };
                        },
                        None => {},
                    }
                }
            }
        },
        None => {},
    }

    // A bare directive or instruction.
    match parse_directive(chars, p0, end) {
        Some((d, p3)) => {
            check_eol(chars, p3, end, errors);
            return SpannedLine { line: Line::Directive(d), span: Span::new(start, p3) };
        },
        None => {},
    }
    match parse_instruction(chars, p0, end, errors) {
        Some((ins, p3)) => {
            check_eol(chars, p3, end, errors);
            return SpannedLine { line: Line::Instruction(ins), span: Span::new(start, p3) };
        },
        None => {},
    }

    // A bare colon-less label.
    match parse_ident(chars, p0, end) {
        Some((label, p1)) => {
            if !is_reserved(&label.value) {
                check_eol(chars, p1, end, errors);
                proof {
                    assert(label_matches(chars@, scan_ws_end(chars@, start as int, end as int),
                    end as int, label, p1 as int));
                }
                return SpannedLine { line: Line::Label(label), span: Span::new(start, p1) };
            }
        },
        None => {},
    }

    // An empty or comment-only line.
    if p0 >= end || chars[p0] == ';' {
        return SpannedLine { line: Line::Empty, span: Span::new(start, p0) };
    }

    // Nothing fits: an error line spanning the remaining input.
    let mut m = "unexpected ".to_owned();
    push_char_desc(&mut m, chars[p0]);
    m.append(", expected instruction, directive, or label");
    let e = make_parse_error(chars, Span::new(p0, end), m);
    errors.push(e);
    SpannedLine { line: Line::Error, span: Span::new(start, end) }
}

/// The number of newlines among the first `i` characters.
pub open spec fn count_newlines(s: Seq<char>, i: int) -> int
    decreases i,
{
    if i <= 0 || i > s.len() {
        0
    } else {
        count_newlines(s, i - 1) + if s[i - 1] == '\n' {
            1int
        } else {
            0int
        }
    }
}


/// The diagnostics of the whole source: each line's, in source order.
pub open spec fn spec_parse_errors_from(s: Seq<char>, start: int, i: int) -> Seq<ParseErrModel>
    decreases s.len() - i,
{
    if i < 0 || i >= s.len() {
        spec_line_errors(s, start, s.len() as int)
    } else if s[i] == '\n' {
        spec_line_errors(s, start, i) + spec_parse_errors_from(s, i + 1, i + 1)
    } else {
        spec_parse_errors_from(s, start, i + 1)
    }
}

/// The diagnostics parsing a source raises; it parses cleanly exactly
/// when there are none.
pub open spec fn spec_parse_errors(s: Seq<char>) -> Seq<ParseErrModel> {
    spec_parse_errors_from(s, 0, 0)
}

/// A parsed program is faithful to its source: one entry per source line,
/// the first at offset 0 and each next one just past the previous line's
/// newline, every span within the source, and every line exactly the form
/// and content the ordered grammar gives its text.
pub open spec fn program_matches(s: Seq<char>, lines: Seq<SpannedLine>) -> bool {
    &&& lines.len() == 1 + count_newlines(s, s.len() as int)
    &&& lines[0].span.start == 0
    &&& forall|i: int| 0 <= i < lines.len() ==> wf_spanned_line(#[trigger] lines[i], s.len() as int)
    &&& forall|k: int|
        0 <= k < lines.len() ==> line_matches(
            s,
            (#[trigger] lines[k]).span.start as int,
            scan_line_end(s, lines[k].span.start as int),
            lines[k],
        )
    &&& forall|k: int|
        0 <= k && k + 1 < lines.len() ==> (#[trigger] lines[k + 1]).span.start == scan_line_end(
            s,
            lines[k].span.start as int,
        ) + 1
}

/// Parse LC-3 assembly source code into a program, one parsed line per
/// source line. On any syntax error the collected error list is returned
/// instead. A successful parse is faithful to the source: the program has
/// one entry per source line, the first starting at offset 0 and each
/// next one just past the previous line's newline, every span lies within
/// the source, and every parsed line means exactly what the text of its
/// line says.
#[verifier::rlimit(100)]
#[verifier::spinoff_prover]
pub fn parse(source: &str) -> (r: Result<Program, Vec<ParseError>>)
    ensures
        r is Ok <==> spec_parse_errors(source@).len() == 0,
        match r {
            Ok(p) => program_matches(source@, p.lines@),
            Err(es) => es@.len() > 0 && perr_views(es@) == spec_parse_errors(source@),
        },
{
    let chars = to_chars(source);
    let n = chars.len();
    let mut errors: Vec<ParseError> = Vec::new();
    let mut lines: Vec<SpannedLine> = Vec::new();
    let mut start: usize = 0;
    let mut i: usize = 0;
    proof {
        assert(perr_views(errors@) + spec_parse_errors_from(source@, 0, 0)
            =~= spec_parse_errors(source@));
    }
    while i < n
        invariant
            start <= i <= n,
            n == chars@.len(),
            chars@ == source@,
            lines@.len() == count_newlines(source@, i as int),
            forall|j: int| start <= j < i ==> chars@[j] != '\n',
            lines@.len() > 0 ==> lines@[0].span.start == 0,
            lines@.len() == 0 ==> start == 0,
            lines@.len() > 0 ==> start == scan_line_end(
                source@,
                lines@[lines@.len() - 1].span.start as int,
            ) + 1,
            perr_views(errors@) + spec_parse_errors_from(source@, start as int, i as int)
                == spec_parse_errors(source@),
            forall|k: int|
                0 <= k < lines@.len() ==> wf_spanned_line(#[trigger] lines@[k], source@.len() as int),
            forall|k: int|
                0 <= k < lines@.len() ==> line_matches(
                    source@,
                    (#[trigger] lines@[k]).span.start as int,
                    scan_line_end(source@, lines@[k].span.start as int),
                    lines@[k],
                ),
            forall|k: int|
                0 <= k && k + 1 < lines@.len() ==> (#[trigger] lines@[k + 1]).span.start
                    == scan_line_end(source@, lines@[k].span.start as int) + 1,
        decreases n - i,
    {
        if chars[i] == '\n' {
            proof {
                lemma_scan_line_end(source@, start as int, i as int);
            }
            let sl = parse_line(&chars, start, i, &mut errors);
            lines.push(sl);
            proof {
                assert(perr_views(errors@) + spec_parse_errors_from(source@, i + 1, i + 1)
                    =~= spec_parse_errors(source@));
            }
            start = i + 1;
        }
        i = i + 1;
    }
    proof {
        lemma_scan_line_end(source@, start as int, n as int);
    }
    let sl = parse_line(&chars, start, n, &mut errors);
    lines.push(sl);
    proof {
        assert(perr_views(errors@) =~= spec_parse_errors(source@));
    }
    if errors.len() == 0 {
        proof {
            assert(perr_views(errors@) =~= Seq::<ParseErrModel>::empty());
        }
        Ok(Program { lines })
    } else {
        Err(errors)
    }
}

} // verus!
