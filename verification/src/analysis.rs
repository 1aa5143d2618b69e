//! Semantic analysis for editor integration: a symbol table and reference
//! list built over the parsed program, diagnostics (parse errors plus
//! undefined-label errors), definition and reference lookup, hover text,
//! completions, and a per-line semantic-token stream for highlighting.

use vstd::prelude::*;
use vstd::string::StrSliceExecFns;
use vstd::string::StringExecFns;

use crate::ast::Directive;
use crate::ast::Instruction;
use crate::ast::Line;
use crate::ast::Program;
use crate::ast::Span;
use crate::ast::SpannedLine;
use crate::parser::parse;
use crate::text::push_hex4;
use crate::text::spec_hex4;

verus! {

/// Diagnostic severity levels.
#[derive(Debug, Clone, Copy, PartialEq, Eq, Structural)]
pub enum Severity {
    Error,
    Warning,
    Info,
    Hint,
}

/// A diagnostic message with location.
#[derive(Debug, Clone, PartialEq, Eq)]
pub struct Diagnostic {
    pub message: String,
    pub severity: Severity,
    pub start_line: u32,
    pub start_col: u32,
    pub end_line: u32,
    pub end_col: u32,
}

/// Ghost model of a [`Diagnostic`].
#[verifier::ext_equal]
pub struct DiagModel {
    pub message: Seq<char>,
    pub severity: Severity,
    pub start_line: u32,
    pub start_col: u32,
    pub end_line: u32,
    pub end_col: u32,
}

impl View for Diagnostic {
    type V = DiagModel;

    open spec fn view(&self) -> DiagModel {
        DiagModel {
            message: self.message@,
            severity: self.severity,
            start_line: self.start_line,
            start_col: self.start_col,
            end_line: self.end_line,
            end_col: self.end_col,
        }
    }
}

/// The ghost models of a list of diagnostics.
pub open spec fn diag_views(s: Seq<Diagnostic>) -> Seq<DiagModel> {
    s.map_values(|d: Diagnostic| d@)
}

/// A location in the source code, 1-based.
#[derive(Debug, Clone, PartialEq, Eq, Structural)]
pub struct Location {
    pub start_line: u32,
    pub start_col: u32,
    pub end_line: u32,
    pub end_col: u32,
}

/// Kind of symbol.
#[derive(Debug, Clone, Copy, PartialEq, Eq, Structural)]
pub enum SymbolKind {
    Label,
    Subroutine,
    Data,
}

/// Information about a symbol (label).
#[derive(Debug, Clone)]
pub struct SymbolInfo {
    pub name: String,
    pub kind: SymbolKind,
    pub location: Location,
    pub address: Option<u16>,
    pub documentation: Option<String>,
}

/// Kind of completion.
#[derive(Debug, Clone, Copy, PartialEq, Eq, Structural)]
pub enum CompletionKind {
    Label,
    Keyword,
    Snippet,
}

/// A completion item.
#[derive(Debug, Clone)]
pub struct CompletionItem {
    pub label: String,
    pub kind: CompletionKind,
    pub detail: Option<String>,
    pub documentation: Option<String>,
    pub insert_text: Option<String>,
}

/// Hover information.
#[derive(Debug, Clone)]
pub struct HoverInfo {
    pub contents: String,
    pub range: Option<Location>,
}

/// Token type for semantic highlighting.
#[derive(Debug, Clone, Copy, PartialEq, Eq, Structural)]
pub enum TokenType {
    Keyword,
    Label,
    LabelRef,
    Register,
    Number,
    String,
    Comment,
    Directive,
    Operator,
}

/// A semantic token for highlighting.
#[derive(Debug, Clone, PartialEq, Eq, Structural)]
pub struct SemanticToken {
    pub line: u32,
    pub start_col: u32,
    pub length: u32,
    pub token_type: TokenType,
}

/// Internal symbol table entry.
#[derive(Debug, Clone)]
pub struct Symbol {
    pub name: String,
    pub span: Span,
    pub address: u16,
    pub kind: SymbolKind,
    /// Line number (1-based) of the definition.
    pub line: u32,
}

/// A label reference in the code.
#[derive(Debug, Clone)]
pub struct LabelRef {
    pub name: String,
    pub span: Span,
    pub line: u32,
}

// ============================================================================
// Line starts and position mapping.
// ============================================================================

/// The start offsets of the lines after newlines at or past index `i`.
pub open spec fn spec_nl_starts(s: Seq<char>, i: int) -> Seq<usize>
    decreases s.len() - i,
{
    if i < 0 || i >= s.len() {
        Seq::empty()
    } else {
        (if s[i] == '\n' {
            seq![(i + 1) as usize]
        } else {
            Seq::empty()
        }) + spec_nl_starts(s, i + 1)
    }
}

/// The start offsets of all lines: offset 0, then one past each newline.
pub open spec fn spec_line_starts(s: Seq<char>) -> Seq<usize> {
    seq![0usize] + spec_nl_starts(s, 0)
}

/// Compute line start offsets for a source string.
pub fn compute_line_starts(source: &str) -> (r: Vec<usize>)
    ensures
        r@ == spec_line_starts(source@),
        source@.len() <= usize::MAX,
{
    let n = source.unicode_len();
    let mut starts: Vec<usize> = Vec::new();
    starts.push(0);
    let ghost target = spec_line_starts(source@);
    proof {
        assert(starts@ + spec_nl_starts(source@, 0) =~= target);
    }
    let mut i: usize = 0;
    while i < n
        invariant
            i <= n,
            n == source@.len(),
            starts@ + spec_nl_starts(source@, i as int) == spec_line_starts(source@),
        decreases n - i,
    {
        if source.get_char(i) == '\n' {
            starts.push(i + 1);
        }
        proof {
            assert(starts@ + spec_nl_starts(source@, i + 1) =~= spec_line_starts(source@));
        }
        i = i + 1;
    }
    proof {
        assert(spec_nl_starts(source@, i as int) =~= Seq::<usize>::empty());
        assert(starts@ =~= spec_line_starts(source@));
    }
    starts
}

/// A well-formed line-start table: non-empty, starting at 0, sorted.
pub open spec fn sorted_starts(ls: Seq<usize>) -> bool {
    &&& ls.len() >= 1
    &&& ls[0] == 0
    &&& forall|i: int, j: int| 0 <= i <= j < ls.len() ==> #[trigger] ls[i] <= #[trigger] ls[j]
}

/// The line-start table is well formed.
pub proof fn lemma_line_starts_sorted(s: Seq<char>)
    requires
        s.len() <= usize::MAX,
    ensures
        sorted_starts(spec_line_starts(s)),
{
    lemma_nl_starts_bounds(s, 0);
    let ls = spec_line_starts(s);
    assert forall|i: int, j: int| 0 <= i <= j < ls.len() implies #[trigger] ls[i] <= #[trigger] ls[j] by {
        if i > 0 {
            lemma_nl_starts_sorted(s, 0, i - 1, j - 1);
        }
    }
}

/// Newline start tables are position-bounded and sorted.
proof fn lemma_nl_starts_bounds(s: Seq<char>, i: int)
    requires
        s.len() <= usize::MAX,
    ensures
        forall|k: int|
            0 <= k < spec_nl_starts(s, i).len() ==> i < #[trigger] spec_nl_starts(s, i)[k]
                <= s.len(),
    decreases s.len() - i,
{
    if 0 <= i < s.len() {
        lemma_nl_starts_bounds(s, i + 1);
        let cur = spec_nl_starts(s, i);
        let rest = spec_nl_starts(s, i + 1);
        assert forall|k: int| 0 <= k < cur.len() implies i < #[trigger] cur[k] <= s.len() by {
            if s[i] == '\n' {
                if k > 0 {
                    assert(cur[k] == rest[k - 1]);
                }
            } else {
                assert(cur[k] == rest[k]);
            }
        }
    }
}

proof fn lemma_nl_starts_sorted(s: Seq<char>, i: int, a: int, b: int)
    requires
        s.len() <= usize::MAX,
        0 <= a <= b < spec_nl_starts(s, i).len(),
    ensures
        spec_nl_starts(s, i)[a] <= spec_nl_starts(s, i)[b],
    decreases s.len() - i,
{
    lemma_nl_starts_bounds(s, i);
    if 0 <= i < s.len() {
        let rest = spec_nl_starts(s, i + 1);
        if s[i] == '\n' {
            if a > 0 {
                lemma_nl_starts_sorted(s, i + 1, a - 1, b - 1);
            } else {
                lemma_nl_starts_bounds(s, i + 1);
                if b > 0 {
                    lemma_nl_starts_sorted(s, i + 1, 0, b - 1);
                }
            }
        } else {
            lemma_nl_starts_sorted(s, i + 1, a, b);
        }
    }
}

/// The index of the line holding `offset`: the largest index whose start
/// is at or before it.
pub open spec fn spec_line_index_from(ls: Seq<usize>, offset: int, i: int) -> int
    decreases i,
{
    if i <= 0 {
        0
    } else if ls[i] <= offset {
        i
    } else {
        spec_line_index_from(ls, offset, i - 1)
    }
}

/// The line index of `offset` in the table.
pub open spec fn spec_line_index(ls: Seq<usize>, offset: int) -> int {
    spec_line_index_from(ls, offset, ls.len() - 1)
}

proof fn lemma_line_index_char(ls: Seq<usize>, offset: int, i: int)
    requires
        sorted_starts(ls),
        offset >= 0,
        0 <= i < ls.len(),
    ensures
        ({
            let k = spec_line_index_from(ls, offset, i);
            &&& 0 <= k <= i
            &&& ls[k] <= offset
            &&& forall|j: int| k < j <= i ==> ls[j] > offset
        }),
    decreases i,
{
    if i > 0 && !(ls[i] <= offset) {
        lemma_line_index_char(ls, offset, i - 1);
    }
}

/// The 1-based (line, column) of a byte offset, given the line starts.
pub open spec fn spec_position(ls: Seq<usize>, offset: usize) -> (u32, u32)
    recommends
        sorted_starts(ls),
{
    let k = spec_line_index(ls, offset as int);
    (((k + 1) as usize) as u32, (((offset - ls[k]) as usize).wrapping_add(1)) as u32)
}

/// Convert a byte offset to 1-based (line, column) by binary search over
/// the line starts.
pub fn offset_to_position(line_starts: &[usize], offset: usize) -> (r: (u32, u32))
    requires
        sorted_starts(line_starts@),
    ensures
        r == spec_position(line_starts@, offset),
{
    let ghost ls = line_starts@;
    let mut lo: usize = 0;
    let mut hi: usize = line_starts.len();
    while lo + 1 < hi
        invariant
            0 <= lo < hi <= ls.len(),
            ls == line_starts@,
            sorted_starts(ls),
            ls[lo as int] <= offset,
            hi < ls.len() ==> ls[hi as int] > offset,
        decreases hi - lo,
    {
        let mid = lo + (hi - lo) / 2;
        if line_starts[mid] <= offset {
            lo = mid;
        } else {
            hi = mid;
        }
    }
    proof {
        lemma_line_index_char(ls, offset as int, ls.len() - 1);
        let k = spec_line_index(ls, offset as int);
        if k < lo {
            assert(ls[lo as int] > offset);
            assert(false);
        }
        if k > lo {
            assert(k <= ls.len() - 1);
            if lo + 1 == ls.len() {
                assert(false);
            } else {
                assert(hi == lo + 1);
                assert(ls[k] <= offset);
                assert(ls[lo + 1] <= ls[k]);
                assert(false);
            }
        }
    }
    let line = (lo + 1) as u32;
    let col = ((offset - line_starts[lo]).wrapping_add(1)) as u32;
    (line, col)
}

/// Convert a 1-based (line, column) to a byte offset, if the line exists.
pub fn position_to_offset(line_starts: &[usize], line: u32, col: u32) -> (r: Option<usize>)
    ensures
        r == if line >= 1 && line - 1 < line_starts@.len() {
            Some(
                (line_starts@[line - 1] as usize).wrapping_add(
                    if col >= 1 {
                        (col - 1) as usize
                    } else {
                        0
                    },
                ),
            )
        } else {
            None::<usize>
        },
{
    if line < 1 {
        return None;
    }
    let line_idx = (line - 1) as usize;
    if line_idx >= line_starts.len() {
        return None;
    }
    let delta: usize = if col >= 1 {
        (col - 1) as usize
    } else {
        0
    };
    Some(line_starts[line_idx].wrapping_add(delta))
}

/// Whether a word is an LC-3 mnemonic (case-sensitive, upper case).
pub open spec fn spec_is_mnemonic(w: Seq<char>) -> bool {
    ||| w == "ADD"@
    ||| w == "AND"@
    ||| w == "NOT"@
    ||| w == "BR"@
    ||| w == "BRN"@
    ||| w == "BRZ"@
    ||| w == "BRP"@
    ||| w == "BRNZ"@
    ||| w == "BRNP"@
    ||| w == "BRZP"@
    ||| w == "BRNZP"@
    ||| w == "JMP"@
    ||| w == "RET"@
    ||| w == "JSR"@
    ||| w == "JSRR"@
    ||| w == "LD"@
    ||| w == "LDI"@
    ||| w == "LDR"@
    ||| w == "LEA"@
    ||| w == "ST"@
    ||| w == "STI"@
    ||| w == "STR"@
    ||| w == "TRAP"@
    ||| w == "HALT"@
    ||| w == "GETC"@
    ||| w == "OUT"@
    ||| w == "PUTS"@
    ||| w == "IN"@
    ||| w == "PUTSP"@
    ||| w == "RTI"@
}

/// Check whether a word is an LC-3 mnemonic (case-sensitive, upper case).
pub fn is_instruction(word: &str) -> (r: bool)
    ensures
        r == spec_is_mnemonic(word@),
{
    crate::parser::str_eq_lit_str(word, "ADD") || crate::parser::str_eq_lit_str(word, "AND")
        || crate::parser::str_eq_lit_str(word, "NOT") || crate::parser::str_eq_lit_str(word, "BR")
        || crate::parser::str_eq_lit_str(word, "BRN") || crate::parser::str_eq_lit_str(word, "BRZ")
        || crate::parser::str_eq_lit_str(word, "BRP") || crate::parser::str_eq_lit_str(
        word,
        "BRNZ",
    ) || crate::parser::str_eq_lit_str(word, "BRNP") || crate::parser::str_eq_lit_str(word, "BRZP")
        || crate::parser::str_eq_lit_str(word, "BRNZP") || crate::parser::str_eq_lit_str(
        word,
        "JMP",
    ) || crate::parser::str_eq_lit_str(word, "RET") || crate::parser::str_eq_lit_str(word, "JSR")
        || crate::parser::str_eq_lit_str(word, "JSRR") || crate::parser::str_eq_lit_str(word, "LD")
        || crate::parser::str_eq_lit_str(word, "LDI") || crate::parser::str_eq_lit_str(word, "LDR")
        || crate::parser::str_eq_lit_str(word, "LEA") || crate::parser::str_eq_lit_str(word, "ST")
        || crate::parser::str_eq_lit_str(word, "STI") || crate::parser::str_eq_lit_str(word, "STR")
        || crate::parser::str_eq_lit_str(word, "TRAP") || crate::parser::str_eq_lit_str(
        word,
        "HALT",
    ) || crate::parser::str_eq_lit_str(word, "GETC") || crate::parser::str_eq_lit_str(word, "OUT")
        || crate::parser::str_eq_lit_str(word, "PUTS") || crate::parser::str_eq_lit_str(word, "IN")
        || crate::parser::str_eq_lit_str(word, "PUTSP") || crate::parser::str_eq_lit_str(
        word,
        "RTI",
    )
}

// ============================================================================
// The symbol table: an association list with first-match lookup.
// ============================================================================

/// The symbol the list gives a name: its first entry of that name.
pub open spec fn spec_sym_lookup(entries: Seq<(String, Symbol)>, name: Seq<char>) -> Option<Symbol>
    decreases entries.len(),
{
    if entries.len() == 0 {
        None
    } else if entries[0].0@ == name {
        Some(entries[0].1)
    } else {
        spec_sym_lookup(entries.skip(1), name)
    }
}

/// Insertion into the symbol list: an existing entry of the same name is
/// overwritten in place, otherwise the new entry is appended.
pub open spec fn spec_sym_insert(
    entries: Seq<(String, Symbol)>,
    name: String,
    sym: Symbol,
) -> Seq<(String, Symbol)>
    decreases entries.len(),
{
    if entries.len() == 0 {
        seq![(name, sym)]
    } else if entries[0].0@ == name@ {
        seq![(name, sym)] + entries.skip(1)
    } else {
        seq![entries[0]] + spec_sym_insert(entries.skip(1), name, sym)
    }
}

/// Look a name up in the symbol list.
fn sym_get<'a>(entries: &'a Vec<(String, Symbol)>, name: &String) -> (r: Option<&'a Symbol>)
    ensures
        match r {
            Some(sym) => spec_sym_lookup(entries@, name@) == Some(*sym),
            None => spec_sym_lookup(entries@, name@) is None,
        },
{
    let mut i: usize = 0;
    proof {
        assert(entries@.skip(0) =~= entries@);
    }
    while i < entries.len()
        invariant
            i <= entries@.len(),
            spec_sym_lookup(entries@, name@) == spec_sym_lookup(entries@.skip(i as int), name@),
        decreases entries@.len() - i,
    {
        proof {
            assert(entries@.skip(i as int)[0] == entries@[i as int]);
            assert(entries@.skip(i as int).skip(1) =~= entries@.skip(i + 1));
        }
        if entries[i].0 == *name {
            return Some(&entries[i].1);
        }
        i = i + 1;
    }
    proof {
        assert(entries@.skip(i as int) =~= Seq::<(String, Symbol)>::empty());
    }
    None
}

/// Insert a symbol, overwriting an entry of the same name in place.
fn sym_insert(entries: &mut Vec<(String, Symbol)>, name: String, sym: Symbol)
    ensures
        final(entries)@ == spec_sym_insert(old(entries)@, name, sym),
{
    let ghost orig = old(entries)@;
    proof {
        assert(orig.subrange(0, 0) + spec_sym_insert(orig.skip(0), name, sym) =~= spec_sym_insert(
            orig,
            name,
            sym,
        )) by {
            assert(orig.skip(0) =~= orig);
        }
    }
    let mut i: usize = 0;
    while i < entries.len()
        invariant
            orig == old(entries)@,
            i <= orig.len(),
            entries@ == orig,
            spec_sym_insert(orig, name, sym) == orig.subrange(0, i as int) + spec_sym_insert(
                orig.skip(i as int),
                name,
                sym,
            ),
        decreases orig.len() - i,
    {
        proof {
            assert(orig.skip(i as int)[0] == orig[i as int]);
            assert(orig.skip(i as int).skip(1) =~= orig.skip(i + 1));
        }
        if entries[i].0 == *(&name) {
            entries[i] = (name, sym);
            proof {
                assert(spec_sym_insert(orig.skip(i as int), name, sym) == seq![(name, sym)]
                    + orig.skip(i as int).skip(1));
                assert(entries@ =~= orig.subrange(0, i as int) + (seq![(name, sym)] + orig.skip(
                    i as int,
                ).skip(1)));
            }
            return ;
        }
        proof {
            assert(orig.subrange(0, i as int) + (seq![orig[i as int]] + spec_sym_insert(
                orig.skip(i + 1),
                name,
                sym,
            )) =~= orig.subrange(0, i + 1) + spec_sym_insert(orig.skip(i + 1), name, sym));
        }
        i = i + 1;
    }
    proof {
        assert(orig.skip(i as int) =~= Seq::<(String, Symbol)>::empty());
    }
    entries.push((name, sym));
    proof {
        assert(entries@ =~= orig.subrange(0, i as int) + seq![(name, sym)]);
    }
}

// ============================================================================
// Symbol and reference collection.
// ============================================================================

/// The symbol kind a directive's label gets: data-producing directives
/// define data, everything else a plain label.
pub open spec fn spec_dir_kind(d: Directive) -> SymbolKind {
    match d {
        Directive::Stringz(_) => SymbolKind::Data,
        Directive::Fill(_) => SymbolKind::Data,
        Directive::Blkw(_) => SymbolKind::Data,
        _ => SymbolKind::Label,
    }
}

/// The label references an instruction makes.
pub open spec fn spec_instr_refs(instr: Instruction, ln: u32) -> Seq<LabelRef> {
    match instr {
        Instruction::Br { label, .. } => seq![
            LabelRef { name: label.value, span: label.span, line: ln },
        ],
        Instruction::Jsr { label } => seq![
            LabelRef { name: label.value, span: label.span, line: ln },
        ],
        Instruction::Ld { label, .. } => seq![
            LabelRef { name: label.value, span: label.span, line: ln },
        ],
        Instruction::Ldi { label, .. } => seq![
            LabelRef { name: label.value, span: label.span, line: ln },
        ],
        Instruction::Lea { label, .. } => seq![
            LabelRef { name: label.value, span: label.span, line: ln },
        ],
        Instruction::St { label, .. } => seq![
            LabelRef { name: label.value, span: label.span, line: ln },
        ],
        Instruction::Sti { label, .. } => seq![
            LabelRef { name: label.value, span: label.span, line: ln },
        ],
        _ => Seq::empty(),
    }
}

/// The symbol table and reference list collected from the lines at `i`
/// on: each label is recorded at the current location counter with its
/// kind and line number, each label-referring instruction adds one
/// reference, and directives advance the location counter.
pub open spec fn spec_collect(
    lines: Seq<SpannedLine>,
    i: int,
    pc: u16,
    ls: Seq<usize>,
    syms: Seq<(String, Symbol)>,
    refs: Seq<LabelRef>,
) -> (Seq<(String, Symbol)>, Seq<LabelRef>)
    decreases lines.len() - i,
{
    if i < 0 || i >= lines.len() {
        (syms, refs)
    } else {
        let ln = spec_position(ls, lines[i].span.start).0;
        match lines[i].line {
            Line::Label(l) => spec_collect(
                lines,
                i + 1,
                pc,
                ls,
                spec_sym_insert(
                    syms,
                    l.value,
                    Symbol {
                        name: l.value,
                        span: l.span,
                        address: pc,
                        kind: SymbolKind::Label,
                        line: ln,
                    },
                ),
                refs,
            ),
            Line::LabeledDirective(l, d) => spec_collect(
                lines,
                i + 1,
                crate::assembler::spec_advance_dir(d, pc),
                ls,
                spec_sym_insert(
                    syms,
                    l.value,
                    Symbol {
                        name: l.value,
                        span: l.span,
                        address: pc,
                        kind: spec_dir_kind(d),
                        line: ln,
                    },
                ),
                refs,
            ),
            Line::LabeledInstruction(l, instr) => spec_collect(
                lines,
                i + 1,
                pc.wrapping_add(1),
                ls,
                spec_sym_insert(
                    syms,
                    l.value,
                    Symbol {
                        name: l.value,
                        span: l.span,
                        address: pc,
                        kind: SymbolKind::Label,
                        line: ln,
                    },
                ),
                refs + spec_instr_refs(instr, ln),
            ),
            Line::Directive(d) => spec_collect(
                lines,
                i + 1,
                crate::assembler::spec_advance_dir(d, pc),
                ls,
                syms,
                refs,
            ),
            Line::Instruction(instr) => spec_collect(
                lines,
                i + 1,
                pc.wrapping_add(1),
                ls,
                syms,
                refs + spec_instr_refs(instr, ln),
            ),
            Line::Empty => spec_collect(lines, i + 1, pc, ls, syms, refs),
            Line::Error => spec_collect(lines, i + 1, pc, ls, syms, refs),
        }
    }
}

/// Record the label reference an instruction makes, if any.
fn collect_label_refs(refs: &mut Vec<LabelRef>, instr: &Instruction, ln: u32)
    ensures
        final(refs)@ == old(refs)@ + spec_instr_refs(*instr, ln),
{
    let label = match instr {
        Instruction::Br { label, .. } => Some(label),
        Instruction::Jsr { label } => Some(label),
        Instruction::Ld { label, .. } => Some(label),
        Instruction::Ldi { label, .. } => Some(label),
        Instruction::Lea { label, .. } => Some(label),
        Instruction::St { label, .. } => Some(label),
        Instruction::Sti { label, .. } => Some(label),
        _ => None,
    };
    match label {
        Some(lbl) => {
            refs.push(LabelRef { name: lbl.value.clone(), span: lbl.span, line: ln });
            proof {
                assert(refs@ =~= old(refs)@ + spec_instr_refs(*instr, ln));
            }
        },
        None => {
            proof {
                assert(refs@ =~= old(refs)@ + spec_instr_refs(*instr, ln));
            }
        },
    }
}

/// Collect symbols and label references from a parsed program.
fn analyze_symbols_from(lines: &Vec<SpannedLine>, line_starts: &Vec<usize>) -> (r: (
    Vec<(String, Symbol)>,
    Vec<LabelRef>,
))
    requires
        sorted_starts(line_starts@),
    ensures
        (r.0@, r.1@) == spec_collect(lines@, 0, 0x3000, line_starts@, Seq::empty(), Seq::empty()),
{
    let ghost target = spec_collect(lines@, 0, 0x3000, line_starts@, Seq::empty(), Seq::empty());
    let mut symbols: Vec<(String, Symbol)> = Vec::new();
    let mut refs: Vec<LabelRef> = Vec::new();
    let mut pc: u16 = 0x3000;

    let mut i: usize = 0;
    while i < lines.len()
        invariant
            i <= lines@.len(),
            sorted_starts(line_starts@),
            spec_collect(lines@, i as int, pc, line_starts@, symbols@, refs@) == target,
        decreases lines@.len() - i,
    {
        let spanned_line = &lines[i];
        let (ln, _) = offset_to_position(line_starts.as_slice(), spanned_line.span.start);
        match &spanned_line.line {
            Line::Label(l) => {
                let sym = Symbol {
                    name: l.value.clone(),
                    span: l.span,
                    address: pc,
                    kind: SymbolKind::Label,
                    line: ln,
                };
                sym_insert(&mut symbols, l.value.clone(), sym);
            },
            Line::LabeledDirective(l, d) => {
                let kind = match d {
                    Directive::Stringz(_) => SymbolKind::Data,
                    Directive::Fill(_) => SymbolKind::Data,
                    Directive::Blkw(_) => SymbolKind::Data,
                    _ => SymbolKind::Label,
                };
                let sym = Symbol { name: l.value.clone(), span: l.span, address: pc, kind, line: ln };
                sym_insert(&mut symbols, l.value.clone(), sym);
                pc = advance_pc(d, pc);
            },
            Line::LabeledInstruction(l, instr) => {
                let sym = Symbol {
                    name: l.value.clone(),
                    span: l.span,
                    address: pc,
                    kind: SymbolKind::Label,
                    line: ln,
                };
                sym_insert(&mut symbols, l.value.clone(), sym);
                collect_label_refs(&mut refs, instr, ln);
                pc = pc.wrapping_add(1);
            },
            Line::Directive(d) => {
                pc = advance_pc(d, pc);
            },
            Line::Instruction(instr) => {
                collect_label_refs(&mut refs, instr, ln);
                pc = pc.wrapping_add(1);
            },
            Line::Empty => {},
            Line::Error => {},
        }
        i = i + 1;
    }
    (symbols, refs)
}

/// Advance the location counter over a directive.
fn advance_pc(dir: &Directive, pc: u16) -> (r: u16)
    ensures
        r == crate::assembler::spec_advance_dir(*dir, pc),
{
    match dir {
        Directive::Orig(addr) => *addr,
        Directive::Fill(_) => pc.wrapping_add(1),
        Directive::Blkw(n) => pc.wrapping_add(*n),
        Directive::Stringz(st) => {
            let l = st.as_str().unicode_len();
            pc.wrapping_add(l as u16).wrapping_add(1)
        },
        Directive::End => pc,
    }
}

// ============================================================================
// The analyzed document and its queries.
// ============================================================================

/// Analyzed document state: the parsed program (when parsing succeeded),
/// parse diagnostics, the symbol table and label references, and the
/// precomputed line starts.
pub struct AnalyzedDocument {
    pub source: String,
    pub program: Option<Program>,
    pub parse_errors: Vec<Diagnostic>,
    pub symbols: Vec<(String, Symbol)>,
    pub label_refs: Vec<LabelRef>,
    pub line_starts: Vec<usize>,
}

/// The location of a span, both ends as 1-based (line, column).
pub open spec fn spec_location(ls: Seq<usize>, span: Span) -> Location {
    Location {
        start_line: spec_position(ls, span.start).0,
        start_col: spec_position(ls, span.start).1,
        end_line: spec_position(ls, span.end).0,
        end_col: spec_position(ls, span.end).1,
    }
}

/// The undefined-label diagnostics: one per reference whose name the
/// symbol table lacks, in reference order.
pub open spec fn spec_undef_diags(
    refs: Seq<LabelRef>,
    syms: Seq<(String, Symbol)>,
    ls: Seq<usize>,
) -> Seq<DiagModel>
    decreases refs.len(),
{
    if refs.len() == 0 {
        Seq::empty()
    } else {
        (if spec_sym_lookup(syms, refs[0].name@) is None {
            seq![
                DiagModel {
                    message: "undefined label: "@ + refs[0].name@,
                    severity: Severity::Error,
                    start_line: spec_position(ls, refs[0].span.start).0,
                    start_col: spec_position(ls, refs[0].span.start).1,
                    end_line: spec_position(ls, refs[0].span.end).0,
                    end_col: spec_position(ls, refs[0].span.end).1,
                },
            ]
        } else {
            Seq::empty()
        }) + spec_undef_diags(refs.skip(1), syms, ls)
    }
}

/// The name of the symbol or reference whose span contains the offset:
/// definitions are searched first, then references, each in table order.
pub open spec fn spec_find_sym_at(syms: Seq<(String, Symbol)>, off: usize) -> Option<String>
    decreases syms.len(),
{
    if syms.len() == 0 {
        None
    } else if syms[0].1.span.start <= off < syms[0].1.span.end {
        Some(syms[0].1.name)
    } else {
        spec_find_sym_at(syms.skip(1), off)
    }
}

/// The name of the first reference whose span contains the offset.
pub open spec fn spec_find_ref_at(refs: Seq<LabelRef>, off: usize) -> Option<String>
    decreases refs.len(),
{
    if refs.len() == 0 {
        None
    } else if refs[0].span.start <= off < refs[0].span.end {
        Some(refs[0].name)
    } else {
        spec_find_ref_at(refs.skip(1), off)
    }
}

/// The label name at an offset: a definition if one contains it, else a
/// reference.
pub open spec fn spec_label_at(
    syms: Seq<(String, Symbol)>,
    refs: Seq<LabelRef>,
    off: usize,
) -> Option<String> {
    match spec_find_sym_at(syms, off) {
        Some(name) => Some(name),
        None => spec_find_ref_at(refs, off),
    }
}

/// The offset of a 1-based (line, column), if the line exists.
pub open spec fn spec_pos_offset(ls: Seq<usize>, line: u32, col: u32) -> Option<usize> {
    if line >= 1 && line - 1 < ls.len() {
        Some(
            (ls[line - 1] as usize).wrapping_add(
                if col >= 1 {
                    (col - 1) as usize
                } else {
                    0
                },
            ),
        )
    } else {
        None
    }
}

/// The locations of the definition (if any) and of every reference of a
/// name, in order.
pub open spec fn spec_ref_locs(refs: Seq<LabelRef>, name: Seq<char>, ls: Seq<usize>) -> Seq<
    Location,
>
    decreases refs.len(),
{
    if refs.len() == 0 {
        Seq::empty()
    } else {
        (if refs[0].name@ == name {
            seq![spec_location(ls, refs[0].span)]
        } else {
            Seq::empty()
        }) + spec_ref_locs(refs.skip(1), name, ls)
    }
}

/// The printable name of a symbol kind.
pub open spec fn spec_kind_str(k: SymbolKind) -> Seq<char> {
    match k {
        SymbolKind::Label => "label"@,
        SymbolKind::Subroutine => "subroutine"@,
        SymbolKind::Data => "data"@,
    }
}

fn kind_str(k: SymbolKind) -> (r: &'static str)
    ensures
        r@ == spec_kind_str(k),
{
    match k {
        SymbolKind::Label => "label",
        SymbolKind::Subroutine => "subroutine",
        SymbolKind::Data => "data",
    }
}

/// The hover text of a known symbol.
pub open spec fn spec_hover_known(name: Seq<char>, kind: SymbolKind, address: u16) -> Seq<char> {
    "**"@ + name + "** ("@ + spec_kind_str(kind) + ")\n\nAddress: `x"@ + spec_hex4(address) + "`"@
}

/// The hover text of an undefined reference.
pub open spec fn spec_hover_undefined(name: Seq<char>) -> Seq<char> {
    "**"@ + name + "** (undefined)"@
}

/// The diagnostic a parse error converts to: its message, error
/// severity, and the 1-based positions of its span's ends.
pub open spec fn spec_parse_diag(s: Seq<char>, e: crate::parser::ParseErrModel) -> DiagModel {
    let ls = spec_line_starts(s);
    DiagModel {
        message: e.message,
        severity: Severity::Error,
        start_line: spec_position(ls, e.span.start).0,
        start_col: spec_position(ls, e.span.start).1,
        end_line: spec_position(ls, e.span.end).0,
        end_col: spec_position(ls, e.span.end).1,
    }
}

impl AnalyzedDocument {
    /// A well-formed document: the line-start table is sorted.
    pub open spec fn wf(self) -> bool {
        sorted_starts(self.line_starts@)
    }

    /// Analyze source code and create a new document. The line starts
    /// and the parse outcome are pinned: the program is present exactly
    /// when the source has no syntax errors, and then it is faithful to
    /// the source and the symbols and references are exactly those
    /// collected over it; otherwise the stored diagnostics are exactly
    /// the parse errors, converted to positions.
    pub fn new(source: &str) -> (r: AnalyzedDocument)
        ensures
            r.wf(),
            r.source@ == source@,
            r.line_starts@ == spec_line_starts(source@),
            (r.program is Some) <==> crate::parser::spec_parse_errors(source@).len() == 0,
            match r.program {
                Some(p) => {
                    &&& r.parse_errors@.len() == 0
                    &&& crate::parser::program_matches(source@, p.lines@)
                    &&& (r.symbols@, r.label_refs@) == spec_collect(
                        p.lines@,
                        0,
                        0x3000,
                        r.line_starts@,
                        Seq::empty(),
                        Seq::empty(),
                    )
                },
                None => {
                    &&& r.symbols@.len() == 0
                    &&& r.label_refs@.len() == 0
                    &&& r.parse_errors@.len() == crate::parser::spec_parse_errors(source@).len()
                    &&& forall|k: int|
                        0 <= k < r.parse_errors@.len() ==> (#[trigger] r.parse_errors@[k])@
                            == spec_parse_diag(
                            source@,
                            crate::parser::spec_parse_errors(source@)[k],
                        )
                },
            },
    {
        let line_starts = compute_line_starts(source);
        proof {
            lemma_line_starts_sorted(source@);
        }

        match parse(source) {
            Ok(prog) => {
                let (symbols, label_refs) = analyze_symbols_from(&prog.lines, &line_starts);
                AnalyzedDocument {
                    source: source.to_owned(),
                    program: Some(prog),
                    parse_errors: Vec::new(),
                    symbols,
                    label_refs,
                    line_starts,
                }
            },
            Err(errors) => {
                let ghost emodels = crate::parser::perr_views(errors@);
                let mut diagnostics: Vec<Diagnostic> = Vec::new();
                let mut i: usize = 0;
                while i < errors.len()
                    invariant
                        i <= errors@.len(),
                        diagnostics@.len() == i,
                        emodels == crate::parser::perr_views(errors@),
                        line_starts@ == spec_line_starts(source@),
                        sorted_starts(line_starts@),
                        forall|k: int|
                            0 <= k < i ==> (#[trigger] diagnostics@[k])@ == spec_parse_diag(
                                source@,
                                emodels[k],
                            ),
                    decreases errors@.len() - i,
                {
                    let e = &errors[i];
                    let (start_line, start_col) = offset_to_position(
                        line_starts.as_slice(),
                        e.span.start,
                    );
                    let (end_line, end_col) = offset_to_position(line_starts.as_slice(), e.span.end);
                    diagnostics.push(
                        Diagnostic {
                            message: e.message.clone(),
                            severity: Severity::Error,
                            start_line,
                            start_col,
                            end_line,
                            end_col,
                        },
                    );
                    proof {
                        assert(diagnostics@[i as int]@ =~= spec_parse_diag(
                            source@,
                            emodels[i as int],
                        ));
                    }
                    i = i + 1;
                }
                AnalyzedDocument {
                    source: source.to_owned(),
                    program: None,
                    parse_errors: diagnostics,
                    symbols: Vec::new(),
                    label_refs: Vec::new(),
                    line_starts,
                }
            },
        }
    }

    /// All diagnostics: the parse errors, then one "undefined label"
    /// error per reference whose name is not in the symbol table.
    pub fn diagnostics(&self) -> (r: Vec<Diagnostic>)
        requires
            self.wf(),
        ensures
            diag_views(r@) == diag_views(self.parse_errors@) + spec_undef_diags(
                self.label_refs@,
                self.symbols@,
                self.line_starts@,
            ),
    {
        let mut diagnostics: Vec<Diagnostic> = Vec::new();
        proof {
            assert(diag_views(diagnostics@) =~= diag_views(self.parse_errors@).subrange(0, 0));
        }
        let mut i: usize = 0;
        while i < self.parse_errors.len()
            invariant
                i <= self.parse_errors@.len(),
                diagnostics@.len() == i,
                diag_views(diagnostics@) == diag_views(self.parse_errors@).subrange(0, i as int),
            decreases self.parse_errors@.len() - i,
        {
            let e = &self.parse_errors[i];
            diagnostics.push(
                Diagnostic {
                    message: e.message.clone(),
                    severity: e.severity,
                    start_line: e.start_line,
                    start_col: e.start_col,
                    end_line: e.end_line,
                    end_col: e.end_col,
                },
            );
            proof {
                assert(diagnostics@[i as int]@ =~= self.parse_errors@[i as int]@);
                assert(diag_views(diagnostics@) =~= diag_views(self.parse_errors@).subrange(
                    0,
                    i + 1,
                ));
            }
            i = i + 1;
        }
        let ghost pe = diag_views(self.parse_errors@);
        proof {
            assert(diag_views(diagnostics@) =~= pe);
            assert(diag_views(diagnostics@).subrange(0, pe.len() as int) =~= pe);
            assert(diag_views(diagnostics@).skip(pe.len() as int) =~= Seq::<DiagModel>::empty());
            assert(self.label_refs@.skip(0) =~= self.label_refs@);
        }

        // Check for undefined labels.
        let mut k: usize = 0;
        while k < self.label_refs.len()
            invariant
                k <= self.label_refs@.len(),
                self.wf(),
                pe == diag_views(self.parse_errors@),
                pe.len() <= diag_views(diagnostics@).len(),
                diag_views(diagnostics@).subrange(0, pe.len() as int) == pe,
                spec_undef_diags(self.label_refs@, self.symbols@, self.line_starts@) == diag_views(
                    diagnostics@,
                ).skip(pe.len() as int) + spec_undef_diags(
                    self.label_refs@.skip(k as int),
                    self.symbols@,
                    self.line_starts@,
                ),
            decreases self.label_refs@.len() - k,
        {
            let ghost rtail = self.label_refs@.skip(k as int);
            proof {
                assert(rtail[0] == self.label_refs@[k as int]);
                assert(rtail.skip(1) =~= self.label_refs@.skip(k + 1));
            }
            let label_ref = &self.label_refs[k];
            match sym_get(&self.symbols, &label_ref.name) {
                Some(_) => {},
                None => {
                    let (start_line, start_col) = offset_to_position(
                        self.line_starts.as_slice(),
                        label_ref.span.start,
                    );
                    let (end_line, end_col) = offset_to_position(
                        self.line_starts.as_slice(),
                        label_ref.span.end,
                    );
                    let mut m = "undefined label: ".to_owned();
                    m.append(label_ref.name.as_str());
                    diagnostics.push(
                        Diagnostic {
                            message: m,
                            severity: Severity::Error,
                            start_line,
                            start_col,
                            end_line,
                            end_col,
                        },
                    );
                },
            }
            proof {
                assert(diag_views(diagnostics@).subrange(0, pe.len() as int) =~= pe);
                assert(spec_undef_diags(self.label_refs@, self.symbols@, self.line_starts@)
                    =~= diag_views(diagnostics@).skip(pe.len() as int) + spec_undef_diags(
                    self.label_refs@.skip(k + 1),
                    self.symbols@,
                    self.line_starts@,
                ));
            }
            k = k + 1;
        }
        proof {
            assert(spec_undef_diags(
                self.label_refs@.skip(k as int),
                self.symbols@,
                self.line_starts@,
            ) =~= Seq::<DiagModel>::empty());
            assert(diag_views(diagnostics@) =~= diag_views(diagnostics@).subrange(
                0,
                pe.len() as int,
            ) + diag_views(diagnostics@).skip(pe.len() as int));
            assert(diag_views(diagnostics@) =~= diag_views(self.parse_errors@) + spec_undef_diags(
                self.label_refs@,
                self.symbols@,
                self.line_starts@,
            ));
        }

        diagnostics
    }

    /// The label name at a 1-based (line, column), definition or
    /// reference.
    fn find_label_at_position(&self, line: u32, col: u32) -> (r: Option<String>)
        ensures
            r == match spec_pos_offset(self.line_starts@, line, col) {
                Some(off) => spec_label_at(self.symbols@, self.label_refs@, off),
                None => None::<String>,
            },
    {
        let offset = match position_to_offset(self.line_starts.as_slice(), line, col) {
            Some(off) => off,
            None => {
                return None;
            },
        };

        // Check label definitions.
        let mut i: usize = 0;
        proof {
            assert(self.symbols@.skip(0) =~= self.symbols@);
        }
        while i < self.symbols.len()
            invariant
                i <= self.symbols@.len(),
                spec_pos_offset(self.line_starts@, line, col) == Some(offset),
                spec_find_sym_at(self.symbols@, offset) == spec_find_sym_at(
                    self.symbols@.skip(i as int),
                    offset,
                ),
            decreases self.symbols@.len() - i,
        {
            proof {
                assert(self.symbols@.skip(i as int)[0] == self.symbols@[i as int]);
                assert(self.symbols@.skip(i as int).skip(1) =~= self.symbols@.skip(i + 1));
            }
            let sym = &self.symbols[i].1;
            if sym.span.contains(offset) {
                return Some(sym.name.clone());
            }
            i = i + 1;
        }
        proof {
            assert(self.symbols@.skip(i as int) =~= Seq::<(String, Symbol)>::empty());
            assert(self.label_refs@.skip(0) =~= self.label_refs@);
        }

        // Check label references.
        let mut k: usize = 0;
        while k < self.label_refs.len()
            invariant
                k <= self.label_refs@.len(),
                spec_pos_offset(self.line_starts@, line, col) == Some(offset),
                spec_find_sym_at(self.symbols@, offset) is None,
                spec_find_ref_at(self.label_refs@, offset) == spec_find_ref_at(
                    self.label_refs@.skip(k as int),
                    offset,
                ),
            decreases self.label_refs@.len() - k,
        {
            proof {
                assert(self.label_refs@.skip(k as int)[0] == self.label_refs@[k as int]);
                assert(self.label_refs@.skip(k as int).skip(1) =~= self.label_refs@.skip(k + 1));
            }
            let label_ref = &self.label_refs[k];
            if label_ref.span.contains(offset) {
                return Some(label_ref.name.clone());
            }
            k = k + 1;
        }
        proof {
            assert(self.label_refs@.skip(k as int) =~= Seq::<LabelRef>::empty());
        }

        None
    }

    /// The definition location of the symbol at a position.
    pub fn definition(&self, line: u32, col: u32) -> (r: Option<Location>)
        requires
            self.wf(),
        ensures
            r == match spec_pos_offset(self.line_starts@, line, col) {
                Some(off) => match spec_label_at(self.symbols@, self.label_refs@, off) {
                    Some(name) => match spec_sym_lookup(self.symbols@, name@) {
                        Some(sym) => Some(spec_location(self.line_starts@, sym.span)),
                        None => None::<Location>,
                    },
                    None => None::<Location>,
                },
                None => None::<Location>,
            },
    {
        let label_name = match self.find_label_at_position(line, col) {
            Some(name) => name,
            None => {
                return None;
            },
        };
        let symbol = match sym_get(&self.symbols, &label_name) {
            Some(sym) => sym,
            None => {
                return None;
            },
        };

        let (start_line, start_col) = offset_to_position(
            self.line_starts.as_slice(),
            symbol.span.start,
        );
        let (end_line, end_col) = offset_to_position(self.line_starts.as_slice(), symbol.span.end);

        Some(Location { start_line, start_col, end_line, end_col })
    }

    /// All locations of the symbol at a position: its definition (if
    /// any), then every reference, in order.
    pub fn references(&self, line: u32, col: u32) -> (r: Vec<Location>)
        requires
            self.wf(),
        ensures
            r@ == match spec_pos_offset(self.line_starts@, line, col) {
                Some(off) => match spec_label_at(self.symbols@, self.label_refs@, off) {
                    Some(name) => (match spec_sym_lookup(self.symbols@, name@) {
                        Some(sym) => seq![spec_location(self.line_starts@, sym.span)],
                        None => Seq::<Location>::empty(),
                    }) + spec_ref_locs(self.label_refs@, name@, self.line_starts@),
                    None => Seq::<Location>::empty(),
                },
                None => Seq::<Location>::empty(),
            },
    {
        let label_name = match self.find_label_at_position(line, col) {
            Some(name) => name,
            None => {
                return Vec::new();
            },
        };

        let mut locations: Vec<Location> = Vec::new();

        // Add the definition.
        match sym_get(&self.symbols, &label_name) {
            Some(symbol) => {
                let (start_line, start_col) = offset_to_position(
                    self.line_starts.as_slice(),
                    symbol.span.start,
                );
                let (end_line, end_col) = offset_to_position(
                    self.line_starts.as_slice(),
                    symbol.span.end,
                );
                locations.push(Location { start_line, start_col, end_line, end_col });
            },
            None => {},
        }
        let ghost head = locations@;

        // Add all references.
        proof {
            assert(self.label_refs@.skip(0) =~= self.label_refs@);
        }
        let mut k: usize = 0;
        while k < self.label_refs.len()
            invariant
                k <= self.label_refs@.len(),
                self.wf(),
                spec_ref_locs(self.label_refs@, label_name@, self.line_starts@) == locations@.skip(
                    head.len() as int,
                ) + spec_ref_locs(
                    self.label_refs@.skip(k as int),
                    label_name@,
                    self.line_starts@,
                ),
                locations@.subrange(0, head.len() as int) == head,
                head.len() <= locations@.len(),
            decreases self.label_refs@.len() - k,
        {
            proof {
                assert(self.label_refs@.skip(k as int)[0] == self.label_refs@[k as int]);
                assert(self.label_refs@.skip(k as int).skip(1) =~= self.label_refs@.skip(k + 1));
            }
            let label_ref = &self.label_refs[k];
            if label_ref.name == label_name {
                let (start_line, start_col) = offset_to_position(
                    self.line_starts.as_slice(),
                    label_ref.span.start,
                );
                let (end_line, end_col) = offset_to_position(
                    self.line_starts.as_slice(),
                    label_ref.span.end,
                );
                locations.push(Location { start_line, start_col, end_line, end_col });
            }
            proof {
                assert(locations@.subrange(0, head.len() as int) =~= head);
                assert(spec_ref_locs(self.label_refs@, label_name@, self.line_starts@)
                    =~= locations@.skip(head.len() as int) + spec_ref_locs(
                    self.label_refs@.skip(k + 1),
                    label_name@,
                    self.line_starts@,
                ));
            }
            k = k + 1;
        }
        proof {
            assert(spec_ref_locs(
                self.label_refs@.skip(k as int),
                label_name@,
                self.line_starts@,
            ) =~= Seq::<Location>::empty());
            assert(locations@ =~= head + spec_ref_locs(
                self.label_refs@,
                label_name@,
                self.line_starts@,
            ));
        }

        locations
    }

    /// Hover information for a position: the symbol's name, kind and
    /// address, or its name marked undefined.
    pub fn hover(&self, line: u32, col: u32) -> (r: Option<HoverInfo>)
        requires
            self.wf(),
        ensures
            match spec_pos_offset(self.line_starts@, line, col) {
                Some(off) => match spec_label_at(self.symbols@, self.label_refs@, off) {
                    Some(name) => match r {
                        Some(h) => h.range is None && h.contents@ == match spec_sym_lookup(
                            self.symbols@,
                            name@,
                        ) {
                            Some(sym) => spec_hover_known(sym.name@, sym.kind, sym.address),
                            None => spec_hover_undefined(name@),
                        },
                        None => false,
                    },
                    None => r is None,
                },
                None => r is None,
            },
    {
        let label_name = match self.find_label_at_position(line, col) {
            Some(name) => name,
            None => {
                return None;
            },
        };
        match sym_get(&self.symbols, &label_name) {
            Some(symbol) => {
                let mut contents = "**".to_owned();
                contents.append(symbol.name.as_str());
                contents.append("** (");
                contents.append(kind_str(symbol.kind));
                contents.append(")\n\nAddress: `x");
                push_hex4(&mut contents, symbol.address);
                contents.append("`");
                proof {
                    assert(contents@ =~= spec_hover_known(
                        symbol.name@,
                        symbol.kind,
                        symbol.address,
                    ));
                }
                Some(HoverInfo { contents, range: None })
            },
            None => {
                let mut contents = "**".to_owned();
                contents.append(label_name.as_str());
                contents.append("** (undefined)");
                proof {
                    assert(contents@ =~= spec_hover_undefined(label_name@));
                }
                Some(HoverInfo { contents, range: None })
            },
        }
    }

    /// The full list of symbols in the document.
    pub fn symbols(&self) -> (r: Vec<SymbolInfo>)
        requires
            self.wf(),
        ensures
            r@.len() == self.symbols@.len(),
            forall|k: int|
                0 <= k < r@.len() ==> {
                    let sym = self.symbols@[k].1;
                    &&& (#[trigger] r@[k]).name@ == sym.name@
                    &&& r@[k].kind == sym.kind
                    &&& r@[k].location == spec_location(self.line_starts@, sym.span)
                    &&& r@[k].address == Some(sym.address)
                    &&& r@[k].documentation is None
                },
    {
        let mut out: Vec<SymbolInfo> = Vec::new();
        let mut i: usize = 0;
        while i < self.symbols.len()
            invariant
                i <= self.symbols@.len(),
                self.wf(),
                out@.len() == i,
                forall|k: int|
                    0 <= k < i ==> {
                        let sym = self.symbols@[k].1;
                        &&& (#[trigger] out@[k]).name@ == sym.name@
                        &&& out@[k].kind == sym.kind
                        &&& out@[k].location == spec_location(self.line_starts@, sym.span)
                        &&& out@[k].address == Some(sym.address)
                        &&& out@[k].documentation is None
                    },
            decreases self.symbols@.len() - i,
        {
            let s = &self.symbols[i].1;
            let (start_line, start_col) = offset_to_position(
                self.line_starts.as_slice(),
                s.span.start,
            );
            let (end_line, end_col) = offset_to_position(self.line_starts.as_slice(), s.span.end);
            out.push(
                SymbolInfo {
                    name: s.name.clone(),
                    kind: s.kind,
                    location: Location { start_line, start_col, end_line, end_col },
                    address: Some(s.address),
                    documentation: None,
                },
            );
            i = i + 1;
        }
        out
    }
}

/// The label, detail, documentation and snippet of the `j`-th keyword
/// completion item: the instruction mnemonics, then the directives.
pub open spec fn spec_keyword_item(j: int) -> (Seq<char>, Seq<char>, Seq<char>, Seq<char>) {
    if j == 0 {
        ("ADD"@, "ADD DR, SR1, SR2 | ADD DR, SR1, imm5"@, "Add: DR = SR1 + SR2 or DR = SR1 + imm5"@, "ADD R${1:0}, R${2:0}, ${3:R0}"@)
    } else if j == 1 {
        ("AND"@, "AND DR, SR1, SR2 | AND DR, SR1, imm5"@, "Bitwise AND: DR = SR1 & SR2 or DR = SR1 & imm5"@, "AND R${1:0}, R${2:0}, ${3:R0}"@)
    } else if j == 2 {
        ("NOT"@, "NOT DR, SR"@, "Bitwise NOT: DR = ~SR"@, "NOT R${1:0}, R${2:0}"@)
    } else if j == 3 {
        ("BR"@, "BR[n][z][p] LABEL"@, "Conditional branch based on condition codes"@, "BR${1:nzp} ${2:LABEL}"@)
    } else if j == 4 {
        ("JMP"@, "JMP BaseR"@, "Jump to address in BaseR"@, "JMP R${1:7}"@)
    } else if j == 5 {
        ("RET"@, "RET"@, "Return from subroutine (JMP R7)"@, "RET"@)
    } else if j == 6 {
        ("JSR"@, "JSR LABEL"@, "Jump to subroutine, save return address in R7"@, "JSR ${1:LABEL}"@)
    } else if j == 7 {
        ("JSRR"@, "JSRR BaseR"@, "Jump to subroutine at address in BaseR"@, "JSRR R${1:0}"@)
    } else if j == 8 {
        ("LD"@, "LD DR, LABEL"@, "Load: DR = mem[LABEL]"@, "LD R${1:0}, ${2:LABEL}"@)
    } else if j == 9 {
        ("LDI"@, "LDI DR, LABEL"@, "Load indirect: DR = mem[mem[LABEL]]"@, "LDI R${1:0}, ${2:LABEL}"@)
    } else if j == 10 {
        ("LDR"@, "LDR DR, BaseR, offset6"@, "Load base+offset: DR = mem[BaseR + offset6]"@, "LDR R${1:0}, R${2:0}, #${3:0}"@)
    } else if j == 11 {
        ("LEA"@, "LEA DR, LABEL"@, "Load effective address: DR = address of LABEL"@, "LEA R${1:0}, ${2:LABEL}"@)
    } else if j == 12 {
        ("ST"@, "ST SR, LABEL"@, "Store: mem[LABEL] = SR"@, "ST R${1:0}, ${2:LABEL}"@)
    } else if j == 13 {
        ("STI"@, "STI SR, LABEL"@, "Store indirect: mem[mem[LABEL]] = SR"@, "STI R${1:0}, ${2:LABEL}"@)
    } else if j == 14 {
        ("STR"@, "STR SR, BaseR, offset6"@, "Store base+offset: mem[BaseR + offset6] = SR"@, "STR R${1:0}, R${2:0}, #${3:0}"@)
    } else if j == 15 {
        ("TRAP"@, "TRAP trapvect8"@, "Execute trap service routine"@, "TRAP x${1:25}"@)
    } else if j == 16 {
        ("HALT"@, "HALT"@, "Halt execution (TRAP x25)"@, "HALT"@)
    } else if j == 17 {
        ("GETC"@, "GETC"@, "Read character into R0 (TRAP x20)"@, "GETC"@)
    } else if j == 18 {
        ("OUT"@, "OUT"@, "Output character in R0 (TRAP x21)"@, "OUT"@)
    } else if j == 19 {
        ("PUTS"@, "PUTS"@, "Output null-terminated string at address in R0 (TRAP x22)"@, "PUTS"@)
    } else if j == 20 {
        ("IN"@, "IN"@, "Prompt and read character into R0 (TRAP x23)"@, "IN"@)
    } else if j == 21 {
        ("PUTSP"@, "PUTSP"@, "Output packed string at address in R0 (TRAP x24)"@, "PUTSP"@)
    } else if j == 22 {
        ("RTI"@, "RTI"@, "Return from interrupt"@, "RTI"@)
    } else if j == 23 {
        (".ORIG"@, ".ORIG address"@, "Set the starting address for the program"@, ".ORIG x${1:3000}"@)
    } else if j == 24 {
        (".END"@, ".END"@, "Mark the end of the program"@, ".END"@)
    } else if j == 25 {
        (".FILL"@, ".FILL value"@, "Allocate one word and initialize with value"@, ".FILL ${1:0}"@)
    } else if j == 26 {
        (".BLKW"@, ".BLKW count"@, "Allocate count words of memory"@, ".BLKW ${1:1}"@)
    } else {
        (".STRINGZ"@, ".STRINGZ \"string\""@, "Allocate null-terminated string"@, ".STRINGZ \"${1:text}\""@)
    }
}

/// Whether a completion item carries exactly the given texts as a keyword
/// item.
pub open spec fn keyword_item_is(it: CompletionItem, texts: (Seq<char>, Seq<char>, Seq<char>, Seq<char>)) -> bool {
    &&& it.kind == CompletionKind::Keyword
    &&& it.label@ == texts.0
    &&& match it.detail {
        Some(d) => d@ == texts.1,
        None => false,
    }
    &&& match it.documentation {
        Some(d) => d@ == texts.2,
        None => false,
    }
    &&& match it.insert_text {
        Some(d) => d@ == texts.3,
        None => false,
    }
}

/// Append one keyword completion item.
fn push_keyword_item(
    items: &mut Vec<CompletionItem>,
    label: &str,
    detail: &str,
    documentation: &str,
    snippet: &str,
)
    ensures
        final(items)@.len() == old(items)@.len() + 1,
        forall|k: int| 0 <= k < old(items)@.len() ==> final(items)@[k] == old(items)@[k],
        keyword_item_is(
            final(items)@[old(items)@.len() as int],
            (label@, detail@, documentation@, snippet@),
        ),
{
    items.push(
        CompletionItem {
            label: label.to_owned(),
            kind: CompletionKind::Keyword,
            detail: Some(detail.to_owned()),
            documentation: Some(documentation.to_owned()),
            insert_text: Some(snippet.to_owned()),
        },
    );
}


// ============================================================================
// The semantic-token scan, pinned as a function of the document.
// ============================================================================

/// The position of the first `"` at or after `i`, or `end`.
pub open spec fn scan_to_quote(s: Seq<char>, i: int, end: int) -> int
    decreases end - i,
{
    if i < 0 || i >= end || i >= s.len() || s[i] == '"' {
        i
    } else {
        scan_to_quote(s, i + 1, end)
    }
}

/// The position after the run of ASCII letters starting at `i`.
pub open spec fn scan_alpha_end(s: Seq<char>, i: int, end: int) -> int
    decreases end - i,
{
    if i < 0 || i >= end || i >= s.len() || !crate::parser::spec_is_alpha(s[i]) {
        i
    } else {
        scan_alpha_end(s, i + 1, end)
    }
}

/// The token type of an identifier occurrence: a mnemonic highlights as a
/// keyword; a known symbol as a definition when the occurrence lies in
/// the symbol's own span, else as a reference; anything else as a
/// (possibly undefined) reference.
pub open spec fn spec_ident_token_type(
    syms: Seq<(String, Symbol)>,
    ls: Seq<usize>,
    word: Seq<char>,
    line_num: u32,
    delta: int,
) -> TokenType {
    if spec_is_mnemonic(word) {
        TokenType::Keyword
    } else {
        match spec_sym_lookup(syms, word) {
            Some(sym) => {
                let base: usize = if line_num >= 1 && line_num - 1 < ls.len() {
                    ls[line_num - 1]
                } else {
                    0
                };
                let off = base.wrapping_add(delta as usize);
                if sym.span.start <= off < sym.span.end {
                    TokenType::Label
                } else {
                    TokenType::LabelRef
                }
            },
            None => TokenType::LabelRef,
        }
    }
}

/// The semantic tokens of the line `[start, end)` from position `i` on.
pub open spec fn spec_line_tokens(
    syms: Seq<(String, Symbol)>,
    ls: Seq<usize>,
    s: Seq<char>,
    start: int,
    end: int,
    i: int,
    line_num: u32,
) -> Seq<SemanticToken>
    recommends
        start <= i <= end <= s.len(),
    decreases end - i, 0nat,
{
    if i < 0 || i >= end || i >= s.len() {
        Seq::empty()
    } else {
        let c = s[i];
        let col = (((i - start) + 1) as usize) as u32;
        if c == ' ' || c == '\t' || c == '\r' {
            spec_line_tokens(syms, ls, s, start, end, i + 1, line_num)
        } else if c == ';' {
            seq![
                SemanticToken {
                    line: line_num,
                    start_col: col,
                    length: ((end - i) as usize) as u32,
                    token_type: TokenType::Comment,
                },
            ]
        } else if c == '"' {
            let j = scan_to_quote(s, i + 1, end);
            let tok_end = if j < end {
                j + 1
            } else {
                j
            };
            seq![
                SemanticToken {
                    line: line_num,
                    start_col: col,
                    length: ((tok_end - i) as usize) as u32,
                    token_type: TokenType::String,
                },
            ] + spec_line_tokens_from(syms, ls, s, start, end, i, tok_end, line_num)
        } else if c == '.' {
            let j = scan_alpha_end(s, i + 1, end);
            seq![
                SemanticToken {
                    line: line_num,
                    start_col: col,
                    length: ((j - i) as usize) as u32,
                    token_type: TokenType::Directive,
                },
            ] + spec_line_tokens_from(syms, ls, s, start, end, i, j, line_num)
        } else if (c == 'x' || c == 'X') && i + 1 < end && crate::parser::spec_is_hex(s[i + 1]) {
            let j = crate::parser::scan_hex_end(s, i + 1, end);
            seq![
                SemanticToken {
                    line: line_num,
                    start_col: col,
                    length: ((j - i) as usize) as u32,
                    token_type: TokenType::Number,
                },
            ] + spec_line_tokens_from(syms, ls, s, start, end, i, j, line_num)
        } else if c == '#' || crate::parser::spec_is_digit(c) || (c == '-' && i + 1 < end
            && crate::parser::spec_is_digit(s[i + 1])) {
            let j = crate::parser::scan_digits_end(s, i + 1, end);
            seq![
                SemanticToken {
                    line: line_num,
                    start_col: col,
                    length: ((j - i) as usize) as u32,
                    token_type: TokenType::Number,
                },
            ] + spec_line_tokens_from(syms, ls, s, start, end, i, j, line_num)
        } else if (c == 'R' || c == 'r') && i + 1 < end && crate::parser::spec_is_digit(s[i + 1]) {
            seq![
                SemanticToken {
                    line: line_num,
                    start_col: col,
                    length: 2,
                    token_type: TokenType::Register,
                },
            ] + spec_line_tokens_from(syms, ls, s, start, end, i, i + 2, line_num)
        } else if crate::parser::spec_is_alpha(c) || c == '_' {
            let j = crate::parser::scan_ident_end(s, i + 1, end);
            let word = crate::parser::spec_upper(s.subrange(i, j));
            seq![
                SemanticToken {
                    line: line_num,
                    start_col: col,
                    length: ((j - i) as usize) as u32,
                    token_type: spec_ident_token_type(syms, ls, word, line_num, i - start),
                },
            ] + spec_line_tokens_from(syms, ls, s, start, end, i, j, line_num)
        } else if c == ',' || c == ':' {
            seq![
                SemanticToken {
                    line: line_num,
                    start_col: col,
                    length: 1,
                    token_type: TokenType::Operator,
                },
            ] + spec_line_tokens_from(syms, ls, s, start, end, i, i + 1, line_num)
        } else {
            spec_line_tokens(syms, ls, s, start, end, i + 1, line_num)
        }
    }
}

/// The rest of the line scan after the token that began at `prev`,
/// resuming at `i`, clamped past `prev` and into the line so that the
/// scan always advances.
pub open spec fn spec_line_tokens_from(
    syms: Seq<(String, Symbol)>,
    ls: Seq<usize>,
    s: Seq<char>,
    start: int,
    end: int,
    prev: int,
    i: int,
    line_num: u32,
) -> Seq<SemanticToken>
    recommends
        start <= prev < end <= s.len(),
    decreases end - prev - 1, 1nat,
{
    if prev + 1 > end {
        Seq::empty()
    } else {
        let k = if i > end {
            end
        } else if i < prev + 1 {
            prev + 1
        } else {
            i
        };
        spec_line_tokens(syms, ls, s, start, end, k, line_num)
    }
}

/// The semantic tokens of the whole source: each line scanned with its
/// 1-based line number.
pub open spec fn spec_all_tokens(
    syms: Seq<(String, Symbol)>,
    ls: Seq<usize>,
    s: Seq<char>,
    start: int,
    line_num: u32,
    i: int,
) -> Seq<SemanticToken>
    decreases s.len() - i,
{
    if i < 0 || i >= s.len() {
        spec_line_tokens(syms, ls, s, start, s.len() as int, start, line_num)
    } else if s[i] == '\n' {
        spec_line_tokens(syms, ls, s, start, i, start, line_num) + spec_all_tokens(
            syms,
            ls,
            s,
            i + 1,
            line_num.wrapping_add(1),
            i + 1,
        )
    } else {
        spec_all_tokens(syms, ls, s, start, line_num, i + 1)
    }
}

impl AnalyzedDocument {
    /// Completions at a position: every known symbol, then every
    /// instruction mnemonic and directive with a detail line,
    /// documentation and snippet. The position is accepted for future
    /// context-sensitivity but does not filter.
    pub fn completions(&self, _line: u32, _col: u32) -> (r: Vec<CompletionItem>)
        ensures
            r@.len() == self.symbols@.len() + 28,
            forall|k: int|
                0 <= k < self.symbols@.len() ==> (#[trigger] r@[k]).kind == CompletionKind::Label
                    && r@[k].label@ == self.symbols@[k].1.name@,
            forall|j: int|
                0 <= j < 28 ==> keyword_item_is(
                    #[trigger] r@[self.symbols@.len() + j],
                    spec_keyword_item(j),
                ),
    {
        let mut items: Vec<CompletionItem> = Vec::new();

        // All defined labels.
        let mut i: usize = 0;
        while i < self.symbols.len()
            invariant
                i <= self.symbols@.len(),
                items@.len() == i,
                forall|k: int|
                    0 <= k < i ==> (#[trigger] items@[k]).kind == CompletionKind::Label
                        && items@[k].label@ == self.symbols@[k].1.name@,
            decreases self.symbols@.len() - i,
        {
            let symbol = &self.symbols[i].1;
            let mut detail = kind_str(symbol.kind).to_owned();
            detail.append(" at x");
            push_hex4(&mut detail, symbol.address);
            items.push(
                CompletionItem {
                    label: symbol.name.clone(),
                    kind: CompletionKind::Label,
                    detail: Some(detail),
                    documentation: None,
                    insert_text: None,
                },
            );
            i = i + 1;
        }

        // Instructions.
        push_keyword_item(
            &mut items,
            "ADD",
            "ADD DR, SR1, SR2 | ADD DR, SR1, imm5",
            "Add: DR = SR1 + SR2 or DR = SR1 + imm5",
            "ADD R${1:0}, R${2:0}, ${3:R0}",
        );
        push_keyword_item(
            &mut items,
            "AND",
            "AND DR, SR1, SR2 | AND DR, SR1, imm5",
            "Bitwise AND: DR = SR1 & SR2 or DR = SR1 & imm5",
            "AND R${1:0}, R${2:0}, ${3:R0}",
        );
        push_keyword_item(&mut items, "NOT", "NOT DR, SR", "Bitwise NOT: DR = ~SR", "NOT R${1:0}, R${2:0}");
        push_keyword_item(
            &mut items,
            "BR",
            "BR[n][z][p] LABEL",
            "Conditional branch based on condition codes",
            "BR${1:nzp} ${2:LABEL}",
        );
        push_keyword_item(&mut items, "JMP", "JMP BaseR", "Jump to address in BaseR", "JMP R${1:7}");
        push_keyword_item(&mut items, "RET", "RET", "Return from subroutine (JMP R7)", "RET");
        push_keyword_item(
            &mut items,
            "JSR",
            "JSR LABEL",
            "Jump to subroutine, save return address in R7",
            "JSR ${1:LABEL}",
        );
        push_keyword_item(
            &mut items,
            "JSRR",
            "JSRR BaseR",
            "Jump to subroutine at address in BaseR",
            "JSRR R${1:0}",
        );
        push_keyword_item(&mut items, "LD", "LD DR, LABEL", "Load: DR = mem[LABEL]", "LD R${1:0}, ${2:LABEL}");
        push_keyword_item(
            &mut items,
            "LDI",
            "LDI DR, LABEL",
            "Load indirect: DR = mem[mem[LABEL]]",
            "LDI R${1:0}, ${2:LABEL}",
        );
        push_keyword_item(
            &mut items,
            "LDR",
            "LDR DR, BaseR, offset6",
            "Load base+offset: DR = mem[BaseR + offset6]",
            "LDR R${1:0}, R${2:0}, #${3:0}",
        );
        push_keyword_item(
            &mut items,
            "LEA",
            "LEA DR, LABEL",
            "Load effective address: DR = address of LABEL",
            "LEA R${1:0}, ${2:LABEL}",
        );
        push_keyword_item(&mut items, "ST", "ST SR, LABEL", "Store: mem[LABEL] = SR", "ST R${1:0}, ${2:LABEL}");
        push_keyword_item(
            &mut items,
            "STI",
            "STI SR, LABEL",
            "Store indirect: mem[mem[LABEL]] = SR",
            "STI R${1:0}, ${2:LABEL}",
        );
        push_keyword_item(
            &mut items,
            "STR",
            "STR SR, BaseR, offset6",
            "Store base+offset: mem[BaseR + offset6] = SR",
            "STR R${1:0}, R${2:0}, #${3:0}",
        );
        push_keyword_item(&mut items, "TRAP", "TRAP trapvect8", "Execute trap service routine", "TRAP x${1:25}");
        push_keyword_item(&mut items, "HALT", "HALT", "Halt execution (TRAP x25)", "HALT");
        push_keyword_item(&mut items, "GETC", "GETC", "Read character into R0 (TRAP x20)", "GETC");
        push_keyword_item(&mut items, "OUT", "OUT", "Output character in R0 (TRAP x21)", "OUT");
        push_keyword_item(
            &mut items,
            "PUTS",
            "PUTS",
            "Output null-terminated string at address in R0 (TRAP x22)",
            "PUTS",
        );
        push_keyword_item(&mut items, "IN", "IN", "Prompt and read character into R0 (TRAP x23)", "IN");
        push_keyword_item(
            &mut items,
            "PUTSP",
            "PUTSP",
            "Output packed string at address in R0 (TRAP x24)",
            "PUTSP",
        );
        push_keyword_item(&mut items, "RTI", "RTI", "Return from interrupt", "RTI");

        // Directives.
        push_keyword_item(
            &mut items,
            ".ORIG",
            ".ORIG address",
            "Set the starting address for the program",
            ".ORIG x${1:3000}",
        );
        push_keyword_item(&mut items, ".END", ".END", "Mark the end of the program", ".END");
        push_keyword_item(
            &mut items,
            ".FILL",
            ".FILL value",
            "Allocate one word and initialize with value",
            ".FILL ${1:0}",
        );
        push_keyword_item(&mut items, ".BLKW", ".BLKW count", "Allocate count words of memory", ".BLKW ${1:1}");
        push_keyword_item(
            &mut items,
            ".STRINGZ",
            ".STRINGZ \"string\"",
            "Allocate null-terminated string",
            ".STRINGZ \"${1:text}\"",
        );

        items
    }

    /// Semantic tokens for syntax highlighting, in source order: exactly
    /// the per-line scan of the source, with 1-based line numbers.
    pub fn tokens(&self) -> (r: Vec<SemanticToken>)
        requires
            self.wf(),
        ensures
            r@ == spec_all_tokens(self.symbols@, self.line_starts@, self.source@, 0, 1, 0),
    {
        let ghost syms = self.symbols@;
        let ghost ls = self.line_starts@;
        let chars = crate::parser::to_chars(self.source.as_str());
        let ghost target = spec_all_tokens(syms, ls, self.source@, 0, 1, 0);
        let n = chars.len();
        let mut tokens: Vec<SemanticToken> = Vec::new();
        let mut start: usize = 0;
        let mut line_num: u32 = 1;
        let mut i: usize = 0;
        while i < n
            invariant
                start <= i <= n,
                n == chars@.len(),
                chars@ == self.source@,
                syms == self.symbols@,
                ls == self.line_starts@,
                self.wf(),
                target == spec_all_tokens(syms, ls, self.source@, 0, 1, 0),
                tokens@ + spec_all_tokens(syms, ls, chars@, start as int, line_num, i as int)
                    == target,
            decreases n - i,
        {
            if chars[i] == '\n' {
                self.tokenize_line(&chars, start, i, line_num, &mut tokens);
                proof {
                    assert(tokens@ + spec_all_tokens(
                        syms,
                        ls,
                        chars@,
                        i + 1,
                        line_num.wrapping_add(1),
                        i + 1,
                    ) =~= target);
                }
                start = i + 1;
                line_num = line_num.wrapping_add(1);
            }
            i = i + 1;
        }
        self.tokenize_line(&chars, start, n, line_num, &mut tokens);
        proof {
            assert(tokens@ =~= target);
        }
        tokens
    }

    /// Scan one line into semantic tokens: comments, strings, directives,
    /// numbers, registers, mnemonics, label definitions and references,
    /// and the comma and colon operators, appended in source order.
    #[verifier::rlimit(100)]
    fn tokenize_line(
        &self,
        chars: &Vec<char>,
        start: usize,
        end: usize,
        line_num: u32,
        tokens: &mut Vec<SemanticToken>,
    )
        requires
            start <= end <= chars@.len(),
        ensures
            final(tokens)@ == old(tokens)@ + spec_line_tokens(
                self.symbols@,
                self.line_starts@,
                chars@,
                start as int,
                end as int,
                start as int,
                line_num,
            ),
    {
        let ghost syms = self.symbols@;
        let ghost ls = self.line_starts@;
        let ghost base_len = old(tokens)@.len() as int;
        let ghost target = spec_line_tokens(
            syms,
            ls,
            chars@,
            start as int,
            end as int,
            start as int,
            line_num,
        );
        proof {
            assert(tokens@.subrange(0, base_len) =~= old(tokens)@);
            assert(tokens@.skip(base_len) =~= Seq::<SemanticToken>::empty());
        }
        let mut i = start;
        while i < end
            invariant
                start <= i <= end,
                end <= chars@.len(),
                syms == self.symbols@,
                ls == self.line_starts@,
                base_len == old(tokens)@.len(),
                base_len <= tokens@.len(),
                tokens@.subrange(0, base_len) == old(tokens)@,
                target == spec_line_tokens(
                    syms,
                    ls,
                    chars@,
                    start as int,
                    end as int,
                    start as int,
                    line_num,
                ),
                target == tokens@.skip(base_len) + spec_line_tokens(
                    syms,
                    ls,
                    chars@,
                    start as int,
                    end as int,
                    i as int,
                    line_num,
                ),
            decreases end - i,
        {
            let c = chars[i];
            let col = ((i - start) + 1) as u32;

            // Skip whitespace.
            if c == ' ' || c == '\t' || c == '\r' {
                i = i + 1;
                continue ;
            }
            // Comment: runs to end of line.
            if c == ';' {
                tokens.push(
                    SemanticToken {
                        line: line_num,
                        start_col: col,
                        length: (end - i) as u32,
                        token_type: TokenType::Comment,
                    },
                );
                proof {
                    assert(tokens@.subrange(0, base_len) =~= old(tokens)@);
                    assert(tokens@ =~= old(tokens)@ + target);
                }
                return ;
            }
            // String literal.
            if c == '"' {
                let mut j = i + 1;
                while j < end && chars[j] != '"'
                    invariant
                        i < j <= end,
                        end <= chars@.len(),
                        scan_to_quote(chars@, i + 1, end as int) == scan_to_quote(
                            chars@,
                            j as int,
                            end as int,
                        ),
                    decreases end - j,
                {
                    j = j + 1;
                }
                let tok_end = if j < end {
                    j + 1
                } else {
                    j
                };
                tokens.push(
                    SemanticToken {
                        line: line_num,
                        start_col: col,
                        length: (tok_end - i) as u32,
                        token_type: TokenType::String,
                    },
                );
                proof {
                    reveal_with_fuel(spec_line_tokens, 2);
                    reveal_with_fuel(spec_line_tokens_from, 2);
                    assert(tokens@.subrange(0, base_len) =~= old(tokens)@);
                    assert(target =~= tokens@.skip(base_len) + spec_line_tokens(
                        syms,
                        ls,
                        chars@,
                        start as int,
                        end as int,
                        tok_end as int,
                        line_num,
                    ));
                }
                i = tok_end;
                continue ;
            }
            // Directive (starts with a dot).
            if c == '.' {
                let mut j = i + 1;
                while j < end && (('A' <= chars[j] && chars[j] <= 'Z') || ('a' <= chars[j]
                    && chars[j] <= 'z'))
                    invariant
                        i < j <= end,
                        end <= chars@.len(),
                        scan_alpha_end(chars@, i + 1, end as int) == scan_alpha_end(
                            chars@,
                            j as int,
                            end as int,
                        ),
                    decreases end - j,
                {
                    j = j + 1;
                }
                tokens.push(
                    SemanticToken {
                        line: line_num,
                        start_col: col,
                        length: (j - i) as u32,
                        token_type: TokenType::Directive,
                    },
                );
                proof {
                    reveal_with_fuel(spec_line_tokens, 2);
                    reveal_with_fuel(spec_line_tokens_from, 2);
                    assert(tokens@.subrange(0, base_len) =~= old(tokens)@);
                    assert(target =~= tokens@.skip(base_len) + spec_line_tokens(
                        syms,
                        ls,
                        chars@,
                        start as int,
                        end as int,
                        j as int,
                        line_num,
                    ));
                }
                i = j;
                continue ;
            }
            // Hex number.
            if (c == 'x' || c == 'X') && i + 1 < end && (('0' <= chars[i + 1] && chars[i + 1]
                <= '9') || ('A' <= chars[i + 1] && chars[i + 1] <= 'F') || ('a' <= chars[i + 1]
                && chars[i + 1] <= 'f')) {
                let mut j = i + 1;
                while j < end && (('0' <= chars[j] && chars[j] <= '9') || ('A' <= chars[j]
                    && chars[j] <= 'F') || ('a' <= chars[j] && chars[j] <= 'f'))
                    invariant
                        i < j <= end,
                        end <= chars@.len(),
                        crate::parser::scan_hex_end(chars@, i + 1, end as int)
                            == crate::parser::scan_hex_end(chars@, j as int, end as int),
                    decreases end - j,
                {
                    j = j + 1;
                }
                tokens.push(
                    SemanticToken {
                        line: line_num,
                        start_col: col,
                        length: (j - i) as u32,
                        token_type: TokenType::Number,
                    },
                );
                proof {
                    reveal_with_fuel(spec_line_tokens, 2);
                    reveal_with_fuel(spec_line_tokens_from, 2);
                    assert(tokens@.subrange(0, base_len) =~= old(tokens)@);
                    assert(target =~= tokens@.skip(base_len) + spec_line_tokens(
                        syms,
                        ls,
                        chars@,
                        start as int,
                        end as int,
                        j as int,
                        line_num,
                    ));
                }
                i = j;
                continue ;
            }
            // Decimal number.
            if c == '#' || ('0' <= c && c <= '9') || (c == '-' && i + 1 < end && '0' <= chars[i
                + 1] && chars[i + 1] <= '9') {
                let mut j = i + 1;
                while j < end && '0' <= chars[j] && chars[j] <= '9'
                    invariant
                        i < j <= end,
                        end <= chars@.len(),
                        crate::parser::scan_digits_end(chars@, i + 1, end as int)
                            == crate::parser::scan_digits_end(chars@, j as int, end as int),
                    decreases end - j,
                {
                    j = j + 1;
                }
                tokens.push(
                    SemanticToken {
                        line: line_num,
                        start_col: col,
                        length: (j - i) as u32,
                        token_type: TokenType::Number,
                    },
                );
                proof {
                    reveal_with_fuel(spec_line_tokens, 2);
                    reveal_with_fuel(spec_line_tokens_from, 2);
                    assert(tokens@.subrange(0, base_len) =~= old(tokens)@);
                    assert(target =~= tokens@.skip(base_len) + spec_line_tokens(
                        syms,
                        ls,
                        chars@,
                        start as int,
                        end as int,
                        j as int,
                        line_num,
                    ));
                }
                i = j;
                continue ;
            }
            // Register.
            if (c == 'R' || c == 'r') && i + 1 < end && '0' <= chars[i + 1] && chars[i + 1]
                <= '9' {
                tokens.push(
                    SemanticToken {
                        line: line_num,
                        start_col: col,
                        length: 2,
                        token_type: TokenType::Register,
                    },
                );
                proof {
                    reveal_with_fuel(spec_line_tokens, 2);
                    reveal_with_fuel(spec_line_tokens_from, 2);
                    assert(tokens@.subrange(0, base_len) =~= old(tokens)@);
                    assert(target =~= tokens@.skip(base_len) + spec_line_tokens(
                        syms,
                        ls,
                        chars@,
                        start as int,
                        end as int,
                        i + 2,
                        line_num,
                    ));
                }
                i = i + 2;
                continue ;
            }
            // Identifier: mnemonic, label definition or label reference.
            if ('A' <= c && c <= 'Z') || ('a' <= c && c <= 'z') || c == '_' {
                let mut j = i + 1;
                while j < end && (('A' <= chars[j] && chars[j] <= 'Z') || ('a' <= chars[j]
                    && chars[j] <= 'z') || ('0' <= chars[j] && chars[j] <= '9') || chars[j] == '_')
                    invariant
                        i < j <= end,
                        end <= chars@.len(),
                        crate::parser::scan_ident_end(chars@, i + 1, end as int)
                            == crate::parser::scan_ident_end(chars@, j as int, end as int),
                    decreases end - j,
                {
                    j = j + 1;
                }
                let mut word = String::new();
                let mut k = i;
                proof {
                    assert(word@ =~= crate::parser::spec_upper(chars@.subrange(i as int, i as int)));
                }
                while k < j
                    invariant
                        i <= k <= j <= end,
                        end <= chars@.len(),
                        word@ == crate::parser::spec_upper(chars@.subrange(i as int, k as int)),
                    decreases j - k,
                {
                    let ch = chars[k];
                    word.push(
                        if 'a' <= ch && ch <= 'z' {
                            ((ch as u8) - 32) as char
                        } else {
                            ch
                        },
                    );
                    proof {
                        assert(word@ =~= crate::parser::spec_upper(
                            chars@.subrange(i as int, k + 1),
                        ));
                    }
                    k = k + 1;
                }

                let token_type = if is_instruction(word.as_str()) {
                    TokenType::Keyword
                } else {
                    match sym_get(&self.symbols, &word) {
                        Some(sym) => {
                            // A definition when the occurrence lies in the
                            // symbol's own span.
                            let base = if line_num >= 1 && ((line_num - 1) as usize)
                                < self.line_starts.len() {
                                self.line_starts[(line_num - 1) as usize]
                            } else {
                                0
                            };
                            let offset = base.wrapping_add(i - start);
                            if sym.span.contains(offset) {
                                TokenType::Label
                            } else {
                                TokenType::LabelRef
                            }
                        },
                        None => TokenType::LabelRef,
                    }
                };
                proof {
                    assert(token_type == spec_ident_token_type(
                        syms,
                        ls,
                        crate::parser::spec_upper(chars@.subrange(i as int, j as int)),
                        line_num,
                        i - start,
                    ));
                }

                tokens.push(
                    SemanticToken {
                        line: line_num,
                        start_col: col,
                        length: (j - i) as u32,
                        token_type,
                    },
                );
                proof {
                    reveal_with_fuel(spec_line_tokens, 2);
                    reveal_with_fuel(spec_line_tokens_from, 2);
                    assert(tokens@.subrange(0, base_len) =~= old(tokens)@);
                    assert(target =~= tokens@.skip(base_len) + spec_line_tokens(
                        syms,
                        ls,
                        chars@,
                        start as int,
                        end as int,
                        j as int,
                        line_num,
                    ));
                }
                i = j;
                continue ;
            }
            // Comma and colon operators.
            if c == ',' || c == ':' {
                tokens.push(
                    SemanticToken {
                        line: line_num,
                        start_col: col,
                        length: 1,
                        token_type: TokenType::Operator,
                    },
                );
                proof {
                    reveal_with_fuel(spec_line_tokens, 2);
                    reveal_with_fuel(spec_line_tokens_from, 2);
                    assert(tokens@.subrange(0, base_len) =~= old(tokens)@);
                    assert(target =~= tokens@.skip(base_len) + spec_line_tokens(
                        syms,
                        ls,
                        chars@,
                        start as int,
                        end as int,
                        i + 1,
                        line_num,
                    ));
                }
                i = i + 1;
                continue ;
            }
            i = i + 1;
        }
        proof {
            assert(tokens@ =~= old(tokens)@ + target);
        }
    }
}

} // verus!
