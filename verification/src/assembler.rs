//! Two-pass LC-3 assembler: symbol resolution over a parsed program, then
//! bit-exact encoding into addressed segments, with collected semantic
//! errors for undefined symbols, out-of-range offsets and immediates, and
//! ill-typed `.FILL` operands.
//!
//! Both passes are pinned by spec-level folds: [`spec_first_pass`] gives
//! the symbol table after pass 1, and [`spec_second_pass`] gives the
//! segments and the semantic errors after pass 2.

use vstd::prelude::*;
use vstd::string::StrSliceExecFns;
use vstd::string::StringExecFns;

use crate::ast::AddSrc2;
use crate::ast::AndSrc2;
use crate::ast::Directive;
use crate::ast::Instruction;
use crate::ast::Line;
use crate::ast::Operand;
use crate::ast::Program;
use crate::ast::Span;
use crate::ast::Spanned;
use crate::ast::SpannedLine;
use crate::text::push_idec16;
use crate::text::spec_pos;
use crate::text::spec_pos_from;
use crate::text::spec_idec;

verus! {

broadcast use crate::isa::lemma_field_bounds;

/// A semantic error with location information.
#[derive(Debug, Clone, PartialEq, Eq)]
pub struct SemanticError {
    pub message: String,
    pub line: usize,
    pub column: usize,
    pub span: Span,
}

/// Ghost model of a [`SemanticError`].
#[verifier::ext_equal]
pub struct SemErrModel {
    pub message: Seq<char>,
    pub line: int,
    pub column: int,
    pub span: Span,
}

impl View for SemanticError {
    type V = SemErrModel;

    open spec fn view(&self) -> SemErrModel {
        SemErrModel {
            message: self.message@,
            line: self.line as int,
            column: self.column as int,
            span: self.span,
        }
    }
}

/// The ghost models of a list of semantic errors.
pub open spec fn err_views(s: Seq<SemanticError>) -> Seq<SemErrModel> {
    s.map_values(|e: SemanticError| e@)
}

/// Assembly error with location information.
#[derive(Debug)]
pub enum AssemblyError {
    /// Syntax errors from the parser.
    ParseErrors(Vec<crate::ast::ParseError>),
    /// Semantic errors (undefined labels, range violations).
    SemanticErrors(Vec<SemanticError>),
}

/// A segment of assembled code with its origin address.
#[derive(Debug, Clone)]
pub struct Segment {
    /// Origin address for this segment.
    pub origin: u16,
    /// Machine code words in this segment.
    pub code: Vec<u16>,
}

/// Ghost model of a [`Segment`].
#[verifier::ext_equal]
pub struct SegmentModel {
    pub origin: u16,
    pub code: Seq<u16>,
}

impl View for Segment {
    type V = SegmentModel;

    open spec fn view(&self) -> SegmentModel {
        SegmentModel { origin: self.origin, code: self.code@ }
    }
}

/// The ghost models of a sequence of segments.
pub open spec fn seg_views(s: Seq<Segment>) -> Seq<SegmentModel> {
    s.map_values(|x: Segment| x@)
}

// ============================================================================
// The symbol table: an association list with first-match lookup.
// ============================================================================

/// The address the symbol list gives a name: its first entry of that name.
pub open spec fn spec_lookup(entries: Seq<(String, u16)>, name: Seq<char>) -> Option<u16>
    decreases entries.len(),
{
    if entries.len() == 0 {
        None
    } else if entries[0].0@ == name {
        Some(entries[0].1)
    } else {
        spec_lookup(entries.skip(1), name)
    }
}

/// Insertion into the symbol list: an existing entry of the same name is
/// overwritten in place, otherwise the new entry is appended.
pub open spec fn spec_table_insert(
    entries: Seq<(String, u16)>,
    name: String,
    addr: u16,
) -> Seq<(String, u16)>
    decreases entries.len(),
{
    if entries.len() == 0 {
        seq![(name, addr)]
    } else if entries[0].0@ == name@ {
        seq![(name, addr)] + entries.skip(1)
    } else {
        seq![entries[0]] + spec_table_insert(entries.skip(1), name, addr)
    }
}

/// No two entries of the symbol list share a name.
pub open spec fn unique_names(entries: Seq<(String, u16)>) -> bool {
    forall|i: int, j: int|
        0 <= i < j < entries.len() ==> (#[trigger] entries[i]).0@ != (#[trigger] entries[j]).0@
}

/// Insertion keeps the names unique, introduces no name but the inserted
/// one, and afterwards looks up the inserted name to the inserted address
/// and every other name as before.
pub proof fn lemma_table_insert(entries: Seq<(String, u16)>, name: String, addr: u16)
    requires
        unique_names(entries),
    ensures
        unique_names(spec_table_insert(entries, name, addr)),
        forall|k: int|
            0 <= k < spec_table_insert(entries, name, addr).len() ==> ((
            #[trigger] spec_table_insert(entries, name, addr)[k]).0@ == name@ || exists|j: int|
                0 <= j < entries.len() && (#[trigger] entries[j]).0@ == spec_table_insert(
                    entries,
                    name,
                    addr,
                )[k].0@),
        forall|m: Seq<char>|
            #[trigger] spec_lookup(spec_table_insert(entries, name, addr), m) == if m == name@ {
                Some(addr)
            } else {
                spec_lookup(entries, m)
            },
    decreases entries.len(),
{
    let ins = spec_table_insert(entries, name, addr);
    if entries.len() == 0 {
        assert forall|m: Seq<char>|
            #[trigger] spec_lookup(ins, m) == (if m == name@ {
                Some(addr)
            } else {
                spec_lookup(entries, m)
            }) by {
            assert(ins == seq![(name, addr)]);
            assert(ins[0].0@ == name@);
            assert(ins.skip(1) =~= Seq::<(String, u16)>::empty());
            assert(spec_lookup(ins, m) == if ins[0].0@ == m {
                Some(addr)
            } else {
                spec_lookup(ins.skip(1), m)
            });
            assert(spec_lookup(Seq::<(String, u16)>::empty(), m) is None);
        }
    } else if entries[0].0@ == name@ {
        assert(ins.skip(1) =~= entries.skip(1));
        assert forall|m: Seq<char>|
            #[trigger] spec_lookup(ins, m) == (if m == name@ {
                Some(addr)
            } else {
                spec_lookup(entries, m)
            }) by {
            assert(spec_lookup(ins, m) == if ins[0].0@ == m {
                Some(addr)
            } else {
                spec_lookup(ins.skip(1), m)
            });
        }
        assert forall|k: int|
            0 <= k < ins.len() implies ((#[trigger] ins[k]).0@ == name@ || exists|j: int|
                0 <= j < entries.len() && (#[trigger] entries[j]).0@ == ins[k].0@) by {
            if k > 0 {
                assert(ins[k] == entries[k]);
                assert(entries[k].0@ == ins[k].0@);
            }
        }
        assert forall|i: int, j: int| 0 <= i < j < ins.len() implies (#[trigger] ins[i]).0@ != (
        #[trigger] ins[j]).0@ by {
            if i > 0 {
                assert(ins[i] == entries[i] && ins[j] == entries[j]);
            } else {
                assert(ins[j] == entries[j]);
                assert(entries[0].0@ != entries[j].0@);
            }
        }
    } else {
        assert(unique_names(entries.skip(1))) by {
            assert(forall|j: int|
                0 <= j < entries.skip(1).len() ==> #[trigger] entries.skip(1)[j] == entries[j + 1]);
        }
        lemma_table_insert(entries.skip(1), name, addr);
        let tail = spec_table_insert(entries.skip(1), name, addr);
        assert(ins[0] == entries[0]);
        assert(ins.skip(1) =~= tail);
        assert(forall|j: int| 1 <= j < ins.len() ==> #[trigger] ins[j] == tail[j - 1]);
        assert forall|m: Seq<char>|
            #[trigger] spec_lookup(ins, m) == (if m == name@ {
                Some(addr)
            } else {
                spec_lookup(entries, m)
            }) by {
            assert(spec_lookup(ins, m) == if ins[0].0@ == m {
                Some(ins[0].1)
            } else {
                spec_lookup(tail, m)
            });
            assert(spec_lookup(entries, m) == if entries[0].0@ == m {
                Some(entries[0].1)
            } else {
                spec_lookup(entries.skip(1), m)
            });
            assert(spec_lookup(tail, m) == if m == name@ {
                Some(addr)
            } else {
                spec_lookup(entries.skip(1), m)
            });
        }
        assert forall|k: int|
            0 <= k < ins.len() implies ((#[trigger] ins[k]).0@ == name@ || exists|j: int|
                0 <= j < entries.len() && (#[trigger] entries[j]).0@ == ins[k].0@) by {
            if k == 0 {
                assert(entries[0].0@ == ins[0].0@);
            } else {
                assert(ins[k] == tail[k - 1]);
                if tail[k - 1].0@ != name@ {
                    let j = choose|j: int|
                        0 <= j < entries.skip(1).len() && (#[trigger] entries.skip(1)[j]).0@
                            == tail[k - 1].0@;
                    assert(entries.skip(1)[j] == entries[j + 1]);
                    assert(entries[j + 1].0@ == ins[k].0@);
                }
            }
        }
        assert forall|i: int, j: int| 0 <= i < j < ins.len() implies (#[trigger] ins[i]).0@ != (
        #[trigger] ins[j]).0@ by {
            if i == 0 {
                assert(ins[j] == tail[j - 1]);
                if tail[j - 1].0@ != name@ {
                    let j2 = choose|j2: int|
                        0 <= j2 < entries.skip(1).len() && (#[trigger] entries.skip(1)[j2]).0@
                            == tail[j - 1].0@;
                    assert(entries.skip(1)[j2] == entries[j2 + 1]);
                    assert(entries[0].0@ != entries[j2 + 1].0@);
                }
            } else {
                assert(ins[i] == tail[i - 1] && ins[j] == tail[j - 1]);
            }
        }
    }
}

/// Look a name up in the symbol list.
fn table_get(entries: &Vec<(String, u16)>, name: &String) -> (r: Option<u16>)
    ensures
        r == spec_lookup(entries@, name@),
{
    proof {
        assert(entries@.skip(0) =~= entries@);
    }
    let mut i: usize = 0;
    while i < entries.len()
        invariant
            i <= entries@.len(),
            spec_lookup(entries@, name@) == spec_lookup(entries@.skip(i as int), name@),
        decreases entries@.len() - i,
    {
        proof {
            assert(entries@.skip(i as int)[0] == entries@[i as int]);
            assert(entries@.skip(i as int).skip(1) =~= entries@.skip(i + 1));
        }
        if entries[i].0 == *name {
            return Some(entries[i].1);
        }
        i = i + 1;
    }
    proof {
        assert(entries@.skip(i as int) =~= Seq::<(String, u16)>::empty());
    }
    None
}

/// Insert a symbol, overwriting an entry of the same name in place.
fn table_insert(entries: &mut Vec<(String, u16)>, name: String, addr: u16)
    ensures
        final(entries)@ == spec_table_insert(old(entries)@, name, addr),
{
    let ghost orig = old(entries)@;
    proof {
        assert(orig.subrange(0, 0) + spec_table_insert(orig.skip(0), name, addr) =~= spec_table_insert(
            orig,
            name,
            addr,
        )) by {
            assert(orig.skip(0) =~= orig);
        }
    }
    let mut i: usize = 0;
    while i < entries.len()
        invariant
            orig == old(entries)@,
            i <= orig.len(),
            entries@ == orig,
            spec_table_insert(orig, name, addr) == orig.subrange(0, i as int) + spec_table_insert(
                orig.skip(i as int),
                name,
                addr,
            ),
        decreases orig.len() - i,
    {
        proof {
            assert(orig.skip(i as int)[0] == orig[i as int]);
            assert(orig.skip(i as int).skip(1) =~= orig.skip(i + 1));
        }
        if entries[i].0 == *(&name) {
            entries[i] = (name, addr);
            proof {
                assert(spec_table_insert(orig.skip(i as int), name, addr) == seq![(name, addr)]
                    + orig.skip(i as int).skip(1));
                assert(entries@ =~= orig.subrange(0, i as int) + (seq![(name, addr)] + orig.skip(
                    i as int,
                ).skip(1)));
            }
            return ;
        }
        proof {
            assert(orig.subrange(0, i as int) + (seq![orig[i as int]] + spec_table_insert(
                orig.skip(i + 1),
                name,
                addr,
            )) =~= orig.subrange(0, i + 1) + spec_table_insert(orig.skip(i + 1), name, addr));
        }
        i = i + 1;
    }
    proof {
        assert(orig.skip(i as int) =~= Seq::<(String, u16)>::empty());
    }
    entries.push((name, addr));
    proof {
        assert(entries@ =~= orig.subrange(0, i as int) + seq![(name, addr)]);
    }
}

// ============================================================================
// Source positions and error construction.
// ============================================================================

/// The model of a semantic error at `span` with the given message.
pub open spec fn sem_err(source: Seq<char>, span: Span, message: Seq<char>) -> SemErrModel {
    SemErrModel {
        message,
        line: spec_pos(source, span.start as int).0 as int,
        column: spec_pos(source, span.start as int).1 as int,
        span,
    }
}

/// Convert a character offset to 1-based (line, column) in the source.
fn offset_to_pos(source: &str, offset: usize) -> (r: (usize, usize))
    ensures
        r == spec_pos(source@, offset as int),
{
    let n = source.unicode_len();
    let mut i: usize = 0;
    let mut line: usize = 1;
    let mut col: usize = 1;
    while i < n && i < offset
        invariant
            i <= n,
            n == source@.len(),
            spec_pos_from(source@, i as int, offset as int, line, col) == spec_pos(
                source@,
                offset as int,
            ),
        decreases n - i,
    {
        let c = source.get_char(i);
        if c == '\n' {
            line = line.wrapping_add(1);
            col = 1;
        } else {
            col = col.wrapping_add(1);
        }
        i = i + 1;
    }
    (line, col)
}

/// Create a semantic error from a span.
fn make_error(source: &str, span: Span, message: String) -> (r: SemanticError)
    ensures
        r@ == sem_err(source@, span, message@),
{
    let (line, column) = offset_to_pos(source, span.start);
    SemanticError { message, line, column, span }
}

// ============================================================================
// Error messages.
// ============================================================================

/// The message of an undefined-symbol error.
pub open spec fn msg_undefined(name: Seq<char>) -> Seq<char> {
    "undefined symbol: "@ + name
}

/// The message of an out-of-range offset error.
pub open spec fn msg_offset_range(op: Seq<char>, min: int, max: int) -> Seq<char> {
    op + " offset out of range ("@ + spec_idec(min) + " to "@ + spec_idec(max) + ")"@
}

/// The printable name of a memory-access opcode.
pub open spec fn spec_op_name(op: u16) -> Seq<char> {
    if op == 0b0010 {
        "LD"@
    } else if op == 0b1010 {
        "LDI"@
    } else if op == 0b0110 {
        "LDR"@
    } else if op == 0b1110 {
        "LEA"@
    } else if op == 0b0011 {
        "ST"@
    } else if op == 0b1011 {
        "STI"@
    } else if op == 0b0111 {
        "STR"@
    } else {
        "instruction"@
    }
}

fn op_name(op: u16) -> (r: &'static str)
    ensures
        r@ == spec_op_name(op),
{
    if op == 0b0010 {
        "LD"
    } else if op == 0b1010 {
        "LDI"
    } else if op == 0b0110 {
        "LDR"
    } else if op == 0b1110 {
        "LEA"
    } else if op == 0b0011 {
        "ST"
    } else if op == 0b1011 {
        "STI"
    } else if op == 0b0111 {
        "STR"
    } else {
        "instruction"
    }
}

// ============================================================================
// Pass 1: address assignment.
// ============================================================================

/// How a directive advances the location counter in either pass: `.ORIG`
/// jumps to its address, `.FILL` takes one word, `.BLKW n` takes `n`,
/// `.STRINGZ s` takes one word per character plus a terminator, `.END`
/// none. Arithmetic wraps at the 16-bit address space.
pub open spec fn spec_advance_dir(dir: Directive, pc: u16) -> u16 {
    match dir {
        Directive::Orig(addr) => addr,
        Directive::Fill(_) => pc.wrapping_add(1),
        Directive::Blkw(n) => pc.wrapping_add(n),
        Directive::Stringz(s) => pc.wrapping_add(s@.len() as u16).wrapping_add(1),
        Directive::End => pc,
    }
}

/// The address of the first `.ORIG` at or after line `i`, or `dflt`.
pub open spec fn spec_first_origin(lines: Seq<SpannedLine>, i: int, dflt: u16) -> u16
    decreases lines.len() - i,
{
    if i < 0 || i >= lines.len() {
        dflt
    } else {
        match lines[i].line {
            Line::Directive(Directive::Orig(addr)) => addr,
            Line::LabeledDirective(_, Directive::Orig(addr)) => addr,
            _ => spec_first_origin(lines, i + 1, dflt),
        }
    }
}

/// The symbol table pass 1 builds from line `i` on: each label is recorded
/// at the current location counter, later definitions overwriting earlier
/// ones.
pub open spec fn spec_first_pass(
    lines: Seq<SpannedLine>,
    i: int,
    pc: u16,
    syms: Seq<(String, u16)>,
) -> Seq<(String, u16)>
    decreases lines.len() - i,
{
    if i < 0 || i >= lines.len() {
        syms
    } else {
        match lines[i].line {
            Line::Label(l) => spec_first_pass(lines, i + 1, pc, spec_table_insert(syms, l.value, pc)),
            Line::LabeledDirective(l, d) => spec_first_pass(
                lines,
                i + 1,
                spec_advance_dir(d, pc),
                spec_table_insert(syms, l.value, pc),
            ),
            Line::LabeledInstruction(l, _) => spec_first_pass(
                lines,
                i + 1,
                pc.wrapping_add(1),
                spec_table_insert(syms, l.value, pc),
            ),
            Line::Directive(d) => spec_first_pass(lines, i + 1, spec_advance_dir(d, pc), syms),
            Line::Instruction(_) => spec_first_pass(lines, i + 1, pc.wrapping_add(1), syms),
            Line::Empty => spec_first_pass(lines, i + 1, pc, syms),
            Line::Error => spec_first_pass(lines, i + 1, pc, syms),
        }
    }
}

/// Pass 1 keeps the symbol names unique: at most one entry per name.
pub proof fn lemma_first_pass_unique(lines: Seq<SpannedLine>, i: int, pc: u16, syms: Seq<(String, u16)>)
    requires
        unique_names(syms),
    ensures
        unique_names(spec_first_pass(lines, i, pc, syms)),
    decreases lines.len() - i,
{
    if 0 <= i < lines.len() {
        match lines[i].line {
            Line::Label(l) => {
                lemma_table_insert(syms, l.value, pc);
                lemma_first_pass_unique(lines, i + 1, pc, spec_table_insert(syms, l.value, pc));
            },
            Line::LabeledDirective(l, d) => {
                lemma_table_insert(syms, l.value, pc);
                lemma_first_pass_unique(
                    lines,
                    i + 1,
                    spec_advance_dir(d, pc),
                    spec_table_insert(syms, l.value, pc),
                );
            },
            Line::LabeledInstruction(l, _) => {
                lemma_table_insert(syms, l.value, pc);
                lemma_first_pass_unique(
                    lines,
                    i + 1,
                    pc.wrapping_add(1),
                    spec_table_insert(syms, l.value, pc),
                );
            },
            Line::Directive(d) => {
                lemma_first_pass_unique(lines, i + 1, spec_advance_dir(d, pc), syms);
            },
            Line::Instruction(_) => {
                lemma_first_pass_unique(lines, i + 1, pc.wrapping_add(1), syms);
            },
            Line::Empty => {
                lemma_first_pass_unique(lines, i + 1, pc, syms);
            },
            Line::Error => {
                lemma_first_pass_unique(lines, i + 1, pc, syms);
            },
        }
    }
}

// ============================================================================
// Pass 2: encoding and segmentation.
// ============================================================================

/// The running state of pass 2.
#[verifier::ext_equal]
pub struct Pass2State {
    pub origin: u16,
    pub code: Seq<u16>,
    pub pc: u16,
    pub in_segment: bool,
    pub segments: Seq<SegmentModel>,
    pub errors: Seq<SemErrModel>,
}

/// Finish the current segment if it holds any code.
pub open spec fn spec_flush(st: Pass2State) -> Pass2State {
    if st.code.len() > 0 {
        Pass2State {
            segments: st.segments.push(SegmentModel { origin: st.origin, code: st.code }),
            code: Seq::empty(),
            ..st
        }
    } else {
        st
    }
}

/// The word a `.FILL` operand denotes, with any error it raises: a number
/// is taken as is, a label resolves to its absolute address, a register or
/// a string is rejected, an unknown label is rejected and yields zero.
pub open spec fn spec_resolve_operand(
    syms: Seq<(String, u16)>,
    op: Operand,
    source: Seq<char>,
    span: Span,
) -> (u16, Seq<SemErrModel>) {
    match op {
        Operand::Immediate(v) => (v as u16, Seq::empty()),
        Operand::Label(l) => match spec_lookup(syms, l.value@) {
            Some(addr) => (addr, Seq::empty()),
            None => (0, seq![sem_err(source, l.span, msg_undefined(l.value@))]),
        },
        Operand::Register(_) => (
            0,
            seq![sem_err(source, span, "cannot use register as value"@)],
        ),
        Operand::String(_) => (0, seq![sem_err(source, span, "cannot use string as value"@)]),
    }
}

/// The PC-relative offset of a label from the instruction at `pc`:
/// `address - (pc + 1)` as a signed 16-bit value; an unknown label is
/// rejected and yields zero.
pub open spec fn spec_resolve_label(
    syms: Seq<(String, u16)>,
    label: Spanned<String>,
    pc: u16,
    source: Seq<char>,
) -> (i16, Seq<SemErrModel>) {
    match spec_lookup(syms, label.value@) {
        Some(addr) => (addr.wrapping_sub(pc.wrapping_add(1)) as i16, Seq::empty()),
        None => (0, seq![sem_err(source, label.span, msg_undefined(label.value@))]),
    }
}

/// The error an offset raises when it does not fit a `bits`-wide signed
/// field.
pub open spec fn spec_check_offset(
    offset: i16,
    bits: u8,
    op: Seq<char>,
    source: Seq<char>,
    span: Span,
) -> Seq<SemErrModel>
    recommends
        1 <= bits < 16,
{
    let half = (1u32 << ((bits - 1) as u32)) as int;
    if offset < -half || offset > half - 1 {
        seq![sem_err(source, span, msg_offset_range(op, -half, half - 1))]
    } else {
        Seq::empty()
    }
}

/// The words a data directive emits and the location counter after it.
/// `.FILL` emits its resolved operand, `.BLKW n` emits `n` zero words,
/// `.STRINGZ` emits one word per character and a zero terminator.
pub open spec fn spec_emit_directive(
    syms: Seq<(String, u16)>,
    dir: Directive,
    pc: u16,
    source: Seq<char>,
    span: Span,
) -> (Seq<u16>, u16, Seq<SemErrModel>) {
    match dir {
        Directive::Orig(addr) => (Seq::empty(), addr, Seq::empty()),
        Directive::Fill(op) => {
            let (w, errs) = spec_resolve_operand(syms, op, source, span);
            (seq![w], pc.wrapping_add(1), errs)
        },
        Directive::Blkw(n) => (Seq::new(n as nat, |k: int| 0u16), pc.wrapping_add(n), Seq::empty()),
        Directive::Stringz(s) => {
            let ws = s@.map_values(|c: char| c as u16).push(0u16);
            (ws, pc.wrapping_add(ws.len() as u16), Seq::empty())
        },
        Directive::End => (Seq::empty(), pc, Seq::empty()),
    }
}

/// The 16-bit word an instruction encodes to at address `pc`, with the
/// semantic errors it raises. Field assembly is bit-OR of shifted fields
/// masked to their widths, exactly per the instruction layout table.
pub open spec fn spec_emit_instruction(
    syms: Seq<(String, u16)>,
    instr: Instruction,
    pc: u16,
    source: Seq<char>,
    span: Span,
) -> (u16, Seq<SemErrModel>) {
    match instr {
        Instruction::Add { dr, sr1, src2 } => {
            let base = (0b0001u16 << 12) | ((dr.0 as u16) << 9) | ((sr1.0 as u16) << 6);
            match src2 {
                AddSrc2::Register(r) => (base | (r.0 as u16), Seq::empty()),
                AddSrc2::Immediate(imm) => (
                    base | (1u16 << 5) | ((imm as u16) & 0x1F),
                    if imm < -16 || imm > 15 {
                        seq![
                            sem_err(source, span, "immediate value out of range (-16 to 15)"@),
                        ]
                    } else {
                        Seq::empty()
                    },
                ),
            }
        },
        Instruction::And { dr, sr1, src2 } => {
            let base = (0b0101u16 << 12) | ((dr.0 as u16) << 9) | ((sr1.0 as u16) << 6);
            match src2 {
                AndSrc2::Register(r) => (base | (r.0 as u16), Seq::empty()),
                AndSrc2::Immediate(imm) => (
                    base | (1u16 << 5) | ((imm as u16) & 0x1F),
                    if imm < -16 || imm > 15 {
                        seq![
                            sem_err(source, span, "immediate value out of range (-16 to 15)"@),
                        ]
                    } else {
                        Seq::empty()
                    },
                ),
            }
        },
        Instruction::Not { dr, sr } => (
            (0b1001u16 << 12) | ((dr.0 as u16) << 9) | ((sr.0 as u16) << 6) | 0x3F,
            Seq::empty(),
        ),
        Instruction::Br { n, z, p, label } => {
            let (offset, errs) = spec_resolve_label(syms, label, pc, source);
            let errs2 = spec_check_offset(offset, 9, "BR"@, source, label.span);
            (
                ((if n {
                    1u16
                } else {
                    0u16
                }) << 11) | ((if z {
                    1u16
                } else {
                    0u16
                }) << 10) | ((if p {
                    1u16
                } else {
                    0u16
                }) << 9) | ((offset as u16) & 0x1FF),
                errs + errs2,
            )
        },
        Instruction::Jmp { base } => ((0b1100u16 << 12) | ((base.0 as u16) << 6), Seq::empty()),
        Instruction::Ret => (0xC1C0, Seq::empty()),
        Instruction::Jsr { label } => {
            let (offset, errs) = spec_resolve_label(syms, label, pc, source);
            let errs2 = spec_check_offset(offset, 11, "JSR"@, source, label.span);
            (
                (0b0100u16 << 12) | (1u16 << 11) | ((offset as u16) & 0x7FF),
                errs + errs2,
            )
        },
        Instruction::Jsrr { base } => ((0b0100u16 << 12) | ((base.0 as u16) << 6), Seq::empty()),
        Instruction::Ld { dr, label } => spec_emit_pc_offset(
            syms,
            0b0010,
            dr.0,
            label,
            pc,
            source,
        ),
        Instruction::Ldi { dr, label } => spec_emit_pc_offset(
            syms,
            0b1010,
            dr.0,
            label,
            pc,
            source,
        ),
        Instruction::Ldr { dr, base, offset } => spec_emit_base_offset(
            0b0110,
            dr.0,
            base.0,
            offset,
            source,
            span,
        ),
        Instruction::Lea { dr, label } => spec_emit_pc_offset(
            syms,
            0b1110,
            dr.0,
            label,
            pc,
            source,
        ),
        Instruction::St { sr, label } => spec_emit_pc_offset(syms, 0b0011, sr.0, label, pc, source),
        Instruction::Sti { sr, label } => spec_emit_pc_offset(
            syms,
            0b1011,
            sr.0,
            label,
            pc,
            source,
        ),
        Instruction::Str { sr, base, offset } => spec_emit_base_offset(
            0b0111,
            sr.0,
            base.0,
            offset,
            source,
            span,
        ),
        Instruction::Trap { trapvect } => (0xF000 | (trapvect as u16), Seq::empty()),
        Instruction::Getc => (0xF020, Seq::empty()),
        Instruction::Out => (0xF021, Seq::empty()),
        Instruction::Puts => (0xF022, Seq::empty()),
        Instruction::In => (0xF023, Seq::empty()),
        Instruction::Putsp => (0xF024, Seq::empty()),
        Instruction::Halt => (0xF025, Seq::empty()),
        Instruction::Rti => (0x8000, Seq::empty()),
    }
}

/// A PC-relative instruction word: opcode, register, 9-bit offset.
pub open spec fn spec_emit_pc_offset(
    syms: Seq<(String, u16)>,
    op: u16,
    reg: u8,
    label: Spanned<String>,
    pc: u16,
    source: Seq<char>,
) -> (u16, Seq<SemErrModel>) {
    let (offset, errs) = spec_resolve_label(syms, label, pc, source);
    let errs2 = spec_check_offset(offset, 9, spec_op_name(op), source, label.span);
    ((op << 12) | ((reg as u16) << 9) | ((offset as u16) & 0x1FF), errs + errs2)
}

/// A base+offset instruction word: opcode, register, base, 6-bit offset.
pub open spec fn spec_emit_base_offset(
    op: u16,
    reg: u8,
    base: u8,
    offset: i8,
    source: Seq<char>,
    span: Span,
) -> (u16, Seq<SemErrModel>) {
    let errs: Seq<SemErrModel> = if offset < -32 || offset > 31 {
        seq![sem_err(source, span, msg_offset_range(spec_op_name(op), -32, 31))]
    } else {
        Seq::empty()
    };
    (
        (op << 12) | ((reg as u16) << 9) | ((base as u16) << 6) | ((offset as u16) & 0x3F),
        errs,
    )
}

/// One line of pass 2: `.ORIG` finishes the current segment and starts a
/// new one, `.END` finishes it, data directives and instructions emit
/// words into it, labels and blank or broken lines emit nothing.
pub open spec fn spec_pass2_line(
    syms: Seq<(String, u16)>,
    st: Pass2State,
    l: SpannedLine,
    source: Seq<char>,
) -> Pass2State {
    match l.line {
        Line::Label(_) => st,
        Line::LabeledDirective(_, d) => spec_pass2_dir(syms, st, d, source, l.span),
        Line::Directive(d) => spec_pass2_dir(syms, st, d, source, l.span),
        Line::LabeledInstruction(_, instr) => spec_pass2_instr(syms, st, instr, source, l.span),
        Line::Instruction(instr) => spec_pass2_instr(syms, st, instr, source, l.span),
        Line::Empty => st,
        Line::Error => st,
    }
}

/// A directive in pass 2.
pub open spec fn spec_pass2_dir(
    syms: Seq<(String, u16)>,
    st: Pass2State,
    d: Directive,
    source: Seq<char>,
    span: Span,
) -> Pass2State {
    match d {
        Directive::Orig(addr) => {
            let f = spec_flush(st);
            Pass2State { origin: addr, pc: addr, in_segment: true, ..f }
        },
        Directive::End => {
            let f = spec_flush(st);
            Pass2State { in_segment: false, ..f }
        },
        _ => {
            let (ws, npc, errs) = spec_emit_directive(syms, d, st.pc, source, span);
            Pass2State { code: st.code + ws, pc: npc, errors: st.errors + errs, ..st }
        },
    }
}

/// An instruction in pass 2.
pub open spec fn spec_pass2_instr(
    syms: Seq<(String, u16)>,
    st: Pass2State,
    instr: Instruction,
    source: Seq<char>,
    span: Span,
) -> Pass2State {
    let (w, errs) = spec_emit_instruction(syms, instr, st.pc, source, span);
    Pass2State {
        code: st.code.push(w),
        pc: st.pc.wrapping_add(1),
        errors: st.errors + errs,
        ..st
    }
}

/// Pass 2 from line `i` on; at the end of input an open segment holding
/// code is finished.
pub open spec fn spec_second_pass(
    syms: Seq<(String, u16)>,
    lines: Seq<SpannedLine>,
    i: int,
    st: Pass2State,
    source: Seq<char>,
) -> Pass2State
    decreases lines.len() - i,
{
    if i < 0 || i >= lines.len() {
        if st.in_segment && st.code.len() > 0 {
            spec_flush(st)
        } else {
            st
        }
    } else {
        spec_second_pass(syms, lines, i + 1, spec_pass2_line(syms, st, lines[i], source), source)
    }
}

/// The initial pass-2 state: location counter and current origin at the
/// program's first origin, nothing emitted.
pub open spec fn spec_pass2_init(origin: u16) -> Pass2State {
    Pass2State {
        origin,
        code: Seq::empty(),
        pc: origin,
        in_segment: false,
        segments: Seq::empty(),
        errors: Seq::empty(),
    }
}

/// The final pass-2 state of a program: both passes composed.
pub open spec fn spec_assemble(lines: Seq<SpannedLine>, source: Seq<char>) -> Pass2State {
    let syms = spec_first_pass(lines, 0, 0x3000, Seq::empty());
    let origin = spec_first_origin(lines, 0, 0x3000);
    spec_second_pass(syms, lines, 0, spec_pass2_init(origin), source)
}

/// The code of all segments, concatenated.
pub open spec fn spec_concat_code(segs: Seq<SegmentModel>) -> Seq<u16>
    decreases segs.len(),
{
    if segs.len() == 0 {
        Seq::empty()
    } else {
        segs[0].code + spec_concat_code(segs.skip(1))
    }
}

// ============================================================================
// The assembler.
// ============================================================================

/// Two-pass LC-3 assembler.
#[derive(Debug)]
pub struct Assembler {
    /// The symbol table pass 1 builds; names are unique.
    pub symbols: Vec<(String, u16)>,
    /// The first `.ORIG` address of the last assembled program.
    pub origin: u16,
    /// The segments of the last assembled program.
    pub segments: Vec<Segment>,
}

impl Default for Assembler {
    /// An assembler with an empty symbol table, the default origin 0x3000
    /// and no segments.
    fn default() -> (r: Self)
        ensures
            r.symbols@ == Seq::<(String, u16)>::empty(),
            r.origin == 0,
            r.segments@ == Seq::<Segment>::empty(),
    {
        Assembler { symbols: Vec::new(), origin: 0, segments: Vec::new() }
    }
}

impl Assembler {
    /// A fresh assembler.
    pub fn new() -> (r: Self)
        ensures
            r.symbols@ == Seq::<(String, u16)>::empty(),
            r.origin == 0,
            r.segments@ == Seq::<Segment>::empty(),
    {
        Assembler { symbols: Vec::new(), origin: 0, segments: Vec::new() }
    }

    /// The first origin address (set by the first `.ORIG` directive during
    /// assembly).
    pub fn origin(&self) -> (r: u16)
        ensures
            r == self.origin,
    {
        self.origin
    }

    /// All assembled segments, each with its own origin and code.
    pub fn segments(&self) -> (r: &[Segment])
        ensures
            r@ == self.segments@,
    {
        self.segments.as_slice()
    }

    fn first_pass(&mut self, program: &Program)
        ensures
            final(self).symbols@ == spec_first_pass(
                program.lines@,
                0,
                old(self).origin,
                old(self).symbols@,
            ),
            final(self).origin == spec_first_origin(program.lines@, 0, old(self).origin),
            final(self).segments == old(self).segments,
    {
        let ghost lines = program.lines@;
        let ghost target = spec_first_pass(lines, 0, self.origin, self.symbols@);
        let ghost otarget = spec_first_origin(lines, 0, self.origin);
        let mut pc: u16 = self.origin;
        let mut first_orig = true;

        let mut i: usize = 0;
        while i < program.lines.len()
            invariant
                i <= lines.len(),
                lines == program.lines@,
                spec_first_pass(lines, i as int, pc, self.symbols@) == target,
                first_orig ==> self.origin == old(self).origin && spec_first_origin(
                    lines,
                    i as int,
                    self.origin,
                ) == otarget,
                !first_orig ==> self.origin == otarget,
                self.segments == old(self).segments,
            decreases lines.len() - i,
        {
            let spanned_line = &program.lines[i];
            match &spanned_line.line {
                Line::Label(label) => {
                    table_insert(&mut self.symbols, label.value.clone(), pc);
                },
                Line::LabeledDirective(label, dir) => {
                    table_insert(&mut self.symbols, label.value.clone(), pc);
                    pc = self.advance_pc_directive_first_pass(dir, pc, &mut first_orig);
                },
                Line::LabeledInstruction(label, _) => {
                    table_insert(&mut self.symbols, label.value.clone(), pc);
                    pc = pc.wrapping_add(1);
                },
                Line::Directive(dir) => {
                    pc = self.advance_pc_directive_first_pass(dir, pc, &mut first_orig);
                },
                Line::Instruction(_) => {
                    pc = pc.wrapping_add(1);
                },
                Line::Empty => {},
                Line::Error => {},
            }
            i = i + 1;
        }
    }

    /// Advance the location counter for a directive during pass 1; the
    /// first `.ORIG` also sets the assembler's tracked origin.
    fn advance_pc_directive_first_pass(
        &mut self,
        dir: &Directive,
        pc: u16,
        first_orig: &mut bool,
    ) -> (r: u16)
        ensures
            r == spec_advance_dir(*dir, pc),
            final(self).symbols == old(self).symbols,
            final(self).segments == old(self).segments,
            match *dir {
                Directive::Orig(addr) => if *old(first_orig) {
                    final(self).origin == addr && *final(first_orig) == false
                } else {
                    final(self).origin == old(self).origin && *final(first_orig) == *old(
                        first_orig,
                    )
                },
                _ => final(self).origin == old(self).origin && *final(first_orig) == *old(
                    first_orig,
                ),
            },
    {
        match dir {
            Directive::Orig(addr) => {
                if *first_orig {
                    self.origin = *addr;
                    *first_orig = false;
                }
                *addr
            },
            Directive::Fill(_) => pc.wrapping_add(1),
            Directive::Blkw(n) => pc.wrapping_add(*n),
            Directive::Stringz(s) => {
                let l = s.as_str().unicode_len();
                pc.wrapping_add(l as u16).wrapping_add(1)
            },
            Directive::End => pc,
        }
    }
}


// ============================================================================
// Pass 2: executable encoding.
// ============================================================================

/// Copy a word vector.
fn copy_words(v: &Vec<u16>) -> (r: Vec<u16>)
    ensures
        r@ == v@,
{
    let mut out: Vec<u16> = Vec::new();
    let mut i: usize = 0;
    while i < v.len()
        invariant
            i <= v@.len(),
            out@ == v@.subrange(0, i as int),
        decreases v@.len() - i,
    {
        out.push(v[i]);
        proof {
            assert(out@ =~= v@.subrange(0, i + 1));
        }
        i = i + 1;
    }
    proof {
        assert(out@ =~= v@);
    }
    out
}

impl AddSrc2 {
    /// Encode this operand into the low bits of an ALU instruction word,
    /// rejecting an immediate outside -16..=15.
    pub fn encode(
        &self,
        base: u16,
        source: &str,
        span: Span,
        errors: &mut Vec<SemanticError>,
    ) -> (r: u16)
        ensures
            ({
                let (w, errs) = match *self {
                    AddSrc2::Register(reg) => (base | (reg.0 as u16), Seq::<SemErrModel>::empty()),
                    AddSrc2::Immediate(imm) => (
                        base | (1u16 << 5) | ((imm as u16) & 0x1F),
                        if imm < -16 || imm > 15 {
                            seq![
                                sem_err(
                                    source@,
                                    span,
                                    "immediate value out of range (-16 to 15)"@,
                                ),
                            ]
                        } else {
                            Seq::<SemErrModel>::empty()
                        },
                    ),
                };
                r == w && err_views(final(errors)@) == err_views(old(errors)@) + errs
            }),
    {
        match self {
            AddSrc2::Register(r) => {
                proof {
                    assert(err_views(errors@) =~= err_views(old(errors)@)
                        + Seq::<SemErrModel>::empty());
                }
                base | (r.0 as u16)
            },
            AddSrc2::Immediate(imm) => {
                if *imm < -16 || *imm > 15 {
                    let e = make_error(
                        source,
                        span,
                        "immediate value out of range (-16 to 15)".to_owned(),
                    );
                    let ghost ev = e@;
                    errors.push(e);
                    proof {
                        assert(err_views(errors@) =~= err_views(old(errors)@) + seq![ev]);
                    }
                } else {
                    proof {
                        assert(err_views(errors@) =~= err_views(old(errors)@)
                            + Seq::<SemErrModel>::empty());
                    }
                }
                base | (1u16 << 5) | ((*imm as u16) & 0x1F)
            },
        }
    }
}

impl AndSrc2 {
    /// Encode this operand into the low bits of an ALU instruction word,
    /// rejecting an immediate outside -16..=15.
    pub fn encode(
        &self,
        base: u16,
        source: &str,
        span: Span,
        errors: &mut Vec<SemanticError>,
    ) -> (r: u16)
        ensures
            ({
                let (w, errs) = match *self {
                    AndSrc2::Register(reg) => (base | (reg.0 as u16), Seq::<SemErrModel>::empty()),
                    AndSrc2::Immediate(imm) => (
                        base | (1u16 << 5) | ((imm as u16) & 0x1F),
                        if imm < -16 || imm > 15 {
                            seq![
                                sem_err(
                                    source@,
                                    span,
                                    "immediate value out of range (-16 to 15)"@,
                                ),
                            ]
                        } else {
                            Seq::<SemErrModel>::empty()
                        },
                    ),
                };
                r == w && err_views(final(errors)@) == err_views(old(errors)@) + errs
            }),
    {
        match self {
            AndSrc2::Register(r) => {
                proof {
                    assert(err_views(errors@) =~= err_views(old(errors)@)
                        + Seq::<SemErrModel>::empty());
                }
                base | (r.0 as u16)
            },
            AndSrc2::Immediate(imm) => {
                if *imm < -16 || *imm > 15 {
                    let e = make_error(
                        source,
                        span,
                        "immediate value out of range (-16 to 15)".to_owned(),
                    );
                    let ghost ev = e@;
                    errors.push(e);
                    proof {
                        assert(err_views(errors@) =~= err_views(old(errors)@) + seq![ev]);
                    }
                } else {
                    proof {
                        assert(err_views(errors@) =~= err_views(old(errors)@)
                            + Seq::<SemErrModel>::empty());
                    }
                }
                base | (1u16 << 5) | ((*imm as u16) & 0x1F)
            },
        }
    }
}

/// Check that an offset fits a `bits`-wide signed field, recording an
/// error otherwise.
pub fn check_offset(
    offset: i16,
    bits: u8,
    op: &str,
    source: &str,
    span: Span,
    errors: &mut Vec<SemanticError>,
)
    requires
        1 <= bits < 16,
    ensures
        err_views(final(errors)@) == err_views(old(errors)@) + spec_check_offset(
            offset,
            bits,
            op@,
            source@,
            span,
        ),
{
    let half: u32 = 1u32 << ((bits - 1) as u32);
    proof {
        assert(1 <= half <= 16384) by (bit_vector)
            requires
                half == 1u32 << ((bits - 1) as u32) && 1 <= bits < 16,
        ;
    }
    let maxv: i16 = (half - 1) as i16;
    let minv: i16 = (0i32 - (half as i32)) as i16;
    if offset < minv || offset > maxv {
        let mut m = op.to_owned();
        m.append(" offset out of range (");
        push_idec16(&mut m, minv);
        m.append(" to ");
        push_idec16(&mut m, maxv);
        m.append(")");
        proof {
            assert(m@ =~= msg_offset_range(op@, -(half as int), half - 1));
        }
        let e = make_error(source, span, m);
        let ghost ev = e@;
        errors.push(e);
        proof {
            assert(err_views(errors@) =~= err_views(old(errors)@) + seq![ev]);
        }
    } else {
        proof {
            assert(err_views(errors@) =~= err_views(old(errors)@) + Seq::<SemErrModel>::empty());
        }
    }
}

impl Assembler {
    /// Resolve a `.FILL` operand to the word it denotes.
    pub fn resolve_operand(
        &self,
        op: &Operand,
        source: &str,
        span: Span,
        errors: &mut Vec<SemanticError>,
    ) -> (r: u16)
        ensures
            r == spec_resolve_operand(self.symbols@, *op, source@, span).0,
            err_views(final(errors)@) == err_views(old(errors)@) + spec_resolve_operand(
                self.symbols@,
                *op,
                source@,
                span,
            ).1,
    {
        match op {
            Operand::Immediate(v) => {
                proof {
                    assert(err_views(errors@) =~= err_views(old(errors)@)
                        + Seq::<SemErrModel>::empty());
                }
                *v as u16
            },
            Operand::Label(label) => {
                match table_get(&self.symbols, &label.value) {
                    Some(addr) => {
                        proof {
                            assert(err_views(errors@) =~= err_views(old(errors)@)
                                + Seq::<SemErrModel>::empty());
                        }
                        addr
                    },
                    None => {
                        let mut m = "undefined symbol: ".to_owned();
                        m.append(label.value.as_str());
                        let e = make_error(source, label.span, m);
                        let ghost ev = e@;
                        errors.push(e);
                        proof {
                            assert(err_views(errors@) =~= err_views(old(errors)@) + seq![ev]);
                        }
                        0
                    },
                }
            },
            Operand::Register(_) => {
                let e = make_error(source, span, "cannot use register as value".to_owned());
                let ghost ev = e@;
                errors.push(e);
                proof {
                    assert(err_views(errors@) =~= err_views(old(errors)@) + seq![ev]);
                }
                0
            },
            Operand::String(_) => {
                let e = make_error(source, span, "cannot use string as value".to_owned());
                let ghost ev = e@;
                errors.push(e);
                proof {
                    assert(err_views(errors@) =~= err_views(old(errors)@) + seq![ev]);
                }
                0
            },
        }
    }

    /// Resolve a label to its PC-relative offset from the instruction at
    /// `pc`.
    pub fn resolve_label(
        &self,
        label: &Spanned<String>,
        pc: u16,
        source: &str,
        errors: &mut Vec<SemanticError>,
    ) -> (r: i16)
        ensures
            r == spec_resolve_label(self.symbols@, *label, pc, source@).0,
            err_views(final(errors)@) == err_views(old(errors)@) + spec_resolve_label(
                self.symbols@,
                *label,
                pc,
                source@,
            ).1,
    {
        match table_get(&self.symbols, &label.value) {
            Some(addr) => {
                proof {
                    assert(err_views(errors@) =~= err_views(old(errors)@)
                        + Seq::<SemErrModel>::empty());
                }
                addr.wrapping_sub(pc.wrapping_add(1)) as i16
            },
            None => {
                let mut m = "undefined symbol: ".to_owned();
                m.append(label.value.as_str());
                let e = make_error(source, label.span, m);
                let ghost ev = e@;
                errors.push(e);
                proof {
                    assert(err_views(errors@) =~= err_views(old(errors)@) + seq![ev]);
                }
                0
            },
        }
    }

    pub fn emit_br(
        &self,
        n: bool,
        z: bool,
        p: bool,
        label: &Spanned<String>,
        pc: u16,
        source: &str,
        errors: &mut Vec<SemanticError>,
    ) -> (r: u16)
        ensures
            ({
                let (offset, errs) = spec_resolve_label(self.symbols@, *label, pc, source@);
                let errs2 = spec_check_offset(offset, 9, "BR"@, source@, label.span);
                r == ((if n {
                    1u16
                } else {
                    0u16
                }) << 11) | ((if z {
                    1u16
                } else {
                    0u16
                }) << 10) | ((if p {
                    1u16
                } else {
                    0u16
                }) << 9) | ((offset as u16) & 0x1FF) && err_views(final(errors)@) == err_views(
                    old(errors)@,
                ) + errs + errs2
            }),
    {
        let offset = self.resolve_label(label, pc, source, errors);
        check_offset(offset, 9, "BR", source, label.span, errors);
        let nb: u16 = if n {
            1
        } else {
            0
        };
        let zb: u16 = if z {
            1
        } else {
            0
        };
        let pb: u16 = if p {
            1
        } else {
            0
        };
        (nb << 11) | (zb << 10) | (pb << 9) | ((offset as u16) & 0x1FF)
    }

    pub fn emit_jsr(
        &self,
        label: &Spanned<String>,
        pc: u16,
        source: &str,
        errors: &mut Vec<SemanticError>,
    ) -> (r: u16)
        ensures
            ({
                let (offset, errs) = spec_resolve_label(self.symbols@, *label, pc, source@);
                let errs2 = spec_check_offset(offset, 11, "JSR"@, source@, label.span);
                r == (0b0100u16 << 12) | (1u16 << 11) | ((offset as u16) & 0x7FF) && err_views(
                    final(errors)@,
                ) == err_views(old(errors)@) + errs + errs2
            }),
    {
        let offset = self.resolve_label(label, pc, source, errors);
        check_offset(offset, 11, "JSR", source, label.span, errors);
        (0b0100u16 << 12) | (1u16 << 11) | ((offset as u16) & 0x7FF)
    }

    pub fn emit_pc_offset(
        &self,
        op: u16,
        reg: u8,
        label: &Spanned<String>,
        pc: u16,
        source: &str,
        errors: &mut Vec<SemanticError>,
    ) -> (r: u16)
        ensures
            r == spec_emit_pc_offset(self.symbols@, op, reg, *label, pc, source@).0,
            err_views(final(errors)@) == err_views(old(errors)@) + spec_emit_pc_offset(
                self.symbols@,
                op,
                reg,
                *label,
                pc,
                source@,
            ).1,
    {
        let offset = self.resolve_label(label, pc, source, errors);
        check_offset(offset, 9, op_name(op), source, label.span, errors);
        (op << 12) | ((reg as u16) << 9) | ((offset as u16) & 0x1FF)
    }

    pub fn emit_base_offset(
        &self,
        op: u16,
        reg: u8,
        base: u8,
        offset: i8,
        source: &str,
        span: Span,
        errors: &mut Vec<SemanticError>,
    ) -> (r: u16)
        ensures
            r == spec_emit_base_offset(op, reg, base, offset, source@, span).0,
            err_views(final(errors)@) == err_views(old(errors)@) + spec_emit_base_offset(
                op,
                reg,
                base,
                offset,
                source@,
                span,
            ).1,
    {
        if offset < -32 || offset > 31 {
            let mut m = op_name(op).to_owned();
            m.append(" offset out of range (");
            push_idec16(&mut m, -32);
            m.append(" to ");
            push_idec16(&mut m, 31);
            m.append(")");
            proof {
                assert(m@ =~= msg_offset_range(spec_op_name(op), -32, 31));
            }
            let e = make_error(source, span, m);
            let ghost ev = e@;
            errors.push(e);
            proof {
                assert(err_views(errors@) =~= err_views(old(errors)@) + seq![ev]);
            }
        } else {
            proof {
                assert(err_views(errors@) =~= err_views(old(errors)@)
                    + Seq::<SemErrModel>::empty());
            }
        }
        (op << 12) | ((reg as u16) << 9) | ((base as u16) << 6) | ((offset as u16) & 0x3F)
    }

    pub fn emit_instruction(
        &self,
        instr: &Instruction,
        pc: u16,
        source: &str,
        span: Span,
        errors: &mut Vec<SemanticError>,
    ) -> (r: u16)
        ensures
            r == spec_emit_instruction(self.symbols@, *instr, pc, source@, span).0,
            err_views(final(errors)@) == err_views(old(errors)@) + spec_emit_instruction(
                self.symbols@,
                *instr,
                pc,
                source@,
                span,
            ).1,
    {
        match instr {
            Instruction::Add { dr, sr1, src2 } => {
                let base = (0b0001u16 << 12) | ((dr.0 as u16) << 9) | ((sr1.0 as u16) << 6);
                src2.encode(base, source, span, errors)
            },
            Instruction::And { dr, sr1, src2 } => {
                let base = (0b0101u16 << 12) | ((dr.0 as u16) << 9) | ((sr1.0 as u16) << 6);
                src2.encode(base, source, span, errors)
            },
            Instruction::Not { dr, sr } => {
                proof {
                    assert(err_views(errors@) =~= err_views(old(errors)@)
                        + Seq::<SemErrModel>::empty());
                }
                (0b1001u16 << 12) | ((dr.0 as u16) << 9) | ((sr.0 as u16) << 6) | 0x3F
            },
            Instruction::Br { n, z, p, label } => self.emit_br(*n, *z, *p, label, pc, source, errors),
            Instruction::Jmp { base } => {
                proof {
                    assert(err_views(errors@) =~= err_views(old(errors)@)
                        + Seq::<SemErrModel>::empty());
                }
                (0b1100u16 << 12) | ((base.0 as u16) << 6)
            },
            Instruction::Ret => {
                proof {
                    assert(err_views(errors@) =~= err_views(old(errors)@)
                        + Seq::<SemErrModel>::empty());
                }
                0xC1C0
            },
            Instruction::Jsr { label } => self.emit_jsr(label, pc, source, errors),
            Instruction::Jsrr { base } => {
                proof {
                    assert(err_views(errors@) =~= err_views(old(errors)@)
                        + Seq::<SemErrModel>::empty());
                }
                (0b0100u16 << 12) | ((base.0 as u16) << 6)
            },
            Instruction::Ld { dr, label } => self.emit_pc_offset(
                0b0010,
                dr.0,
                label,
                pc,
                source,
                errors,
            ),
            Instruction::Ldi { dr, label } => self.emit_pc_offset(
                0b1010,
                dr.0,
                label,
                pc,
                source,
                errors,
            ),
            Instruction::Ldr { dr, base, offset } => self.emit_base_offset(
                0b0110,
                dr.0,
                base.0,
                *offset,
                source,
                span,
                errors,
            ),
            Instruction::Lea { dr, label } => self.emit_pc_offset(
                0b1110,
                dr.0,
                label,
                pc,
                source,
                errors,
            ),
            Instruction::St { sr, label } => self.emit_pc_offset(
                0b0011,
                sr.0,
                label,
                pc,
                source,
                errors,
            ),
            Instruction::Sti { sr, label } => self.emit_pc_offset(
                0b1011,
                sr.0,
                label,
                pc,
                source,
                errors,
            ),
            Instruction::Str { sr, base, offset } => self.emit_base_offset(
                0b0111,
                sr.0,
                base.0,
                *offset,
                source,
                span,
                errors,
            ),
            Instruction::Trap { trapvect } => {
                proof {
                    assert(err_views(errors@) =~= err_views(old(errors)@)
                        + Seq::<SemErrModel>::empty());
                }
                0xF000 | (*trapvect as u16)
            },
            Instruction::Getc => {
                proof {
                    assert(err_views(errors@) =~= err_views(old(errors)@)
                        + Seq::<SemErrModel>::empty());
                }
                0xF020
            },
            Instruction::Out => {
                proof {
                    assert(err_views(errors@) =~= err_views(old(errors)@)
                        + Seq::<SemErrModel>::empty());
                }
                0xF021
            },
            Instruction::Puts => {
                proof {
                    assert(err_views(errors@) =~= err_views(old(errors)@)
                        + Seq::<SemErrModel>::empty());
                }
                0xF022
            },
            Instruction::In => {
                proof {
                    assert(err_views(errors@) =~= err_views(old(errors)@)
                        + Seq::<SemErrModel>::empty());
                }
                0xF023
            },
            Instruction::Putsp => {
                proof {
                    assert(err_views(errors@) =~= err_views(old(errors)@)
                        + Seq::<SemErrModel>::empty());
                }
                0xF024
            },
            Instruction::Halt => {
                proof {
                    assert(err_views(errors@) =~= err_views(old(errors)@)
                        + Seq::<SemErrModel>::empty());
                }
                0xF025
            },
            Instruction::Rti => {
                proof {
                    assert(err_views(errors@) =~= err_views(old(errors)@)
                        + Seq::<SemErrModel>::empty());
                }
                0x8000
            },
        }
    }

    pub fn emit_directive(
        &self,
        dir: &Directive,
        pc: u16,
        source: &str,
        span: Span,
        errors: &mut Vec<SemanticError>,
    ) -> (r: (Vec<u16>, u16))
        ensures
            r.0@ == spec_emit_directive(self.symbols@, *dir, pc, source@, span).0,
            r.1 == spec_emit_directive(self.symbols@, *dir, pc, source@, span).1,
            err_views(final(errors)@) == err_views(old(errors)@) + spec_emit_directive(
                self.symbols@,
                *dir,
                pc,
                source@,
                span,
            ).2,
    {
        match dir {
            Directive::Orig(addr) => {
                proof {
                    assert(err_views(errors@) =~= err_views(old(errors)@)
                        + Seq::<SemErrModel>::empty());
                }
                (Vec::new(), *addr)
            },
            Directive::Fill(op) => {
                let w = self.resolve_operand(op, source, span, errors);
                let mut words: Vec<u16> = Vec::new();
                words.push(w);
                proof {
                    assert(words@ =~= seq![w]);
                }
                (words, pc.wrapping_add(1))
            },
            Directive::Blkw(n) => {
                let words = vec![0u16; *n as usize];
                proof {
                    assert(words@ =~= Seq::new(*n as nat, |k: int| 0u16));
                    assert(err_views(errors@) =~= err_views(old(errors)@)
                        + Seq::<SemErrModel>::empty());
                }
                (words, pc.wrapping_add(*n))
            },
            Directive::Stringz(st) => {
                let n = st.as_str().unicode_len();
                let mut words: Vec<u16> = Vec::new();
                let mut k: usize = 0;
                while k < n
                    invariant
                        k <= n,
                        n == st@.len(),
                        words@ == st@.subrange(0, k as int).map_values(|c: char| c as u16),
                    decreases n - k,
                {
                    let c = st.as_str().get_char(k);
                    words.push(c as u16);
                    proof {
                        assert(words@ =~= st@.subrange(0, k + 1).map_values(
                            |c2: char| c2 as u16,
                        ));
                    }
                    k = k + 1;
                }
                words.push(0);
                proof {
                    assert(st@.subrange(0, n as int) =~= st@);
                    assert(words@ =~= st@.map_values(|c2: char| c2 as u16).push(0u16));
                    assert(err_views(errors@) =~= err_views(old(errors)@)
                        + Seq::<SemErrModel>::empty());
                }
                let len16 = words.len() as u16;
                proof {
                    assert(words@.len() == st@.len() + 1);
                }
                (words, pc.wrapping_add(len16))
            },
            Directive::End => {
                proof {
                    assert(err_views(errors@) =~= err_views(old(errors)@)
                        + Seq::<SemErrModel>::empty());
                }
                (Vec::new(), pc)
            },
        }
    }

    fn second_pass(&mut self, program: &Program, source: &str, errors: &mut Vec<SemanticError>)
        ensures
            final(self).symbols == old(self).symbols,
            final(self).origin == old(self).origin,
            ({
                let init = Pass2State {
                    origin: old(self).origin,
                    code: Seq::empty(),
                    pc: old(self).origin,
                    in_segment: false,
                    segments: seg_views(old(self).segments@),
                    errors: err_views(old(errors)@),
                };
                let fin = spec_second_pass(old(self).symbols@, program.lines@, 0, init, source@);
                seg_views(final(self).segments@) == fin.segments && err_views(final(errors)@)
                    == fin.errors
            }),
    {
        let ghost syms = old(self).symbols@;
        let ghost lines = program.lines@;
        let ghost init = Pass2State {
            origin: old(self).origin,
            code: Seq::empty(),
            pc: old(self).origin,
            in_segment: false,
            segments: seg_views(old(self).segments@),
            errors: err_views(old(errors)@),
        };
        let ghost target = spec_second_pass(syms, lines, 0, init, source@);

        let mut current_origin: u16 = self.origin;
        let mut current_code: Vec<u16> = Vec::new();
        let mut pc: u16 = self.origin;
        let mut in_segment = false;

        proof {
            assert((Pass2State {
                origin: current_origin,
                code: current_code@,
                pc: pc,
                in_segment: in_segment,
                segments: seg_views(self.segments@),
                errors: err_views(errors@),
            }) =~= init);
        }

        let mut i: usize = 0;
        while i < program.lines.len()
            invariant
                i <= lines.len(),
                lines == program.lines@,
                syms == self.symbols@,
                self.symbols == old(self).symbols,
                self.origin == old(self).origin,
                spec_second_pass(
                    syms,
                    lines,
                    i as int,
                    Pass2State {
                        origin: current_origin,
                        code: current_code@,
                        pc: pc,
                        in_segment: in_segment,
                        segments: seg_views(self.segments@),
                        errors: err_views(errors@),
                    },
                    source@,
                ) == target,
            decreases lines.len() - i,
        {
            let ghost st = Pass2State {
                origin: current_origin,
                code: current_code@,
                pc: pc,
                in_segment: in_segment,
                segments: seg_views(self.segments@),
                errors: err_views(errors@),
            };
            let spanned_line = &program.lines[i];
            let span = spanned_line.span;
            match &spanned_line.line {
                Line::Label(_) => {},
                Line::LabeledDirective(_, dir) | Line::Directive(dir) => {
                    match dir {
                        Directive::Orig(addr) => {
                            if current_code.len() > 0 {
                                let code = current_code;
                                current_code = Vec::new();
                                let ghost old_views = seg_views(self.segments@);
                                self.segments.push(Segment { origin: current_origin, code });
                                proof {
                                    assert(seg_views(self.segments@) =~= old_views.push(
                                        SegmentModel { origin: current_origin, code: code@ },
                                    ));
                                }
                            }
                            proof {
                                assert(current_code@ =~= Seq::<u16>::empty());
                            }
                            current_origin = *addr;
                            pc = *addr;
                            in_segment = true;
                        },
                        Directive::End => {
                            if current_code.len() > 0 {
                                let code = current_code;
                                current_code = Vec::new();
                                let ghost old_views = seg_views(self.segments@);
                                self.segments.push(Segment { origin: current_origin, code });
                                proof {
                                    assert(seg_views(self.segments@) =~= old_views.push(
                                        SegmentModel { origin: current_origin, code: code@ },
                                    ));
                                }
                            }
                            proof {
                                assert(current_code@ =~= Seq::<u16>::empty());
                            }
                            in_segment = false;
                        },
                        _ => {
                            let (mut words, new_pc) = self.emit_directive(
                                dir,
                                pc,
                                source,
                                span,
                                errors,
                            );
                            current_code.append(&mut words);
                            pc = new_pc;
                        },
                    }
                },
                Line::LabeledInstruction(_, instr) | Line::Instruction(instr) => {
                    let w = self.emit_instruction(instr, pc, source, span, errors);
                    current_code.push(w);
                    pc = pc.wrapping_add(1);
                },
                Line::Empty => {},
                Line::Error => {},
            }
            proof {
                assert(spec_pass2_line(syms, st, lines[i as int], source@) =~= (Pass2State {
                    origin: current_origin,
                    code: current_code@,
                    pc: pc,
                    in_segment: in_segment,
                    segments: seg_views(self.segments@),
                    errors: err_views(errors@),
                }));
            }
            i = i + 1;
        }

        // Handle a file that does not end with .END.
        if in_segment && current_code.len() > 0 {
            let ghost old_views = seg_views(self.segments@);
            let ghost code_view = current_code@;
            let ghost o = current_origin;
            self.segments.push(Segment { origin: current_origin, code: current_code });
            proof {
                assert(seg_views(self.segments@) =~= old_views.push(
                    SegmentModel { origin: o, code: code_view },
                ));
            }
        }
    }

    /// Assemble an already-parsed program: both passes. On success the
    /// segments are returned; on failure the collected semantic errors.
    /// Either way the assembler keeps the symbol table, the first origin
    /// and the best-effort segments.
    pub fn assemble_program(&mut self, program: &Program, source: &str) -> (r: Result<Vec<Segment>, AssemblyError>)
        ensures
            final(self).symbols@ == spec_first_pass(program.lines@, 0, 0x3000, Seq::empty()),
            unique_names(final(self).symbols@),
            final(self).origin == spec_first_origin(program.lines@, 0, 0x3000),
            seg_views(final(self).segments@) == spec_assemble(program.lines@, source@).segments,
            match r {
                Ok(segs) => spec_assemble(program.lines@, source@).errors.len() == 0 && seg_views(
                    segs@,
                ) == spec_assemble(program.lines@, source@).segments,
                Err(AssemblyError::SemanticErrors(es)) => err_views(es@) == spec_assemble(
                    program.lines@,
                    source@,
                ).errors && es@.len() > 0,
                Err(AssemblyError::ParseErrors(_)) => false,
            },
    {
        self.symbols = Vec::new();
        self.origin = 0x3000;
        self.segments = Vec::new();
        self.first_pass(program);
        proof {
            lemma_first_pass_unique(program.lines@, 0, 0x3000, Seq::empty());
        }

        let mut errors: Vec<SemanticError> = Vec::new();
        self.second_pass(program, source, &mut errors);
        proof {
            assert((Pass2State {
                origin: spec_first_origin(program.lines@, 0, 0x3000),
                code: Seq::empty(),
                pc: spec_first_origin(program.lines@, 0, 0x3000),
                in_segment: false,
                segments: seg_views(Seq::<Segment>::empty()),
                errors: err_views(Seq::<SemanticError>::empty()),
            }) =~= spec_pass2_init(spec_first_origin(program.lines@, 0, 0x3000)));
            assert(seg_views(Seq::<Segment>::empty()) =~= Seq::<SegmentModel>::empty());
            assert(err_views(Seq::<SemanticError>::empty()) =~= Seq::<SemErrModel>::empty());
        }

        if errors.len() == 0 {
            proof {
                assert(err_views(errors@) =~= Seq::<SemErrModel>::empty());
                assert(spec_assemble(program.lines@, source@).errors.len() == 0);
            }
            let mut segs: Vec<Segment> = Vec::new();
            let mut k: usize = 0;
            while k < self.segments.len()
                invariant
                    k <= self.segments@.len(),
                    seg_views(segs@) == seg_views(self.segments@).subrange(0, k as int),
                decreases self.segments@.len() - k,
            {
                let seg = &self.segments[k];
                let ghost old_views = seg_views(segs@);
                segs.push(Segment { origin: seg.origin, code: copy_words(&seg.code) });
                proof {
                    assert(seg_views(segs@) =~= old_views.push(self.segments@[k as int]@));
                    assert(seg_views(segs@) =~= seg_views(self.segments@).subrange(0, k + 1));
                }
                k = k + 1;
            }
            proof {
                assert(seg_views(segs@) =~= seg_views(self.segments@));
            }
            Ok(segs)
        } else {
            Err(AssemblyError::SemanticErrors(errors))
        }
    }
}


// ============================================================================
// Error rendering and the source-level entry points.
// ============================================================================

/// One rendered error line: `line:column: message`, newline-terminated.
pub open spec fn spec_err_line(line: int, column: int, message: Seq<char>) -> Seq<char> {
    crate::text::spec_udec(line) + ":"@ + crate::text::spec_udec(column) + ": "@ + message + "\n"@
}

/// The rendering of a semantic error list, one line each.
pub open spec fn spec_sem_errors_string(es: Seq<SemErrModel>) -> Seq<char>
    decreases es.len(),
{
    if es.len() == 0 {
        Seq::empty()
    } else {
        spec_err_line(es[0].line, es[0].column, es[0].message) + spec_sem_errors_string(es.skip(1))
    }
}

/// The rendering of a parse error list, one line each.
pub open spec fn spec_parse_errors_string(es: Seq<crate::parser::ParseErrModel>) -> Seq<char>
    decreases es.len(),
{
    if es.len() == 0 {
        Seq::empty()
    } else {
        spec_err_line(es[0].line, es[0].column, es[0].message) + spec_parse_errors_string(
            es.skip(1),
        )
    }
}

/// Render an assembly error as one `line:column: message` line per error.
pub fn assembly_error_message(e: &AssemblyError) -> (r: String)
    ensures
        r@ == match e {
            AssemblyError::ParseErrors(es) => spec_parse_errors_string(
                es@.map_values(|x: crate::ast::ParseError| x@),
            ),
            AssemblyError::SemanticErrors(es) => spec_sem_errors_string(err_views(es@)),
        },
{
    let mut out = String::new();
    match e {
        AssemblyError::ParseErrors(es) => {
            let ghost models = es@.map_values(|x: crate::ast::ParseError| x@);
            let mut i: usize = 0;
            proof {
                assert(models.skip(0) =~= models);
            }
            while i < es.len()
                invariant
                    i <= es@.len(),
                    models == es@.map_values(|x: crate::ast::ParseError| x@),
                    out@ + spec_parse_errors_string(models.skip(i as int))
                        == spec_parse_errors_string(models),
                decreases es@.len() - i,
            {
                proof {
                    assert(models.skip(i as int)[0] == models[i as int]);
                    assert(models.skip(i as int).skip(1) =~= models.skip(i + 1));
                }
                let err = &es[i];
                crate::text::push_udec_usize(&mut out, err.line);
                out.push(':');
                crate::text::push_udec_usize(&mut out, err.column);
                out.append(": ");
                out.append(err.message.as_str());
                out.push('\n');
                proof {
                    assert(out@ + spec_parse_errors_string(models.skip(i + 1))
                        =~= spec_parse_errors_string(models)) by {
                        reveal_strlit(":");
                        reveal_strlit("\n");
                        assert(":"@ =~= seq![':']);
                        assert("\n"@ =~= seq!['\n']);
                        assert(spec_err_line(models[i as int].line, models[i as int].column,
                        models[i as int].message) =~= crate::text::spec_udec(models[i as int].line)
                            + ":"@ + crate::text::spec_udec(models[i as int].column) + ": "@
                            + models[i as int].message + "\n"@);
                    }
                }
                i = i + 1;
            }
            proof {
                assert(spec_parse_errors_string(models.skip(i as int)) =~= Seq::<char>::empty());
                assert(out@ =~= spec_parse_errors_string(models));
            }
        },
        AssemblyError::SemanticErrors(es) => {
            let ghost models = err_views(es@);
            let mut i: usize = 0;
            proof {
                assert(models.skip(0) =~= models);
            }
            while i < es.len()
                invariant
                    i <= es@.len(),
                    models == err_views(es@),
                    out@ + spec_sem_errors_string(models.skip(i as int)) == spec_sem_errors_string(
                        models,
                    ),
                decreases es@.len() - i,
            {
                proof {
                    assert(models.skip(i as int)[0] == models[i as int]);
                    assert(models.skip(i as int).skip(1) =~= models.skip(i + 1));
                }
                let err = &es[i];
                crate::text::push_udec_usize(&mut out, err.line);
                out.push(':');
                crate::text::push_udec_usize(&mut out, err.column);
                out.append(": ");
                out.append(err.message.as_str());
                out.push('\n');
                proof {
                    assert(out@ + spec_sem_errors_string(models.skip(i + 1))
                        =~= spec_sem_errors_string(models)) by {
                        reveal_strlit(":");
                        reveal_strlit("\n");
                        assert(":"@ =~= seq![':']);
                        assert("\n"@ =~= seq!['\n']);
                        assert(spec_err_line(models[i as int].line, models[i as int].column,
                        models[i as int].message) =~= crate::text::spec_udec(models[i as int].line)
                            + ":"@ + crate::text::spec_udec(models[i as int].column) + ": "@
                            + models[i as int].message + "\n"@);
                    }
                }
                i = i + 1;
            }
            proof {
                assert(spec_sem_errors_string(models.skip(i as int)) =~= Seq::<char>::empty());
                assert(out@ =~= spec_sem_errors_string(models));
            }
        },
    }
    out
}

impl Assembler {
    /// Assemble source code into machine code words, all segments
    /// concatenated; the segments themselves stay available through
    /// `segments`. Use `assemble_segments` for proper multi-segment
    /// handling. On failure the message is the rendered list of the
    /// parse errors or of the semantic errors that occurred.
    pub fn assemble(&mut self, source: &str) -> (r: Result<Vec<u16>, String>)
        ensures
            unique_names(final(self).symbols@),
            match r {
                Ok(code) => code@ == spec_concat_code(seg_views(final(self).segments@))
                    && crate::parser::spec_parse_errors(source@).len() == 0
                    && exists|lines: Seq<SpannedLine>|
                    #[trigger] crate::parser::program_matches(source@, lines) && ({
                        let st = spec_assemble(lines, source@);
                        &&& st.errors.len() == 0
                        &&& code@ == spec_concat_code(st.segments)
                        &&& seg_views(final(self).segments@) == st.segments
                    }),
                Err(m) => if crate::parser::spec_parse_errors(source@).len() > 0 {
                    m@ == spec_parse_errors_string(crate::parser::spec_parse_errors(source@))
                } else {
                    exists|lines: Seq<SpannedLine>|
                        #[trigger] crate::parser::program_matches(source@, lines) && ({
                            let st = spec_assemble(lines, source@);
                            &&& st.errors.len() > 0
                            &&& m@ == spec_sem_errors_string(st.errors)
                        })
                },
            },
    {
        match self.assemble_with_errors(source) {
            Ok(code) => Ok(code),
            Err(e) => {
                let m = assembly_error_message(&e);
                proof {
                    match &e {
                        AssemblyError::ParseErrors(es) => {
                            assert(es@.map_values(|x: crate::ast::ParseError| x@)
                                == crate::parser::perr_views(es@));
                            assert(m@ == spec_parse_errors_string(
                                crate::parser::spec_parse_errors(source@),
                            ));
                        },
                        AssemblyError::SemanticErrors(es) => {
                            let lines = choose|lines: Seq<SpannedLine>|
                                #[trigger] crate::parser::program_matches(source@, lines) && ({
                                    let st = spec_assemble(lines, source@);
                                    &&& err_views(es@) == st.errors
                                    &&& st.errors.len() > 0
                                    &&& seg_views(self.segments@) == st.segments
                                    &&& self.symbols@ == spec_first_pass(
                                        lines,
                                        0,
                                        0x3000,
                                        Seq::empty(),
                                    )
                                    &&& self.origin == spec_first_origin(lines, 0, 0x3000)
                                });
                            assert(crate::parser::program_matches(source@, lines) && ({
                                let st = spec_assemble(lines, source@);
                                &&& st.errors.len() > 0
                                &&& m@ == spec_sem_errors_string(st.errors)
                            }));
                        },
                    }
                }
                Err(m)
            },
        }
    }

    /// Assemble with detailed error information; the returned words are
    /// all segments concatenated. Parse errors come exactly on syntax
    /// errors, semantic errors exactly when pass 2 raised any, and the
    /// returned code is exactly the two-pass model's segments of the
    /// parsed program, concatenated.
    pub fn assemble_with_errors(&mut self, source: &str) -> (r: Result<Vec<u16>, AssemblyError>)
        ensures
            unique_names(final(self).symbols@),
            (r matches Err(AssemblyError::ParseErrors(_))) <==> crate::parser::spec_parse_errors(
                source@,
            ).len() > 0,
            match r {
                Ok(code) => code@ == spec_concat_code(seg_views(final(self).segments@))
                    && exists|lines: Seq<SpannedLine>|
                    #[trigger] crate::parser::program_matches(source@, lines) && ({
                        let st = spec_assemble(lines, source@);
                        &&& st.errors.len() == 0
                        &&& code@ == spec_concat_code(st.segments)
                        &&& seg_views(final(self).segments@) == st.segments
                        &&& final(self).symbols@ == spec_first_pass(lines, 0, 0x3000, Seq::empty())
                        &&& final(self).origin == spec_first_origin(lines, 0, 0x3000)
                    }),
                Err(AssemblyError::ParseErrors(es)) => crate::parser::perr_views(es@)
                    == crate::parser::spec_parse_errors(source@) && es@.len() > 0
                    && final(self).symbols@ =~= Seq::<(String, u16)>::empty()
                    && final(self).origin == 0x3000 && final(self).segments@.len() == 0,
                Err(AssemblyError::SemanticErrors(es)) => es@.len() > 0
                    && exists|lines: Seq<SpannedLine>|
                    #[trigger] crate::parser::program_matches(source@, lines) && ({
                        let st = spec_assemble(lines, source@);
                        &&& err_views(es@) == st.errors
                        &&& st.errors.len() > 0
                        &&& seg_views(final(self).segments@) == st.segments
                        &&& final(self).symbols@ == spec_first_pass(lines, 0, 0x3000, Seq::empty())
                        &&& final(self).origin == spec_first_origin(lines, 0, 0x3000)
                    }),
            },
    {
        match self.assemble_segments(source) {
            Ok(seg_list) => {
                let mut code: Vec<u16> = Vec::new();
                let ghost views = seg_views(self.segments@);
                proof {
                    assert(views.skip(0) =~= views);
                }
                let mut i: usize = 0;
                while i < self.segments.len()
                    invariant
                        i <= self.segments@.len(),
                        views == seg_views(self.segments@),
                        code@ + spec_concat_code(views.skip(i as int)) == spec_concat_code(views),
                    decreases self.segments@.len() - i,
                {
                    proof {
                        assert(views.skip(i as int)[0] == views[i as int]);
                        assert(views.skip(i as int).skip(1) =~= views.skip(i + 1));
                    }
                    let seg = &self.segments[i];
                    let mut j: usize = 0;
                    while j < seg.code.len()
                        invariant
                            j <= seg.code@.len(),
                            i < self.segments@.len(),
                            seg == &self.segments@[i as int],
                            views == seg_views(self.segments@),
                            code@ + seg.code@.skip(j as int) + spec_concat_code(views.skip(i + 1))
                                == spec_concat_code(views),
                        decreases seg.code@.len() - j,
                    {
                        code.push(seg.code[j]);
                        proof {
                            assert(seg.code@.skip(j as int)[0] == seg.code@[j as int]);
                            assert(seg.code@.skip(j as int).skip(1) =~= seg.code@.skip(j + 1));
                            assert(code@ + seg.code@.skip(j + 1) =~= (code@.drop_last()
                                + seg.code@.skip(j as int)));
                        }
                        j = j + 1;
                    }
                    proof {
                        assert(seg.code@.skip(j as int) =~= Seq::<u16>::empty());
                        assert(code@ + spec_concat_code(views.skip(i + 1)) =~= code@
                            + seg.code@.skip(j as int) + spec_concat_code(views.skip(i + 1)));
                    }
                    i = i + 1;
                }
                proof {
                    assert(spec_concat_code(views.skip(i as int)) =~= Seq::<u16>::empty());
                    assert(code@ =~= spec_concat_code(views));
                    let lines = choose|lines: Seq<SpannedLine>|
                        #[trigger] crate::parser::program_matches(source@, lines) && ({
                            let st = spec_assemble(lines, source@);
                            &&& st.errors.len() == 0
                            &&& seg_views(seg_list@) == st.segments
                            &&& self.symbols@ == spec_first_pass(lines, 0, 0x3000, Seq::empty())
                            &&& self.origin == spec_first_origin(lines, 0, 0x3000)
                        });
                    assert(crate::parser::program_matches(source@, lines) && ({
                        let st = spec_assemble(lines, source@);
                        &&& st.errors.len() == 0
                        &&& code@ == spec_concat_code(st.segments)
                        &&& seg_views(self.segments@) == st.segments
                        &&& self.symbols@ == spec_first_pass(lines, 0, 0x3000, Seq::empty())
                        &&& self.origin == spec_first_origin(lines, 0, 0x3000)
                    }));
                }
                Ok(code)
            },
            Err(e) => Err(e),
        }
    }

    /// Assemble and return separate segments with their origins. Parse
    /// errors are returned exactly when the source has syntax errors;
    /// otherwise, for the program the source parses to, semantic errors
    /// are returned exactly when pass 2 raised any, and on success the
    /// segments are exactly those of the two-pass model.
    pub fn assemble_segments(&mut self, source: &str) -> (r: Result<Vec<Segment>, AssemblyError>)
        ensures
            unique_names(final(self).symbols@),
            (r matches Err(AssemblyError::ParseErrors(_))) <==> crate::parser::spec_parse_errors(
                source@,
            ).len() > 0,
            match r {
                Ok(segs) => seg_views(segs@) == seg_views(final(self).segments@)
                    && exists|lines: Seq<SpannedLine>|
                    #[trigger] crate::parser::program_matches(source@, lines) && ({
                        let st = spec_assemble(lines, source@);
                        &&& st.errors.len() == 0
                        &&& seg_views(segs@) == st.segments
                        &&& final(self).symbols@ == spec_first_pass(lines, 0, 0x3000, Seq::empty())
                        &&& final(self).origin == spec_first_origin(lines, 0, 0x3000)
                    }),
                Err(AssemblyError::ParseErrors(es)) => crate::parser::perr_views(es@)
                    == crate::parser::spec_parse_errors(source@) && es@.len() > 0
                    && final(self).symbols@ =~= Seq::<(String, u16)>::empty()
                    && final(self).origin == 0x3000 && final(self).segments@.len() == 0,
                Err(AssemblyError::SemanticErrors(es)) => es@.len() > 0
                    && exists|lines: Seq<SpannedLine>|
                    #[trigger] crate::parser::program_matches(source@, lines) && ({
                        let st = spec_assemble(lines, source@);
                        &&& err_views(es@) == st.errors
                        &&& st.errors.len() > 0
                        &&& seg_views(final(self).segments@) == st.segments
                        &&& final(self).symbols@ == spec_first_pass(lines, 0, 0x3000, Seq::empty())
                        &&& final(self).origin == spec_first_origin(lines, 0, 0x3000)
                    }),
            },
    {
        self.symbols = Vec::new();
        self.origin = 0x3000;
        self.segments = Vec::new();
        match crate::parser::parse(source) {
            Err(errors) => {
                proof {
                    assert(unique_names(self.symbols@));
                }
                Err(AssemblyError::ParseErrors(errors))
            },
            Ok(program) => {
                let ghost lines = program.lines@;
                proof {
                    assert(crate::parser::program_matches(source@, lines));
                }
                match self.assemble_program(&program, source) {
                    Ok(segs) => Ok(segs),
                    Err(e) => {
                        proof {
                            lemma_first_pass_unique(program.lines@, 0, 0x3000, Seq::empty());
                        }
                        match &e {
                            AssemblyError::SemanticErrors(es) => {
                                assert(es@.len() > 0);
                            },
                            AssemblyError::ParseErrors(_) => {
                                assert(false);
                            },
                        }
                        Err(e)
                    },
                }
            },
        }
    }

    /// Assemble source and return object-format bytes: exactly the
    /// object-format encoding of the segments `assemble_segments` yields,
    /// with the same error behaviour.
    pub fn assemble_to_lc3tools(&mut self, source: &str) -> (r: Result<Vec<u8>, AssemblyError>)
        ensures
            unique_names(final(self).symbols@),
            (r matches Err(AssemblyError::ParseErrors(_))) <==> crate::parser::spec_parse_errors(
                source@,
            ).len() > 0,
            match r {
                Ok(bytes) => bytes@ == crate::lc3tools_format::spec_encode(
                    seg_views(final(self).segments@),
                ) && exists|lines: Seq<SpannedLine>|
                    #[trigger] crate::parser::program_matches(source@, lines) && ({
                        let st = spec_assemble(lines, source@);
                        &&& st.errors.len() == 0
                        &&& bytes@ == crate::lc3tools_format::spec_encode(st.segments)
                        &&& seg_views(final(self).segments@) == st.segments
                        &&& final(self).symbols@ == spec_first_pass(lines, 0, 0x3000, Seq::empty())
                        &&& final(self).origin == spec_first_origin(lines, 0, 0x3000)
                    }),
                Err(AssemblyError::ParseErrors(es)) => crate::parser::perr_views(es@)
                    == crate::parser::spec_parse_errors(source@) && es@.len() > 0
                    && final(self).symbols@ =~= Seq::<(String, u16)>::empty()
                    && final(self).origin == 0x3000 && final(self).segments@.len() == 0,
                Err(AssemblyError::SemanticErrors(es)) => es@.len() > 0
                    && exists|lines: Seq<SpannedLine>|
                    #[trigger] crate::parser::program_matches(source@, lines) && ({
                        let st = spec_assemble(lines, source@);
                        &&& err_views(es@) == st.errors
                        &&& st.errors.len() > 0
                        &&& seg_views(final(self).segments@) == st.segments
                        &&& final(self).symbols@ == spec_first_pass(lines, 0, 0x3000, Seq::empty())
                        &&& final(self).origin == spec_first_origin(lines, 0, 0x3000)
                    }),
            },
    {
        match self.assemble_segments(source) {
            Ok(segments) => {
                let bytes = crate::lc3tools_format::encode(segments.as_slice());
                proof {
                    let lines = choose|lines: Seq<SpannedLine>|
                        #[trigger] crate::parser::program_matches(source@, lines) && ({
                            let st = spec_assemble(lines, source@);
                            &&& st.errors.len() == 0
                            &&& seg_views(segments@) == st.segments
                            &&& self.symbols@ == spec_first_pass(lines, 0, 0x3000, Seq::empty())
                            &&& self.origin == spec_first_origin(lines, 0, 0x3000)
                        });
                    assert(crate::parser::program_matches(source@, lines) && ({
                        let st = spec_assemble(lines, source@);
                        &&& st.errors.len() == 0
                        &&& bytes@ == crate::lc3tools_format::spec_encode(st.segments)
                        &&& seg_views(self.segments@) == st.segments
                        &&& self.symbols@ == spec_first_pass(lines, 0, 0x3000, Seq::empty())
                        &&& self.origin == spec_first_origin(lines, 0, 0x3000)
                    }));
                }
                Ok(bytes)
            },
            Err(e) => Err(e),
        }
    }
}


// ============================================================================
// The encoding decodes back: mnemonic and operands survive assembly.
// ============================================================================

/// An instruction whose register fields are all in 0..=7, as the parser
/// produces them.
pub open spec fn wf_instr_regs(instr: Instruction) -> bool {
    match instr {
        Instruction::Add { dr, sr1, src2 } => dr.0 < 8 && sr1.0 < 8 && (match src2 {
            AddSrc2::Register(r) => r.0 < 8,
            AddSrc2::Immediate(_) => true,
        }),
        Instruction::And { dr, sr1, src2 } => dr.0 < 8 && sr1.0 < 8 && (match src2 {
            AndSrc2::Register(r) => r.0 < 8,
            AndSrc2::Immediate(_) => true,
        }),
        Instruction::Not { dr, sr } => dr.0 < 8 && sr.0 < 8,
        Instruction::Jmp { base } => base.0 < 8,
        Instruction::Jsrr { base } => base.0 < 8,
        Instruction::Ld { dr, .. } => dr.0 < 8,
        Instruction::Ldi { dr, .. } => dr.0 < 8,
        Instruction::Ldr { dr, base, .. } => dr.0 < 8 && base.0 < 8,
        Instruction::Lea { dr, .. } => dr.0 < 8,
        Instruction::St { sr, .. } => sr.0 < 8,
        Instruction::Sti { sr, .. } => sr.0 < 8,
        Instruction::Str { sr, base, .. } => sr.0 < 8 && base.0 < 8,
        _ => true,
    }
}

proof fn lemma_alu_reg_fields(op: u16, d: u8, s1: u8, s2: u8)
    requires
        op < 16,
        d < 8,
        s1 < 8,
        s2 < 8,
    ensures
        ({
            let w = (op << 12) | ((d as u16) << 9) | ((s1 as u16) << 6) | (s2 as u16);
            &&& (w >> 12) & 0xF == op
            &&& (w >> 9) & 0x7 == d
            &&& (w >> 6) & 0x7 == s1
            &&& w & 0x20 == 0
            &&& w & 0x7 == s2
        }),
{
    assert({
        let w = (op << 12) | ((d as u16) << 9) | ((s1 as u16) << 6) | (s2 as u16);
        &&& (w >> 12) & 0xF == op
        &&& (w >> 9) & 0x7 == d
        &&& (w >> 6) & 0x7 == s1
        &&& w & 0x20 == 0
        &&& w & 0x7 == s2
    }) by (bit_vector)
        requires
            op < 16 && d < 8 && s1 < 8 && s2 < 8,
    ;
}

proof fn lemma_alu_imm_fields(op: u16, d: u8, s1: u8, imm: i8)
    requires
        op < 16,
        d < 8,
        s1 < 8,
    ensures
        ({
            let w = (op << 12) | ((d as u16) << 9) | ((s1 as u16) << 6) | (1u16 << 5) | ((
            imm as u16) & 0x1F);
            &&& (w >> 12) & 0xF == op
            &&& (w >> 9) & 0x7 == d
            &&& (w >> 6) & 0x7 == s1
            &&& w & 0x20 != 0
            &&& (-16 <= imm <= 15 ==> crate::isa::field_signed(w & 0x1F, 5) == imm as int)
        }),
{
    assert({
        let w = (op << 12) | ((d as u16) << 9) | ((s1 as u16) << 6) | (1u16 << 5) | ((imm as u16)
            & 0x1F);
        &&& (w >> 12) & 0xF == op
        &&& (w >> 9) & 0x7 == d
        &&& (w >> 6) & 0x7 == s1
        &&& w & 0x20 != 0
        &&& (-16 <= imm <= 15 ==> crate::isa::field_signed(w & 0x1F, 5) == imm as int)
    }) by (bit_vector)
        requires
            op < 16 && d < 8 && s1 < 8,
    ;
}

proof fn lemma_pc_offset_fields(op: u16, d: u8, o: i16)
    requires
        op < 16,
        d < 8,
    ensures
        ({
            let w = (op << 12) | ((d as u16) << 9) | ((o as u16) & 0x1FF);
            &&& (w >> 12) & 0xF == op
            &&& (w >> 9) & 0x7 == d
            &&& (-256 <= o <= 255 ==> crate::isa::field_signed(w & 0x1FF, 9) == o as int)
        }),
{
    assert({
        let w = (op << 12) | ((d as u16) << 9) | ((o as u16) & 0x1FF);
        &&& (w >> 12) & 0xF == op
        &&& (w >> 9) & 0x7 == d
        &&& (-256 <= o <= 255 ==> crate::isa::field_signed(w & 0x1FF, 9) == o as int)
    }) by (bit_vector)
        requires
            op < 16 && d < 8,
    ;
}

proof fn lemma_base_offset_fields(op: u16, d: u8, b: u8, o: i8)
    requires
        op < 16,
        d < 8,
        b < 8,
    ensures
        ({
            let w = (op << 12) | ((d as u16) << 9) | ((b as u16) << 6) | ((o as u16) & 0x3F);
            &&& (w >> 12) & 0xF == op
            &&& (w >> 9) & 0x7 == d
            &&& (w >> 6) & 0x7 == b
            &&& (-32 <= o <= 31 ==> crate::isa::field_signed(w & 0x3F, 6) == o as int)
        }),
{
    assert({
        let w = (op << 12) | ((d as u16) << 9) | ((b as u16) << 6) | ((o as u16) & 0x3F);
        &&& (w >> 12) & 0xF == op
        &&& (w >> 9) & 0x7 == d
        &&& (w >> 6) & 0x7 == b
        &&& (-32 <= o <= 31 ==> crate::isa::field_signed(w & 0x3F, 6) == o as int)
    }) by (bit_vector)
        requires
            op < 16 && d < 8 && b < 8,
    ;
}

/// The word pass 2 encodes for an instruction decodes back to the same
/// mnemonic and operand values: the opcode nibble selects the mnemonic,
/// register fields read back exactly, and every in-range immediate or
/// resolved offset reads back through sign extension of its truncated
/// field (offsets that were out of range were already diagnosed).
pub proof fn lemma_instruction_word_decodes(
    instr: Instruction,
    syms: Seq<(String, u16)>,
    pc: u16,
    source: Seq<char>,
    span: Span,
)
    requires
        wf_instr_regs(instr),
    ensures
        ({
            let w = spec_emit_instruction(syms, instr, pc, source, span).0;
            match instr {
                Instruction::Add { dr, sr1, src2 } => (w >> 12) & 0xF == 0b0001 && (w >> 9) & 0x7
                    == dr.0 && (w >> 6) & 0x7 == sr1.0 && (match src2 {
                    AddSrc2::Register(r) => w & 0x20 == 0 && w & 0x7 == r.0,
                    AddSrc2::Immediate(imm) => w & 0x20 != 0 && (-16 <= imm <= 15
                        ==> crate::isa::field_signed(w & 0x1F, 5) == imm as int),
                }),
                Instruction::And { dr, sr1, src2 } => (w >> 12) & 0xF == 0b0101 && (w >> 9) & 0x7
                    == dr.0 && (w >> 6) & 0x7 == sr1.0 && (match src2 {
                    AndSrc2::Register(r) => w & 0x20 == 0 && w & 0x7 == r.0,
                    AndSrc2::Immediate(imm) => w & 0x20 != 0 && (-16 <= imm <= 15
                        ==> crate::isa::field_signed(w & 0x1F, 5) == imm as int),
                }),
                Instruction::Not { dr, sr } => (w >> 12) & 0xF == 0b1001 && (w >> 9) & 0x7 == dr.0
                    && (w >> 6) & 0x7 == sr.0,
                Instruction::Br { n, z, p, label } => {
                    let o = spec_resolve_label(syms, label, pc, source).0;
                    &&& (w >> 12) & 0xF == 0b0000
                    &&& ((w >> 11) & 1 != 0) == n
                    &&& ((w >> 10) & 1 != 0) == z
                    &&& ((w >> 9) & 1 != 0) == p
                    &&& (-256 <= o <= 255 ==> crate::isa::field_signed(w & 0x1FF, 9) == o as int)
                },
                Instruction::Jmp { base } => (w >> 12) & 0xF == 0b1100 && (w >> 6) & 0x7 == base.0,
                Instruction::Ret => w == 0xC1C0,
                Instruction::Jsr { label } => {
                    let o = spec_resolve_label(syms, label, pc, source).0;
                    &&& (w >> 12) & 0xF == 0b0100
                    &&& w & 0x800 != 0
                    &&& (-1024 <= o <= 1023 ==> crate::isa::field_signed(w & 0x7FF, 11) == o as int)
                },
                Instruction::Jsrr { base } => (w >> 12) & 0xF == 0b0100 && w & 0x800 == 0 && (w
                    >> 6) & 0x7 == base.0,
                Instruction::Ld { dr, label } => {
                    let o = spec_resolve_label(syms, label, pc, source).0;
                    (w >> 12) & 0xF == 0b0010 && (w >> 9) & 0x7 == dr.0 && (-256 <= o <= 255
                        ==> crate::isa::field_signed(w & 0x1FF, 9) == o as int)
                },
                Instruction::Ldi { dr, label } => {
                    let o = spec_resolve_label(syms, label, pc, source).0;
                    (w >> 12) & 0xF == 0b1010 && (w >> 9) & 0x7 == dr.0 && (-256 <= o <= 255
                        ==> crate::isa::field_signed(w & 0x1FF, 9) == o as int)
                },
                Instruction::Ldr { dr, base, offset } => (w >> 12) & 0xF == 0b0110 && (w >> 9)
                    & 0x7 == dr.0 && (w >> 6) & 0x7 == base.0 && (-32 <= offset <= 31
                    ==> crate::isa::field_signed(w & 0x3F, 6) == offset as int),
                Instruction::Lea { dr, label } => {
                    let o = spec_resolve_label(syms, label, pc, source).0;
                    (w >> 12) & 0xF == 0b1110 && (w >> 9) & 0x7 == dr.0 && (-256 <= o <= 255
                        ==> crate::isa::field_signed(w & 0x1FF, 9) == o as int)
                },
                Instruction::St { sr, label } => {
                    let o = spec_resolve_label(syms, label, pc, source).0;
                    (w >> 12) & 0xF == 0b0011 && (w >> 9) & 0x7 == sr.0 && (-256 <= o <= 255
                        ==> crate::isa::field_signed(w & 0x1FF, 9) == o as int)
                },
                Instruction::Sti { sr, label } => {
                    let o = spec_resolve_label(syms, label, pc, source).0;
                    (w >> 12) & 0xF == 0b1011 && (w >> 9) & 0x7 == sr.0 && (-256 <= o <= 255
                        ==> crate::isa::field_signed(w & 0x1FF, 9) == o as int)
                },
                Instruction::Str { sr, base, offset } => (w >> 12) & 0xF == 0b0111 && (w >> 9)
                    & 0x7 == sr.0 && (w >> 6) & 0x7 == base.0 && (-32 <= offset <= 31
                    ==> crate::isa::field_signed(w & 0x3F, 6) == offset as int),
                Instruction::Trap { trapvect } => (w >> 12) & 0xF == 0b1111 && w & 0xFF == trapvect
                    && (w >> 8) & 0xF == 0,
                Instruction::Getc => w == 0xF020,
                Instruction::Out => w == 0xF021,
                Instruction::Puts => w == 0xF022,
                Instruction::In => w == 0xF023,
                Instruction::Putsp => w == 0xF024,
                Instruction::Halt => w == 0xF025,
                Instruction::Rti => w == 0x8000,
            }
        }),
{
    match instr {
        Instruction::Add { dr, sr1, src2 } => {
            match src2 {
                AddSrc2::Register(r) => {
                    lemma_alu_reg_fields(0b0001, dr.0, sr1.0, r.0);
                },
                AddSrc2::Immediate(imm) => {
                    lemma_alu_imm_fields(0b0001, dr.0, sr1.0, imm);
                },
            }
        },
        Instruction::And { dr, sr1, src2 } => {
            match src2 {
                AndSrc2::Register(r) => {
                    lemma_alu_reg_fields(0b0101, dr.0, sr1.0, r.0);
                },
                AndSrc2::Immediate(imm) => {
                    lemma_alu_imm_fields(0b0101, dr.0, sr1.0, imm);
                },
            }
        },
        Instruction::Not { dr, sr } => {
            let d = dr.0;
            let sv = sr.0;
            let w = spec_emit_instruction(syms, instr, pc, source, span).0;
            assert((w >> 12) & 0xF == 0b1001 && (w >> 9) & 0x7 == d && (w >> 6) & 0x7 == sv)
                by (bit_vector)
                requires
                    w == (0b1001u16 << 12) | ((d as u16) << 9) | ((sv as u16) << 6) | 0x3F && d < 8
                        && sv < 8,
            ;
        },
        Instruction::Br { n, z, p, label } => {
            let o = spec_resolve_label(syms, label, pc, source).0;
            let nb: u16 = if n { 1 } else { 0 };
            let zb: u16 = if z { 1 } else { 0 };
            let pb: u16 = if p { 1 } else { 0 };
            let w = spec_emit_instruction(syms, instr, pc, source, span).0;
            assert((w >> 12) & 0xF == 0b0000 && (w >> 11) & 1 == nb && (w >> 10) & 1 == zb && (w
                >> 9) & 1 == pb && (-256 <= o <= 255 ==> crate::isa::field_signed(w & 0x1FF, 9)
                == o as int)) by (bit_vector)
                requires
                    w == (nb << 11) | (zb << 10) | (pb << 9) | ((o as u16) & 0x1FF) && nb <= 1
                        && zb <= 1 && pb <= 1,
            ;
        },
        Instruction::Jmp { base } => {
            let b = base.0;
            let w = spec_emit_instruction(syms, instr, pc, source, span).0;
            assert((w >> 12) & 0xF == 0b1100 && (w >> 6) & 0x7 == b) by (bit_vector)
                requires
                    w == (0b1100u16 << 12) | ((b as u16) << 6) && b < 8,
            ;
        },
        Instruction::Ret => {
        },
        Instruction::Jsr { label } => {
            let o = spec_resolve_label(syms, label, pc, source).0;
            let w = spec_emit_instruction(syms, instr, pc, source, span).0;
            assert((w >> 12) & 0xF == 0b0100 && w & 0x800 != 0 && (-1024 <= o <= 1023
                ==> crate::isa::field_signed(w & 0x7FF, 11) == o as int)) by (bit_vector)
                requires
                    w == (0b0100u16 << 12) | (1u16 << 11) | ((o as u16) & 0x7FF),
            ;
        },
        Instruction::Jsrr { base } => {
            let b = base.0;
            let w = spec_emit_instruction(syms, instr, pc, source, span).0;
            assert((w >> 12) & 0xF == 0b0100 && w & 0x800 == 0 && (w >> 6) & 0x7 == b)
                by (bit_vector)
                requires
                    w == (0b0100u16 << 12) | ((b as u16) << 6) && b < 8,
            ;
        },
        Instruction::Ld { dr, label } => {
            lemma_pc_offset_fields(0b0010, dr.0, spec_resolve_label(syms, label, pc, source).0);
        },
        Instruction::Ldi { dr, label } => {
            lemma_pc_offset_fields(0b1010, dr.0, spec_resolve_label(syms, label, pc, source).0);
        },
        Instruction::Ldr { dr, base, offset } => {
            lemma_base_offset_fields(0b0110, dr.0, base.0, offset);
        },
        Instruction::Lea { dr, label } => {
            lemma_pc_offset_fields(0b1110, dr.0, spec_resolve_label(syms, label, pc, source).0);
        },
        Instruction::St { sr, label } => {
            lemma_pc_offset_fields(0b0011, sr.0, spec_resolve_label(syms, label, pc, source).0);
        },
        Instruction::Sti { sr, label } => {
            lemma_pc_offset_fields(0b1011, sr.0, spec_resolve_label(syms, label, pc, source).0);
        },
        Instruction::Str { sr, base, offset } => {
            lemma_base_offset_fields(0b0111, sr.0, base.0, offset);
        },
        Instruction::Trap { trapvect } => {
            let w = spec_emit_instruction(syms, instr, pc, source, span).0;
            assert((w >> 12) & 0xF == 0b1111 && w & 0xFF == trapvect && (w >> 8) & 0xF == 0)
                by (bit_vector)
                requires
                    w == 0xF000u16 | (trapvect as u16),
            ;
        },
        _ => {
        },
    }
}

} // verus!
