//! The data model of LC-3 assembly source: spans, operands, directives,
//! instructions, lines and whole programs, as the parser produces them and
//! the assembler and analyzer consume them.

use vstd::prelude::*;

verus! {

/// A source span: the half-open range `[start, end)` of character offsets
/// over the source string.
#[derive(Debug, Clone, Copy, PartialEq, Eq, Structural)]
pub struct Span {
    pub start: usize,
    pub end: usize,
}

impl Span {
    /// The span `[start, end)`.
    pub fn new(start: usize, end: usize) -> (r: Span)
        ensures
            r == (Span { start, end }),
    {
        Span { start, end }
    }

    /// Whether `offset` lies inside the span.
    pub fn contains(&self, offset: usize) -> (r: bool)
        ensures
            r == (self.start <= offset < self.end),
    {
        self.start <= offset && offset < self.end
    }
}

/// A value with its source location.
#[derive(Debug, Clone, PartialEq, Eq)]
pub struct Spanned<T> {
    pub value: T,
    pub span: Span,
}

impl<T> Spanned<T> {
    /// Wrap a value with its source location.
    pub fn new(value: T, span: Span) -> (r: Self)
        ensures
            r.value == value,
            r.span == span,
    {
        Spanned { value, span }
    }
}

/// A register R0-R7.
#[derive(Debug, Clone, Copy, PartialEq, Eq, Structural)]
pub struct Register(pub u8);

/// An operand in an instruction or directive.
#[derive(Debug, Clone, PartialEq, Eq)]
pub enum Operand {
    Register(Register),
    Immediate(i16),
    Label(Spanned<String>),
    String(String),
}

/// Assembly directives.
#[derive(Debug, Clone, PartialEq, Eq)]
pub enum Directive {
    Orig(u16),
    Fill(Operand),
    Blkw(u16),
    Stringz(String),
    End,
}

/// Second operand for ADD (register or 5-bit immediate).
#[derive(Debug, Clone, PartialEq, Eq)]
pub enum AddSrc2 {
    Register(Register),
    Immediate(i8),
}

/// Second operand for AND (register or 5-bit immediate).
#[derive(Debug, Clone, PartialEq, Eq)]
pub enum AndSrc2 {
    Register(Register),
    Immediate(i8),
}

/// LC-3 instructions, one variant per mnemonic.
#[derive(Debug, Clone, PartialEq, Eq)]
pub enum Instruction {
    Add { dr: Register, sr1: Register, src2: AddSrc2 },
    And { dr: Register, sr1: Register, src2: AndSrc2 },
    Not { dr: Register, sr: Register },
    Br { n: bool, z: bool, p: bool, label: Spanned<String> },
    Jmp { base: Register },
    Ret,
    Jsr { label: Spanned<String> },
    Jsrr { base: Register },
    Ld { dr: Register, label: Spanned<String> },
    Ldi { dr: Register, label: Spanned<String> },
    Ldr { dr: Register, base: Register, offset: i8 },
    Lea { dr: Register, label: Spanned<String> },
    St { sr: Register, label: Spanned<String> },
    Sti { sr: Register, label: Spanned<String> },
    Str { sr: Register, base: Register, offset: i8 },
    Trap { trapvect: u8 },
    Getc,
    Out,
    Puts,
    In,
    Putsp,
    Halt,
    Rti,
}

/// A parsed line of assembly.
#[derive(Debug, Clone, PartialEq, Eq)]
pub enum Line {
    Label(Spanned<String>),
    LabeledDirective(Spanned<String>, Directive),
    LabeledInstruction(Spanned<String>, Instruction),
    Directive(Directive),
    Instruction(Instruction),
    Empty,
    Error,
}

/// A parsed line with its source span.
#[derive(Debug, Clone, PartialEq, Eq)]
pub struct SpannedLine {
    pub line: Line,
    pub span: Span,
}

/// A complete parsed program.
#[derive(Debug, Clone)]
pub struct Program {
    pub lines: Vec<SpannedLine>,
}

/// A parse error with location information.
#[derive(Debug, Clone, PartialEq, Eq)]
pub struct ParseError {
    pub message: String,
    pub line: usize,
    pub column: usize,
    pub span: Span,
}

} // verus!
