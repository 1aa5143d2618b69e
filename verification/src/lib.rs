//! An LC-3 (Little Computer 3) toolchain: a two-pass assembler, a virtual
//! machine with memory-mapped I/O and an optional supervisor-mode trap
//! protocol, a line-oriented parser with error recovery, a semantic analyzer
//! for editor integration, a disassembler, and a segmented object-file format.

pub mod analysis;
pub mod assembler;
pub mod ast;
pub mod disasm;
pub mod isa;
pub mod lc3tools_format;
pub mod loader;
pub mod mmio;
pub mod parser;
pub mod text;
pub mod vm;

pub use assembler::{Assembler, AssemblyError, Segment, SemanticError, assembly_error_message};
pub use ast::{
    AddSrc2, AndSrc2, Directive, Instruction, Line, Operand, ParseError, Program, Register, Span,
    Spanned, SpannedLine,
};
pub use disasm::{SymbolTable, disassemble, disassemble_simple, is_likely_instruction};
pub use isa::sign_extend;
pub use loader::load_obj_file;
pub use parser::parse;
pub use vm::{LC3, VMError, VMEvent};
