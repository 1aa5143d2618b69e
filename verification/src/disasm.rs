//! LC-3 disassembler: converts 16-bit machine words to human-readable
//! assembly, with optional label resolution for PC-relative operands. The
//! rendered text of every word is pinned by [`spec_disassemble`].

use std::collections::HashMap;

use vstd::prelude::*;

use crate::isa::field_signed;
use crate::text::push_hex2;
use crate::text::push_hex4;
use crate::text::push_idec16;
use crate::text::push_udec16;
use crate::text::spec_hex2;
use crate::text::spec_hex4;
use crate::text::spec_idec;
use crate::text::spec_udec;

verus! {

broadcast use crate::isa::lemma_field_bounds, vstd::std_specs::hash::group_hash_axioms;

/// Symbol table type - maps an address to a label name.
pub type SymbolTable = HashMap<u16, String>;

/// Sign-extend a value from `bits` width to a signed 16-bit value.
fn sign_extend(val: u16, bits: u8) -> (r: i16)
    requires
        1 <= bits < 16,
        val < (1u16 << bits as u16),
    ensures
        r as int == field_signed(val, bits),
{
    let mask = 1u16 << ((bits - 1) as u16);
    let r: i16 = if val & mask != 0 {
        (val | (!0u16 << bits as u16)) as i16
    } else {
        val as i16
    };
    proof {
        assert({
            let r2: i16 = if val & (1u16 << ((bits - 1) as u16)) != 0 {
                (val | (!0u16 << bits as u16)) as i16
            } else {
                val as i16
            };
            r2 as int == (if val < (1u16 << ((bits - 1) as u16)) {
                val as int
            } else {
                val - (1u16 << bits as u16)
            })
        }) by (bit_vector)
            requires
                1 <= bits < 16 && val < (1u16 << bits as u16),
        ;
    }
    r
}

/// The rendering of a PC-relative target: the label of the target address
/// when the symbol table has one, else the target in hexadecimal.
pub open spec fn spec_pc_target(
    pc: u16,
    offset: u16,
    bits: u8,
    symbols: Option<Map<u16, String>>,
) -> Seq<char>
    recommends
        1 <= bits < 16,
        offset < (1u16 << bits as u16),
{
    let target = pc.wrapping_add_signed(field_signed(offset, bits) as i16);
    match symbols {
        Some(m) => if m.contains_key(target) {
            m[target]@
        } else {
            "x"@ + spec_hex4(target)
        },
        None => "x"@ + spec_hex4(target),
    }
}

/// The view of an optional symbol table.
pub open spec fn symbols_view(symbols: Option<&SymbolTable>) -> Option<Map<u16, String>> {
    match symbols {
        Some(m) => Some(m@),
        None => None,
    }
}

/// Format a PC-relative offset, using a label if available.
fn format_pc_offset(pc: u16, offset: u16, bits: u8, symbols: Option<&SymbolTable>) -> (r: String)
    requires
        1 <= bits < 16,
        offset < (1u16 << bits as u16),
    ensures
        r@ == spec_pc_target(pc, offset, bits, symbols_view(symbols)),
{
    let signed = sign_extend(offset, bits);
    let target_addr = pc.wrapping_add_signed(signed);

    match symbols {
        Some(syms) => {
            match syms.get(&target_addr) {
                Some(label) => {
                    return label.clone();
                },
                None => {},
            }
        },
        None => {},
    }

    let mut s = "x".to_owned();
    push_hex4(&mut s, target_addr);
    s
}

/// The rendering of a signed immediate: `#` and its decimal value.
pub open spec fn spec_immediate(val: u16, bits: u8) -> Seq<char>
    recommends
        1 <= bits < 16,
        val < (1u16 << bits as u16),
{
    "#"@ + spec_idec(field_signed(val, bits))
}

/// Format an immediate value with sign.
fn format_immediate(val: u16, bits: u8) -> (r: String)
    requires
        1 <= bits < 16,
        val < (1u16 << bits as u16),
    ensures
        r@ == spec_immediate(val, bits),
{
    let signed = sign_extend(val, bits);
    let mut s = "#".to_owned();
    push_idec16(&mut s, signed);
    s
}

/// The rendering of a trap vector: its named shortcut for 0x20-0x25, else
/// `TRAP xNN`.
pub open spec fn spec_trap_vector(vec: u16) -> Seq<char>
    recommends
        vec < 256,
{
    if vec == 0x20 {
        "GETC"@
    } else if vec == 0x21 {
        "OUT"@
    } else if vec == 0x22 {
        "PUTS"@
    } else if vec == 0x23 {
        "IN"@
    } else if vec == 0x24 {
        "PUTSP"@
    } else if vec == 0x25 {
        "HALT"@
    } else {
        "TRAP x"@ + spec_hex2(vec)
    }
}

/// Format a trap vector, using known trap names.
fn format_trap_vector(vec: u16) -> (r: String)
    requires
        vec < 256,
    ensures
        r@ == spec_trap_vector(vec),
{
    if vec == 0x20 {
        "GETC".to_owned()
    } else if vec == 0x21 {
        "OUT".to_owned()
    } else if vec == 0x22 {
        "PUTS".to_owned()
    } else if vec == 0x23 {
        "IN".to_owned()
    } else if vec == 0x24 {
        "PUTSP".to_owned()
    } else if vec == 0x25 {
        "HALT".to_owned()
    } else {
        let mut s = "TRAP x".to_owned();
        push_hex2(&mut s, vec);
        s
    }
}

/// The rendering of the BR condition letters, in canonical `nzp` order;
/// the unconditional form renders bare.
pub open spec fn spec_br_cond(n: bool, z: bool, p: bool) -> Seq<char> {
    if n && z && p {
        Seq::empty()
    } else {
        (if n {
            "n"@
        } else {
            Seq::empty()
        }) + (if z {
            "z"@
        } else {
            Seq::empty()
        }) + (if p {
            "p"@
        } else {
            Seq::empty()
        })
    }
}

/// The disassembly of one instruction word, given the address of the
/// following word (`pc`, the PC after fetch) and an optional symbol table.
/// The reserved opcode and the all-zero word render as `.FILL xWWWW`; the
/// all-zero word is checked first, since its opcode nibble would otherwise
/// read as a branch.
pub open spec fn spec_disassemble(
    instr: u16,
    pc: u16,
    symbols: Option<Map<u16, String>>,
) -> Seq<char> {
    let opcode = (instr >> 12) & 0xF;
    let dr = spec_udec(((instr >> 9) & 0x7) as int);
    let sr1 = spec_udec(((instr >> 6) & 0x7) as int);
    if instr == 0 {
        ".FILL x"@ + spec_hex4(instr)
    } else if opcode == 0b0001 {
        if instr & 0x20 != 0 {
            "ADD R"@ + dr + ", R"@ + sr1 + ", "@ + spec_immediate(instr & 0x1F, 5)
        } else {
            "ADD R"@ + dr + ", R"@ + sr1 + ", R"@ + spec_udec((instr & 0x7) as int)
        }
    } else if opcode == 0b0101 {
        if instr & 0x20 != 0 {
            "AND R"@ + dr + ", R"@ + sr1 + ", "@ + spec_immediate(instr & 0x1F, 5)
        } else {
            "AND R"@ + dr + ", R"@ + sr1 + ", R"@ + spec_udec((instr & 0x7) as int)
        }
    } else if opcode == 0b1001 {
        "NOT R"@ + dr + ", R"@ + sr1
    } else if opcode == 0b0000 {
        "BR"@ + spec_br_cond((instr >> 11) & 1 != 0, (instr >> 10) & 1 != 0, (instr >> 9) & 1 != 0)
            + " "@ + spec_pc_target(pc, instr & 0x1FF, 9, symbols)
    } else if opcode == 0b1100 {
        if (instr >> 6) & 0x7 == 7 {
            "RET"@
        } else {
            "JMP R"@ + sr1
        }
    } else if opcode == 0b0100 {
        if instr & 0x800 != 0 {
            "JSR "@ + spec_pc_target(pc, instr & 0x7FF, 11, symbols)
        } else {
            "JSRR R"@ + sr1
        }
    } else if opcode == 0b0010 {
        "LD R"@ + dr + ", "@ + spec_pc_target(pc, instr & 0x1FF, 9, symbols)
    } else if opcode == 0b1010 {
        "LDI R"@ + dr + ", "@ + spec_pc_target(pc, instr & 0x1FF, 9, symbols)
    } else if opcode == 0b0110 {
        "LDR R"@ + dr + ", R"@ + sr1 + ", "@ + spec_immediate(instr & 0x3F, 6)
    } else if opcode == 0b1110 {
        "LEA R"@ + dr + ", "@ + spec_pc_target(pc, instr & 0x1FF, 9, symbols)
    } else if opcode == 0b0011 {
        "ST R"@ + dr + ", "@ + spec_pc_target(pc, instr & 0x1FF, 9, symbols)
    } else if opcode == 0b1011 {
        "STI R"@ + dr + ", "@ + spec_pc_target(pc, instr & 0x1FF, 9, symbols)
    } else if opcode == 0b0111 {
        "STR R"@ + dr + ", R"@ + sr1 + ", "@ + spec_immediate(instr & 0x3F, 6)
    } else if opcode == 0b1111 {
        spec_trap_vector(instr & 0xFF)
    } else if opcode == 0b1000 {
        "RTI"@
    } else {
        ".FILL x"@ + spec_hex4(instr)
    }
}

/// Append the decimal digit of a register number.
fn push_reg(s: &mut String, r: u16)
    requires
        r < 8,
    ensures
        final(s)@ == old(s)@ + spec_udec(r as int),
{
    push_udec16(s, r);
}

/// Disassemble a single LC-3 instruction.
///
/// `pc` is the address of the *next* instruction (PC after fetch, i.e.,
/// the address of this instruction + 1); `symbols` optionally resolves
/// PC-relative targets to labels.
pub fn disassemble(instr: u16, pc: u16, symbols: Option<&SymbolTable>) -> (r: String)
    ensures
        r@ == spec_disassemble(instr, pc, symbols_view(symbols)),
{
    let opcode = (instr >> 12) & 0xF;
    let dr = (instr >> 9) & 0x7;
    let sr1 = (instr >> 6) & 0x7;

    proof {
        assert((instr & 0x1F) < (1u16 << 5) && (instr & 0x3F) < (1u16 << 6) && (instr & 0x1FF) < (
        1u16 << 9) && (instr & 0x7FF) < (1u16 << 11)) by (bit_vector);
    }

    if instr == 0 {
        let mut s = ".FILL x".to_owned();
        push_hex4(&mut s, instr);
        s
    } else if opcode == 0b0001 || opcode == 0b0101 {
        let mut s = if opcode == 0b0001 {
            "ADD R".to_owned()
        } else {
            "AND R".to_owned()
        };
        push_reg(&mut s, dr);
        s.append(", R");
        push_reg(&mut s, sr1);
        if instr & 0x20 != 0 {
            s.append(", ");
            let imm = format_immediate(instr & 0x1F, 5);
            s.append(imm.as_str());
        } else {
            s.append(", R");
            push_reg(&mut s, instr & 0x7);
        }
        s
    } else if opcode == 0b1001 {
        let mut s = "NOT R".to_owned();
        push_reg(&mut s, dr);
        s.append(", R");
        push_reg(&mut s, sr1);
        s
    } else if opcode == 0b0000 {
        let n = (instr >> 11) & 1 != 0;
        let z = (instr >> 10) & 1 != 0;
        let p = (instr >> 9) & 1 != 0;
        let mut s = "BR".to_owned();
        if !(n && z && p) {
            if n {
                s.append("n");
            }
            if z {
                s.append("z");
            }
            if p {
                s.append("p");
            }
        }
        proof {
            assert(s@ =~= "BR"@ + spec_br_cond(n, z, p));
        }
        s.append(" ");
        let t = format_pc_offset(pc, instr & 0x1FF, 9, symbols);
        s.append(t.as_str());
        s
    } else if opcode == 0b1100 {
        if sr1 == 7 {
            "RET".to_owned()
        } else {
            let mut s = "JMP R".to_owned();
            push_reg(&mut s, sr1);
            s
        }
    } else if opcode == 0b0100 {
        if instr & 0x800 != 0 {
            let mut s = "JSR ".to_owned();
            let t = format_pc_offset(pc, instr & 0x7FF, 11, symbols);
            s.append(t.as_str());
            s
        } else {
            let mut s = "JSRR R".to_owned();
            push_reg(&mut s, sr1);
            s
        }
    } else if opcode == 0b0010 || opcode == 0b1010 || opcode == 0b1110 || opcode == 0b0011
        || opcode == 0b1011 {
        let mut s = if opcode == 0b0010 {
            "LD R".to_owned()
        } else if opcode == 0b1010 {
            "LDI R".to_owned()
        } else if opcode == 0b1110 {
            "LEA R".to_owned()
        } else if opcode == 0b0011 {
            "ST R".to_owned()
        } else {
            "STI R".to_owned()
        };
        push_reg(&mut s, dr);
        s.append(", ");
        let t = format_pc_offset(pc, instr & 0x1FF, 9, symbols);
        s.append(t.as_str());
        s
    } else if opcode == 0b0110 || opcode == 0b0111 {
        let mut s = if opcode == 0b0110 {
            "LDR R".to_owned()
        } else {
            "STR R".to_owned()
        };
        push_reg(&mut s, dr);
        s.append(", R");
        push_reg(&mut s, sr1);
        s.append(", ");
        let imm = format_immediate(instr & 0x3F, 6);
        s.append(imm.as_str());
        s
    } else if opcode == 0b1111 {
        format_trap_vector(instr & 0xFF)
    } else if opcode == 0b1000 {
        "RTI".to_owned()
    } else {
        let mut s = ".FILL x".to_owned();
        push_hex4(&mut s, instr);
        s
    }
}

/// Disassemble a single instruction without a symbol table.
pub fn disassemble_simple(instr: u16, pc: u16) -> (r: String)
    ensures
        r@ == spec_disassemble(instr, pc, None::<Map<u16, String>>),
{
    disassemble(instr, pc, None)
}

/// Check whether an instruction word looks like valid code (vs. data):
/// false exactly for the reserved opcode and the all-zero word.
pub fn is_likely_instruction(instr: u16) -> (r: bool)
    ensures
        r == ((instr >> 12) & 0xF != 0b1101 && instr != 0),
{
    let opcode = (instr >> 12) & 0xF;
    if opcode == 0b1101 {
        return false;
    }
    if instr == 0 {
        return false;
    }
    true
}

} // verus!
