use lc3::SymbolTable;
use lc3::disassemble;
use lc3::disassemble_simple;
use lc3::is_likely_instruction;

#[test]
fn test_add_register() {
    // ADD R0, R1, R2 (PC at x3001 means instruction was at x3000)
    assert_eq!(disassemble_simple(0x1042, 0x3001), "ADD R0, R1, R2");
}

#[test]
fn disasm_test_add_immediate() {
    // ADD R0, R1, #5
    assert_eq!(disassemble_simple(0x1065, 0x3001), "ADD R0, R1, #5");
    // ADD R0, R1, #-1
    assert_eq!(disassemble_simple(0x107F, 0x3001), "ADD R0, R1, #-1");
}

#[test]
fn test_and_register() {
    // AND R0, R1, R2
    assert_eq!(disassemble_simple(0x5042, 0x3001), "AND R0, R1, R2");
}

#[test]
fn test_and_immediate() {
    // AND R0, R1, #0
    assert_eq!(disassemble_simple(0x5060, 0x3001), "AND R0, R1, #0");
}

#[test]
fn test_not() {
    // NOT R0, R1
    assert_eq!(disassemble_simple(0x907F, 0x3001), "NOT R0, R1");
}

#[test]
fn test_br() {
    // BRnzp (unconditional) to x3004 from x3001 (offset +3)
    assert_eq!(disassemble_simple(0x0E03, 0x3001), "BR x3004");
    // BRz to x3002 from x3001 (offset +1)
    assert_eq!(disassemble_simple(0x0401, 0x3001), "BRz x3002");
    // BRnp to x3000 from x3001 (offset -1 = 0x1FF in 9-bit)
    assert_eq!(disassemble_simple(0x0BFF, 0x3001), "BRnp x3000");
}

#[test]
fn test_jmp_ret() {
    // JMP R3
    assert_eq!(disassemble_simple(0xC0C0, 0x3001), "JMP R3");
    // RET (JMP R7)
    assert_eq!(disassemble_simple(0xC1C0, 0x3001), "RET");
}

#[test]
fn test_jsr_jsrr() {
    // JSR to x3100 from x3001
    assert_eq!(disassemble_simple(0x48FF, 0x3001), "JSR x3100");
    // JSRR R2
    assert_eq!(disassemble_simple(0x4080, 0x3001), "JSRR R2");
}

#[test]
fn test_ld_ldi_ldr() {
    // LD R0, x3004 from x3001
    assert_eq!(disassemble_simple(0x2003, 0x3001), "LD R0, x3004");
    // LDI R1, x300F from x3001
    assert_eq!(disassemble_simple(0xA20E, 0x3001), "LDI R1, x300F");
    // LDR R2, R3, #5
    assert_eq!(disassemble_simple(0x64C5, 0x3001), "LDR R2, R3, #5");
}

#[test]
fn test_lea() {
    // LEA R0, x3004 from x3001
    assert_eq!(disassemble_simple(0xE003, 0x3001), "LEA R0, x3004");
}

#[test]
fn test_st_sti_str() {
    // ST R0, x3004 from x3001
    assert_eq!(disassemble_simple(0x3003, 0x3001), "ST R0, x3004");
    // STI R1, x300F from x3001
    assert_eq!(disassemble_simple(0xB20E, 0x3001), "STI R1, x300F");
    // STR R2, R3, #-1
    assert_eq!(disassemble_simple(0x74FF, 0x3001), "STR R2, R3, #-1");
}

#[test]
fn test_trap() {
    assert_eq!(disassemble_simple(0xF020, 0x3001), "GETC");
    assert_eq!(disassemble_simple(0xF021, 0x3001), "OUT");
    assert_eq!(disassemble_simple(0xF022, 0x3001), "PUTS");
    assert_eq!(disassemble_simple(0xF023, 0x3001), "IN");
    assert_eq!(disassemble_simple(0xF024, 0x3001), "PUTSP");
    assert_eq!(disassemble_simple(0xF025, 0x3001), "HALT");
    assert_eq!(disassemble_simple(0xF030, 0x3001), "TRAP x30");
}

#[test]
fn test_rti() {
    assert_eq!(disassemble_simple(0x8000, 0x3001), "RTI");
}

#[test]
fn test_reserved_opcode() {
    // Opcode 1101 (reserved)
    assert_eq!(disassemble_simple(0xD000, 0x3001), ".FILL xD000");
}

#[test]
fn disasm_zero_word_is_fill() {
    // The all-zero word renders as data, not as a branch.
    assert_eq!(disassemble_simple(0x0000, 0x3001), ".FILL x0000");
}

#[test]
fn test_with_symbols() {
    let mut symbols = SymbolTable::new();
    symbols.insert(0x3004, "LOOP".to_string());

    // BR to LOOP
    assert_eq!(disassemble(0x0E03, 0x3001, Some(&symbols)), "BR LOOP");
}

#[test]
fn test_is_likely_instruction() {
    assert!(is_likely_instruction(0x1042)); // ADD
    assert!(is_likely_instruction(0xF025)); // HALT
    assert!(!is_likely_instruction(0x0000)); // NOP/uninitialized
    assert!(!is_likely_instruction(0xD000)); // Reserved opcode
}
