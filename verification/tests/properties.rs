use lc3::Assembler;
use lc3::LC3;
use lc3::Segment;
use lc3::VMEvent;
use lc3::lc3tools_format;
use lc3::load_obj_file;

fn assemble_one(source: &str) -> Result<Vec<u16>, String> {
    let mut assembler = Assembler::new();
    assembler.assemble(source)
}

#[test]
fn add_immediate_boundaries() {
    // -16 and 15 encode correctly.
    assert_eq!(
        assemble_one(".ORIG x3000\nADD R0, R0, #-16\n.END").unwrap()[0],
        0x1030
    );
    assert_eq!(
        assemble_one(".ORIG x3000\nADD R0, R0, #15\n.END").unwrap()[0],
        0x102F
    );
    // -17 and 16 are semantic errors.
    let e = assemble_one(".ORIG x3000\nADD R0, R0, #-17\n.END").unwrap_err();
    assert!(e.contains("immediate value out of range (-16 to 15)"));
    let e = assemble_one(".ORIG x3000\nADD R0, R0, #16\n.END").unwrap_err();
    assert!(e.contains("immediate value out of range (-16 to 15)"));
}

#[test]
fn ldr_str_offset_boundaries() {
    // -32 and 31 encode correctly.
    assert_eq!(
        assemble_one(".ORIG x3000\nLDR R0, R1, #-32\n.END").unwrap()[0],
        0x6060
    );
    assert_eq!(
        assemble_one(".ORIG x3000\nSTR R0, R1, #31\n.END").unwrap()[0],
        0x705F
    );
    // -33 and 32 are semantic errors.
    let e = assemble_one(".ORIG x3000\nLDR R0, R1, #-33\n.END").unwrap_err();
    assert!(e.contains("LDR offset out of range (-32 to 31)"));
    let e = assemble_one(".ORIG x3000\nSTR R0, R1, #32\n.END").unwrap_err();
    assert!(e.contains("STR offset out of range (-32 to 31)"));
}

#[test]
fn br_offset_boundaries() {
    // An offset of exactly 255 from the instruction fits 9 bits.
    let ok = ".ORIG x3000\nBRnzp TARGET\n.BLKW 255\nTARGET .FILL x0\n.END";
    assert!(assemble_one(ok).is_ok());
    // One farther is out of range.
    let too_far = ".ORIG x3000\nBRnzp TARGET\n.BLKW 256\nTARGET .FILL x0\n.END";
    let e = assemble_one(too_far).unwrap_err();
    assert!(e.contains("BR offset out of range (-256 to 255)"));
}

#[test]
fn jsr_offset_boundaries() {
    let ok = ".ORIG x3000\nJSR TARGET\n.BLKW 1023\nTARGET .FILL x0\n.END";
    assert!(assemble_one(ok).is_ok());
    let too_far = ".ORIG x3000\nJSR TARGET\n.BLKW 1024\nTARGET .FILL x0\n.END";
    let e = assemble_one(too_far).unwrap_err();
    assert!(e.contains("JSR offset out of range (-1024 to 1023)"));
}

#[test]
fn stringz_and_blkw_sizes() {
    // An empty string occupies one word (the terminator).
    let code = assemble_one(".ORIG x3000\n.STRINGZ \"\"\n.END").unwrap();
    assert_eq!(code, vec![0x0000]);
    // .BLKW 0 occupies zero words.
    let code = assemble_one(".ORIG x3000\n.BLKW 0\n.FILL x7\n.END").unwrap();
    assert_eq!(code, vec![0x0007]);
}

#[test]
fn assemble_and_run_halts() {
    // The two-instruction program assembles to the exact words and the
    // VM run halts from its origin.
    let mut assembler = Assembler::new();
    let segments = assembler
        .assemble_segments(".ORIG x3000\nADD R0, R1, R2\nHALT\n.END")
        .unwrap();
    assert_eq!(segments.len(), 1);
    assert_eq!(segments[0].origin, 0x3000);
    assert_eq!(segments[0].code, vec![0x1042, 0xF025]);

    let mut vm = LC3::default();
    for (i, &word) in segments[0].code.iter().enumerate() {
        vm.memory[0x3000 + i] = word;
    }
    vm.pc = 0x3000;
    assert_eq!(vm.run(), VMEvent::Halt);
}

#[test]
fn brnzp_loop_encoding() {
    // The backward branch has all three flags set and a 9-bit offset of
    // -2 (0x1FE).
    let code = assemble_one(".ORIG x3000\nLOOP ADD R0, R0, #1\nBRnzp LOOP\n.END").unwrap();
    assert_eq!(code.len(), 2);
    assert_eq!(code[1], 0x0E00 | 0x1FE);
}

#[test]
fn objfile_roundtrip_exact() {
    let segments = vec![
        Segment { origin: 0x3000, code: vec![0x1042, 0xF025, 0x0007] },
        Segment { origin: 0x0500, code: vec![0xC1C0] },
    ];
    let bytes = lc3tools_format::encode(&segments);
    assert!(lc3tools_format::is_lc3tools_format(&bytes));
    let entries = lc3tools_format::decode(&bytes).unwrap();
    let back = lc3tools_format::entries_to_segments(&entries);
    assert_eq!(back.len(), 2);
    assert_eq!(back[0].origin, 0x3000);
    assert_eq!(back[0].code, vec![0x1042, 0xF025, 0x0007]);
    assert_eq!(back[1].origin, 0x0500);
    assert_eq!(back[1].code, vec![0xC1C0]);
}

#[test]
fn objfile_decode_source_lines() {
    // An entry's attached source line is decoded from its bytes.
    let mut bytes = vec![0x1c, 0x30, 0x15, 0xc0, 0x01, 0x01, 0x01];
    bytes.extend_from_slice(&[0x42, 0x30]); // value 0x3042, little-endian
    bytes.push(0); // not an origin
    bytes.extend_from_slice(&[2, 0, 0, 0]); // two source-line bytes
    bytes.extend_from_slice(b"hi");
    let entries = lc3tools_format::decode(&bytes).unwrap();
    assert_eq!(entries.len(), 1);
    assert_eq!(entries[0].value, 0x3042);
    assert!(!entries[0].is_orig);
    assert_eq!(entries[0].line, "hi");
}

#[test]
fn objfile_decode_errors() {
    // Too short.
    assert!(lc3tools_format::decode(&[0x1c, 0x30]).is_err());
    // Wrong magic.
    assert!(lc3tools_format::decode(&[1, 2, 3, 4, 5, 6, 7, 8]).is_err());
    // A source line running past the end of the data.
    let bytes = vec![
        0x1c, 0x30, 0x15, 0xc0, 0x01, 0x01, 0x01, // header
        0x00, 0x30, 1, 9, 0, 0, 0, // entry declaring 9 line bytes
    ];
    assert!(lc3tools_format::decode(&bytes).is_err());
}

#[test]
fn loader_segmented_and_legacy() {
    // Segmented format.
    let segments = vec![Segment { origin: 0x0400, code: vec![0x1021, 0xF025] }];
    let bytes = lc3tools_format::encode(&segments);
    let mut vm = LC3::default();
    assert_eq!(load_obj_file(&mut vm, &bytes), Ok(0x0400));
    assert_eq!(vm.memory[0x0400], 0x1021);
    assert_eq!(vm.memory[0x0401], 0xF025);

    // Legacy format: big-endian origin then code words.
    let legacy = [0x30, 0x00, 0xF0, 0x25];
    let mut vm2 = LC3::default();
    assert_eq!(load_obj_file(&mut vm2, &legacy), Ok(0x3000));
    assert_eq!(vm2.memory[0x3000], 0xF025);

    // Odd-length legacy data is rejected.
    let mut vm3 = LC3::default();
    assert!(load_obj_file(&mut vm3, &[0x30, 0x00, 0xF0]).is_err());

    // A segmented file without segments is rejected.
    let no_segments: Vec<Segment> = Vec::new();
    let empty = lc3tools_format::encode(&no_segments);
    let mut vm4 = LC3::default();
    assert!(load_obj_file(&mut vm4, &empty).is_err());
}

#[test]
fn fill_label_resolves_absolute() {
    // A .FILL with a label operand holds the absolute address, not a
    // PC-relative offset.
    let code = assemble_one(".ORIG x3000\n.FILL HERE\nHERE .FILL x1\n.END").unwrap();
    assert_eq!(code[0], 0x3001);
}

#[test]
fn assembler_origin_tracking() {
    let mut assembler = Assembler::new();
    assembler.assemble(".ORIG x4000\nHALT\n.END").unwrap();
    assert_eq!(assembler.origin(), 0x4000);
    assert_eq!(assembler.segments().len(), 1);
    assert_eq!(assembler.segments()[0].origin, 0x4000);
}

#[test]
fn disassemble_inverts_encoding() {
    // Assemble, then disassemble each word with a matching symbol table:
    // the mnemonics and operands come back.
    let source = ".ORIG x3000\nLOOP ADD R3, R3, #-2\nLDR R1, R2, #5\nBRnp LOOP\nRET\n.END";
    let code = assemble_one(source).unwrap();
    let mut symbols = lc3::SymbolTable::new();
    symbols.insert(0x3000, "LOOP".to_string());
    assert_eq!(lc3::disassemble(code[0], 0x3001, Some(&symbols)), "ADD R3, R3, #-2");
    assert_eq!(lc3::disassemble(code[1], 0x3002, Some(&symbols)), "LDR R1, R2, #5");
    assert_eq!(lc3::disassemble(code[2], 0x3003, Some(&symbols)), "BRnp LOOP");
    assert_eq!(lc3::disassemble(code[3], 0x3004, Some(&symbols)), "RET");
}

#[test]
fn keyboard_input_via_program() {
    // MMIO polling loop: read KBSR until ready, then load KBDR.
    let mut vm = LC3::default();
    // LDI R1, #1 -> pointer at x3002 holds xFE00 (KBSR)
    vm.memory[0x3000] = 0xA201;
    vm.memory[0x3001] = 0xF025; // HALT
    vm.memory[0x3002] = 0xFE00;
    vm.pc = 0x3000;
    vm.step();
    assert_eq!(vm.regs[1], 0); // nothing pending
    vm.set_keyboard_input(0x41);
    vm.pc = 0x3000;
    vm.step();
    assert_eq!(vm.regs[1], 0x8000); // ready bit
}
