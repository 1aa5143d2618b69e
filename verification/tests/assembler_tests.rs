use lc3::Assembler;
use lc3::lc3tools_format;
use lc3::{Directive, Line, Operand, Program, Register, Span, SpannedLine};

#[test]
fn test_simple_program() {
    let source = ".ORIG x3000\nADD R0, R1, R2\nHALT\n.END";
    let mut assembler = Assembler::new();
    let code = assembler.assemble(source).unwrap();
    assert_eq!(code, vec![0x1042, 0xF025]);
}

#[test]
fn lib_test_add_immediate() {
    let source = ".ORIG x3000\nADD R0, R0, #1\n.END";
    let mut assembler = Assembler::new();
    let code = assembler.assemble(source).unwrap();
    assert_eq!(code[0], 0x1021);
}

#[test]
fn lib_test_branch() {
    let source = ".ORIG x3000\nLOOP ADD R0, R0, #1\n     BRZ LOOP\n.END";
    let mut assembler = Assembler::new();
    assert!(assembler.assemble(source).is_ok());
}

#[test]
fn test_stringz() {
    let source = ".ORIG x3000\nLEA R0, MSG\nPUTS\nHALT\nMSG .STRINGZ \"Hello\"\n.END";
    let mut assembler = Assembler::new();
    let code = assembler.assemble(source).unwrap();
    assert_eq!(code.len(), 3 + 6); // LEA, PUTS, HALT + "Hello\0"
}

#[test]
fn test_multi_segment() {
    let source = r#"
.ORIG x0000
.FILL x0400    ; Vector 0 points to x0400
.FILL x0401    ; Vector 1 points to x0401
.END

.ORIG x0400
ADD R0, R0, #1
HALT
.END

.ORIG x0500
ADD R1, R1, #2
RET
.END
"#;
    let mut assembler = Assembler::new();
    let segments = assembler.assemble_segments(source).unwrap();

    assert_eq!(segments.len(), 3);

    // First segment at x0000
    assert_eq!(segments[0].origin, 0x0000);
    assert_eq!(segments[0].code.len(), 2);
    assert_eq!(segments[0].code[0], 0x0400);
    assert_eq!(segments[0].code[1], 0x0401);

    // Second segment at x0400
    assert_eq!(segments[1].origin, 0x0400);
    assert_eq!(segments[1].code.len(), 2);
    assert_eq!(segments[1].code[0], 0x1021); // ADD R0, R0, #1
    assert_eq!(segments[1].code[1], 0xF025); // HALT

    // Third segment at x0500
    assert_eq!(segments[2].origin, 0x0500);
    assert_eq!(segments[2].code.len(), 2);
    assert_eq!(segments[2].code[0], 0x1262); // ADD R1, R1, #2
    assert_eq!(segments[2].code[1], 0xC1C0); // RET
}

#[test]
fn test_multi_segment_cross_reference() {
    // Test that labels from one segment can be referenced in another
    let source = r#"
.ORIG x0000
.FILL HANDLER  ; Vector 0 points to HANDLER
.END

.ORIG x0400
HANDLER ADD R0, R0, #1
        RET
.END
"#;
    let mut assembler = Assembler::new();
    let segments = assembler.assemble_segments(source).unwrap();

    assert_eq!(segments.len(), 2);

    // First segment should have the address of HANDLER (x0400)
    assert_eq!(segments[0].origin, 0x0000);
    assert_eq!(segments[0].code[0], 0x0400);

    // Second segment at x0400
    assert_eq!(segments[1].origin, 0x0400);
}

#[test]
fn test_lc3tools_format_roundtrip() {
    // Test encoding and decoding of the object format
    let source = r#"
.ORIG x0000
.FILL x0400
.END

.ORIG x0400
ADD R0, R0, #1
HALT
.END
"#;
    let mut assembler = Assembler::new();
    let bytes = assembler.assemble_to_lc3tools(source).unwrap();

    // Verify magic header and version
    assert_eq!(&bytes[..5], &[0x1c, 0x30, 0x15, 0xc0, 0x01]);
    assert_eq!(&bytes[5..7], &[0x01, 0x01]);

    // Decode and verify
    let entries = lc3tools_format::decode(&bytes).unwrap();
    let segments = lc3tools_format::entries_to_segments(&entries);

    assert_eq!(segments.len(), 2);
    assert_eq!(segments[0].origin, 0x0000);
    assert_eq!(segments[0].code, vec![0x0400]);
    assert_eq!(segments[1].origin, 0x0400);
    assert_eq!(segments[1].code, vec![0x1021, 0xF025]); // ADD R0,R0,#1 and HALT
}

#[test]
fn test_lc3tools_format_detection() {
    // Test that we can detect the object format
    let valid = [0x1c, 0x30, 0x15, 0xc0, 0x01, 0x01, 0x01];
    assert!(lc3tools_format::is_lc3tools_format(&valid));

    // Legacy format starts with origin (big-endian)
    let legacy = [0x30, 0x00, 0xF0, 0x25]; // origin x3000, HALT
    assert!(!lc3tools_format::is_lc3tools_format(&legacy));
}

#[test]
fn asm_undefined_symbol_error() {
    let source = ".ORIG x3000\nLD R0, NOWHERE\n.END";
    let mut assembler = Assembler::new();
    let err = assembler.assemble(source).unwrap_err();
    assert!(err.contains("undefined symbol: NOWHERE"));
}

#[test]
fn asm_register_as_fill_value_error() {
    let program = Program {
        lines: vec![
            SpannedLine {
                line: Line::Directive(Directive::Orig(0x3000)),
                span: Span { start: 0, end: 11 },
            },
            SpannedLine {
                line: Line::Directive(Directive::Fill(Operand::Register(Register(3)))),
                span: Span { start: 12, end: 20 },
            },
        ],
    };
    let mut assembler = Assembler::new();
    let err = assembler.assemble_program(&program, ".ORIG x3000\n.FILL R3").unwrap_err();
    match err {
        lc3::AssemblyError::SemanticErrors(errors) => {
            assert_eq!(errors.len(), 1);
            assert_eq!(errors[0].message, "cannot use register as value");
        }
        _ => panic!("expected semantic errors"),
    }
}

#[test]
fn asm_string_as_fill_value_error() {
    let program = Program {
        lines: vec![SpannedLine {
            line: Line::Directive(Directive::Fill(Operand::String("oops".to_owned()))),
            span: Span { start: 0, end: 4 },
        }],
    };
    let mut assembler = Assembler::new();
    let err = assembler.assemble_program(&program, ".FILL").unwrap_err();
    match err {
        lc3::AssemblyError::SemanticErrors(errors) => {
            assert_eq!(errors.len(), 1);
            assert_eq!(errors[0].message, "cannot use string as value");
        }
        _ => panic!("expected semantic errors"),
    }
}

#[test]
fn asm_error_message_rendering() {
    let source = ".ORIG x3000\nBRZ MISSING\n.END";
    let mut assembler = Assembler::new();
    let err = assembler.assemble(source).unwrap_err();
    assert_eq!(err, "2:5: undefined symbol: MISSING\n");
}
