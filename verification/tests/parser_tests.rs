use lc3::Directive;
use lc3::Register;
use lc3::parse;
use lc3::parser;

#[test]
fn test_register() {
    let chars: Vec<char> = "R0".chars().collect();
    let mut errors = Vec::new();
    assert_eq!(
        parser::parse_register(&chars, 0, 2, &mut errors),
        Some((Register(0), 2))
    );
    let chars7: Vec<char> = "R7".chars().collect();
    assert_eq!(
        parser::parse_register(&chars7, 0, 2, &mut errors),
        Some((Register(7), 2))
    );
    assert!(errors.is_empty());
}

#[test]
fn test_hex() {
    let chars: Vec<char> = "x3000".chars().collect();
    assert_eq!(parser::parse_hex(&chars, 0, 5), Some((0x3000, 5)));
}

#[test]
fn test_decimal() {
    let chars: Vec<char> = "#-5".chars().collect();
    assert_eq!(parser::parse_decimal(&chars, 0, 3), Some((-5, 3)));
}

#[test]
fn test_add() {
    let mut errors = Vec::new();
    let a: Vec<char> = "ADD R0, R1, R2".chars().collect();
    assert!(parser::parse_instruction(&a, 0, a.len(), &mut errors).is_some());
    let b: Vec<char> = "ADD R0, R1, #5".chars().collect();
    assert!(parser::parse_instruction(&b, 0, b.len(), &mut errors).is_some());
    assert!(errors.is_empty());
}

#[test]
fn test_directive() {
    let orig: Vec<char> = ".ORIG x3000".chars().collect();
    assert_eq!(
        parser::parse_directive(&orig, 0, orig.len()),
        Some((Directive::Orig(0x3000), 11))
    );
    let end: Vec<char> = ".END".chars().collect();
    assert_eq!(
        parser::parse_directive(&end, 0, end.len()),
        Some((Directive::End, 4))
    );
}

#[test]
fn test_program() {
    let source = ".ORIG x3000\nADD R0, R1, R2\nHALT\n.END";
    assert!(parse(source).is_ok());
}

#[test]
fn parser_labels_and_comments() {
    let source = "LOOP: ADD R0, R0, #1 ; bump\n        BRnzp LOOP";
    let program = parse(source).unwrap();
    assert!(matches!(
        program.lines[0].line,
        lc3::Line::LabeledInstruction(_, _)
    ));
    assert!(matches!(program.lines[1].line, lc3::Line::Instruction(_)));
}

#[test]
fn parser_bad_register_digit() {
    // R8 is diagnosed and treated as R0.
    let source = ".ORIG x3000\nADD R8, R0, #1\n.END";
    let errors = parse(source).unwrap_err();
    assert_eq!(errors.len(), 1);
    assert!(errors[0].message.contains("R8 is not valid"));
}

#[test]
fn parser_trailing_junk() {
    let source = ".ORIG x3000\nADD R0, R0, #1 ???\n.END";
    let errors = parse(source).unwrap_err();
    assert_eq!(errors.len(), 1);
    assert!(errors[0].message.contains("expected end of line or comment"));
}

#[test]
fn parser_string_escapes() {
    let source = ".ORIG x3000\nMSG .STRINGZ \"a\\n\\t\\\\\\\"b\\0\"\n.END";
    let program = parse(source).unwrap();
    match &program.lines[1].line {
        lc3::Line::LabeledDirective(label, Directive::Stringz(s)) => {
            assert_eq!(label.value, "MSG");
            assert_eq!(s, "a\n\t\\\"b\0");
        }
        other => panic!("unexpected line: {other:?}"),
    }
}
