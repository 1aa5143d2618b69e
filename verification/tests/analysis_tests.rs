use lc3::analysis::AnalyzedDocument;
use lc3::analysis::TokenType;

#[test]
fn test_basic_analysis() {
    let source = r#".ORIG x3000
LOOP    ADD R0, R0, #1
        BRZ DONE
        BRnzp LOOP
DONE    HALT
.END"#;

    let doc = AnalyzedDocument::new(source);

    assert!(doc.diagnostics().is_empty());
    assert_eq!(doc.symbols().len(), 2); // LOOP and DONE
}

#[test]
fn test_undefined_label() {
    let source = r#".ORIG x3000
        BRZ MISSING
.END"#;

    let doc = AnalyzedDocument::new(source);
    let diags = doc.diagnostics();

    assert_eq!(diags.len(), 1);
    assert!(diags[0].message.contains("undefined label"));
}

#[test]
fn test_goto_definition() {
    let source = r#".ORIG x3000
TARGET  ADD R0, R0, #1
        JSR TARGET
.END"#;

    let doc = AnalyzedDocument::new(source);

    // Find the location of "TARGET" in "JSR TARGET" (line 3)
    let loc = doc.definition(3, 13);
    assert!(loc.is_some());
    let loc = loc.unwrap();
    assert_eq!(loc.start_line, 2); // Definition is on line 2
}

#[test]
fn test_completions() {
    let source = r#".ORIG x3000
MYDATA  .FILL x0000
.END"#;

    let doc = AnalyzedDocument::new(source);
    let completions = doc.completions(2, 1);

    // Should have MYDATA label + all instructions + all directives
    let label_completions: Vec<_> = completions.iter().filter(|c| c.label == "MYDATA").collect();
    assert_eq!(label_completions.len(), 1);
}

#[test]
fn test_tokens() {
    let source = r#".ORIG x3000
LOOP    ADD R0, R1, #5  ; increment
        BRZ DONE
DONE    HALT
.END"#;

    let doc = AnalyzedDocument::new(source);
    let tokens = doc.tokens();

    // Should have tokens for each element
    assert!(!tokens.is_empty());

    // Check for specific token types
    let directives: Vec<_> = tokens
        .iter()
        .filter(|t| t.token_type == TokenType::Directive)
        .collect();
    assert_eq!(directives.len(), 2); // .ORIG and .END

    let keywords: Vec<_> = tokens
        .iter()
        .filter(|t| t.token_type == TokenType::Keyword)
        .collect();
    assert_eq!(keywords.len(), 3); // ADD, BRZ, HALT

    let registers: Vec<_> = tokens
        .iter()
        .filter(|t| t.token_type == TokenType::Register)
        .collect();
    assert_eq!(registers.len(), 2); // R0, R1

    let numbers: Vec<_> = tokens
        .iter()
        .filter(|t| t.token_type == TokenType::Number)
        .collect();
    assert_eq!(numbers.len(), 2); // x3000, #5

    let comments: Vec<_> = tokens
        .iter()
        .filter(|t| t.token_type == TokenType::Comment)
        .collect();
    assert_eq!(comments.len(), 1); // ; increment

    let labels: Vec<_> = tokens
        .iter()
        .filter(|t| t.token_type == TokenType::Label)
        .collect();
    assert_eq!(labels.len(), 2); // LOOP, DONE (definitions)

    let label_refs: Vec<_> = tokens
        .iter()
        .filter(|t| t.token_type == TokenType::LabelRef)
        .collect();
    assert_eq!(label_refs.len(), 1); // DONE (in BRZ DONE)
}

#[test]
fn analysis_undefined_label_span() {
    // The undefined-label diagnostic points exactly at the unknown name.
    let source = ".ORIG x3000\n        BRZ MISSING\n.END";
    let doc = AnalyzedDocument::new(source);
    let diags = doc.diagnostics();
    assert_eq!(diags.len(), 1);
    assert!(diags[0].message.contains("undefined label"));
    assert_eq!(
        (diags[0].start_line, diags[0].start_col, diags[0].end_line, diags[0].end_col),
        (2, 13, 2, 20)
    );
}

#[test]
fn analysis_hover_text() {
    let source = ".ORIG x3000\nLOOP ADD R0, R0, #1\nBRnzp LOOP\n.END";
    let doc = AnalyzedDocument::new(source);
    let hover = doc.hover(2, 2).unwrap();
    assert_eq!(hover.contents, "**LOOP** (label)\n\nAddress: `x3000`");

    let source2 = ".ORIG x3000\nBRZ MISSING\n.END";
    let doc2 = AnalyzedDocument::new(source2);
    let hover2 = doc2.hover(2, 6).unwrap();
    assert_eq!(hover2.contents, "**MISSING** (undefined)");
}

#[test]
fn analysis_references_list() {
    let source = ".ORIG x3000\nTARGET ADD R0, R0, #1\nJSR TARGET\nBRnzp TARGET\n.END";
    let doc = AnalyzedDocument::new(source);
    let refs = doc.references(2, 2);
    // Definition plus two references.
    assert_eq!(refs.len(), 3);
    assert_eq!(refs[0].start_line, 2);
    assert_eq!(refs[1].start_line, 3);
    assert_eq!(refs[2].start_line, 4);
}

#[test]
fn analysis_data_symbol_kind() {
    let source = ".ORIG x3000\nVALUE .FILL x0042\n.END";
    let doc = AnalyzedDocument::new(source);
    let syms = doc.symbols();
    assert_eq!(syms.len(), 1);
    assert_eq!(syms[0].kind, lc3::analysis::SymbolKind::Data);
    assert_eq!(syms[0].address, Some(0x3000));
}

#[test]
fn analysis_idempotent() {
    // Running the analyzer twice on the same source yields identical
    // diagnostics, symbols, and tokens.
    let source = ".ORIG x3000\nLOOP ADD R0, R0, #1\nBRZ GONE\nBRnzp LOOP\n.END";
    let a = AnalyzedDocument::new(source);
    let b = AnalyzedDocument::new(source);
    assert_eq!(a.diagnostics(), b.diagnostics());
    assert_eq!(
        format!("{:?}", a.symbols()),
        format!("{:?}", b.symbols())
    );
    assert_eq!(a.tokens(), b.tokens());
}
