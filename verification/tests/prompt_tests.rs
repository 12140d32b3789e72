use cobol_to_rust::prompt::{build_conversion_prompt, build_fix_prompt, build_output_fix_prompt, build_system_prompt};
use cobol_to_rust::analyzer::parse_cobol_source;

#[test]
fn test_system_prompt_contains_key_rules() {
    let prompt = build_system_prompt();
    assert!(prompt.contains("rust_decimal"));
    assert!(prompt.contains("NEVER use f32 or f64"));
    assert!(prompt.contains("PIC"));
}

#[test]
fn test_fix_prompt() {
    let prompt = build_fix_prompt("fn main() { x }", "error: cannot find value `x`");
    assert!(prompt.contains("compilation errors"));
    assert!(prompt.contains("cannot find value"));
}

#[test]
fn conversion_prompt_counts_items_and_paragraphs() {
    let src = "       IDENTIFICATION DIVISION.\n       PROGRAM-ID. P1.\n       DATA DIVISION.\n       WORKING-STORAGE SECTION.\n       01 A PIC 9.\n       01 B PIC X(3).\n       PROCEDURE DIVISION.\n       MAIN-PARA.\n           STOP RUN.\n";
    let program = parse_cobol_source(src).unwrap();
    let prompt = build_conversion_prompt(&program, "SRC");
    assert!(prompt.starts_with("Convert the following COBOL program to Rust.\n\nProgram ID: P1\n"));
    assert!(prompt.contains("Data items: 2 variables in WORKING-STORAGE\n"));
    assert!(prompt.contains("Paragraphs: 1\n"));
    assert!(prompt.contains("```cobol\nSRC\n```"));
}

#[test]
fn output_fix_prompt_holds_both_outputs() {
    let p = build_output_fix_prompt("CODE", "EXP", "ACT");
    assert!(p.contains("## Expected Output\n\n```\nEXP\n```"));
    assert!(p.contains("## Actual Output\n\n```\nACT\n```"));
    assert!(p.starts_with("The Rust code compiles but produces incorrect output. Fix it.\n\n"));
}
