use cobol_to_rust::generator::{
    conversion_request, extract_rust_code, fix_request, generation_result, output_fix_request,
    GenerateError,
};
use cobol_to_rust::llm::{response_from_reply, LlmResponse, ReplyParts};
use cobol_to_rust::analyzer::parse_cobol_source;

#[test]
fn test_extract_rust_code_with_markers() {
    let response = r#"Here is the converted code:

```rust
fn main() {
    println!("HELLO WORLD");
}
```

This is the equivalent Rust program."#;
    let code = extract_rust_code(response).unwrap();
    assert!(code.contains("fn main()"));
    assert!(code.contains("println!"));
    assert!(!code.contains("```"));
}

#[test]
fn test_extract_rust_code_generic_block() {
    let response = "```\nfn main() {\n    println!(\"test\");\n}\n```";
    let code = extract_rust_code(response).unwrap();
    assert!(code.contains("fn main()"));
}

#[test]
fn test_extract_rust_code_no_markers() {
    let response = "fn main() {\n    println!(\"test\");\n}";
    let code = extract_rust_code(response).unwrap();
    assert!(code.contains("fn main()"));
}

#[test]
fn test_extract_rust_code_fails_on_garbage() {
    let result = extract_rust_code("No code here, just text.");
    assert!(result.is_err());
}

#[test]
fn extract_rust_block_is_trimmed() {
    let code = extract_rust_code("x ```rust\n  fn main() {}  \n``` y").unwrap();
    assert_eq!(code, "fn main() {}");
}

#[test]
fn extract_unclosed_rust_block_is_refused_without_main() {
    assert!(matches!(extract_rust_code("```rust\nlet x = 1;"), Err(GenerateError::NoRustCode)));
    assert_eq!(GenerateError::NoRustCode.message(), "No Rust code found in LLM response");
}

#[test]
fn requests_carry_the_inputs() {
    let req = fix_request("fn main() { x }", "error: cannot find value `x`");
    assert!(req.user_prompt.contains("fn main() { x }"));
    assert!(req.user_prompt.contains("cannot find value"));
    assert_eq!(req.max_tokens, 8192);
    let req2 = output_fix_request("fn main() {}", "A", "B");
    assert!(req2.user_prompt.contains("fn main() {}"));
}

#[test]
fn conversion_request_and_result() {
    let src = "       IDENTIFICATION DIVISION.\n       PROGRAM-ID. P1.\n       PROCEDURE DIVISION.\n           STOP RUN.\n";
    let program = parse_cobol_source(src).unwrap();
    let req = conversion_request(&program, src);
    assert!(req.user_prompt.contains("PROGRAM-ID. P1."));
    let response: LlmResponse = response_from_reply(ReplyParts {
        first_text: Some("```rust\nfn main() {}\n```".to_string()),
        output_tokens: Some(12),
    });
    assert_eq!(response.tokens_used, Some(12));
    let result = generation_result(program, response).unwrap();
    assert_eq!(result.rust_code, "fn main() {}");
    assert_eq!(result.tokens_used, Some(12));
    assert_eq!(result.program.program_id, "P1");
}
