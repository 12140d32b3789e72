//! Prompts for the language model that converts COBOL to Rust.
use vstd::prelude::*;
use vstd::string::StringExecFns;

use crate::text::{decimal, lemma_occurs_between, occurs_in, push_decimal};
use crate::types::CobolProgram;

verus! {

/// The system prompt text.
pub open spec fn system_prompt() -> Seq<char> {
    "You are an expert COBOL-to-Rust converter. You convert COBOL programs to idiomatic, correct Rust code.\n\n## Critical Rules\n\n1. **Financial precision**: NEVER use f32 or f64 for numeric values that have decimal places in COBOL PIC clauses. Always use `rust_decimal::Decimal` for PIC 9(n)V9(m) patterns.\n2. **Output must be identical**: The Rust program must produce EXACTLY the same output as the COBOL program, character for character.\n3. **Complete programs**: Generate complete, compilable Rust programs with `fn main()` and all necessary `use` statements.\n4. **Error handling**: Use `anyhow::Result` for error handling where appropriate.\n\n## PIC Clause Mapping\n\n- `PIC 9(n)` (no decimal) → Use appropriate integer type (u8, u16, u32, u64) based on digit count\n- `PIC 9(n)V9(m)` → `rust_decimal::Decimal` with correct scale\n- `PIC S9(n)V9(m)` → `rust_decimal::Decimal` (signed)\n- `PIC X(n)` → `String`\n- `PIC A(n)` → `String`\n- `PIC 9` → `u8`\n\n## COBOL Statement Mapping\n\n- `DISPLAY` → `println!()` or `print!()`\n- `MOVE x TO y` → `y = x` (with appropriate type conversion)\n- `ADD x TO y` → `y += x` or `y = y + x`\n- `SUBTRACT x FROM y` → `y -= x`\n- `MULTIPLY x BY y` → `y *= x`\n- `DIVIDE x INTO y` → `y /= x`\n- `COMPUTE x = expr` → `x = expr` (translate arithmetic operators)\n- `PERFORM paragraph` → function call\n- `PERFORM VARYING` → `for` loop\n- `PERFORM UNTIL` → `while` or `loop` with condition\n- `STOP RUN` → `return` or process exit\n- `IF...THEN...ELSE...END-IF` → `if...else`\n\n## Output Format\n\nReturn ONLY the Rust source code, wrapped in ```rust ... ``` markers. Do not include explanations outside the code block."@
}

/// Build the system prompt for COBOL-to-Rust conversion.
pub fn build_system_prompt() -> (r: String)
    ensures
        r@ == system_prompt(),
{
    String::from_str("You are an expert COBOL-to-Rust converter. You convert COBOL programs to idiomatic, correct Rust code.\n\n## Critical Rules\n\n1. **Financial precision**: NEVER use f32 or f64 for numeric values that have decimal places in COBOL PIC clauses. Always use `rust_decimal::Decimal` for PIC 9(n)V9(m) patterns.\n2. **Output must be identical**: The Rust program must produce EXACTLY the same output as the COBOL program, character for character.\n3. **Complete programs**: Generate complete, compilable Rust programs with `fn main()` and all necessary `use` statements.\n4. **Error handling**: Use `anyhow::Result` for error handling where appropriate.\n\n## PIC Clause Mapping\n\n- `PIC 9(n)` (no decimal) → Use appropriate integer type (u8, u16, u32, u64) based on digit count\n- `PIC 9(n)V9(m)` → `rust_decimal::Decimal` with correct scale\n- `PIC S9(n)V9(m)` → `rust_decimal::Decimal` (signed)\n- `PIC X(n)` → `String`\n- `PIC A(n)` → `String`\n- `PIC 9` → `u8`\n\n## COBOL Statement Mapping\n\n- `DISPLAY` → `println!()` or `print!()`\n- `MOVE x TO y` → `y = x` (with appropriate type conversion)\n- `ADD x TO y` → `y += x` or `y = y + x`\n- `SUBTRACT x FROM y` → `y -= x`\n- `MULTIPLY x BY y` → `y *= x`\n- `DIVIDE x INTO y` → `y /= x`\n- `COMPUTE x = expr` → `x = expr` (translate arithmetic operators)\n- `PERFORM paragraph` → function call\n- `PERFORM VARYING` → `for` loop\n- `PERFORM UNTIL` → `while` or `loop` with condition\n- `STOP RUN` → `return` or process exit\n- `IF...THEN...ELSE...END-IF` → `if...else`\n\n## Output Format\n\nReturn ONLY the Rust source code, wrapped in ```rust ... ``` markers. Do not include explanations outside the code block.")
}

/// The user prompt for converting `program`, whose source text is `source`.
pub open spec fn conversion_prompt(program: CobolProgram, source: Seq<char>) -> Seq<char> {
    "Convert the following COBOL program to Rust.\n\n"@ + "Program ID: "@ + program.program_id@
        + "\n"@ + (match program.data {
        Some(d) => if d.working_storage@.len() > 0 {
            "Data items: "@ + decimal(d.working_storage@.len()) + " variables in WORKING-STORAGE\n"@
        } else {
            Seq::empty()
        },
        None => Seq::empty(),
    }) + (match program.procedure {
        Some(p) => "Paragraphs: "@ + decimal(p.paragraphs@.len()) + "\n"@,
        None => Seq::empty(),
    }) + "\n## COBOL Source Code\n\n```cobol\n"@ + source + "\n```\n\n"@
        + "Generate the equivalent Rust program. "@
        + "The output must be character-for-character identical to the COBOL program's output. "@
        + "Use rust_decimal::Decimal for any PIC clause with decimal positions (V).\n"@
}

/// Build the user prompt for a specific COBOL program conversion.
pub fn build_conversion_prompt(program: &CobolProgram, source: &str) -> (r: String)
    ensures
        r@ == conversion_prompt(*program, source@),
{
    let mut prompt = String::new();
    prompt.append("Convert the following COBOL program to Rust.\n\n");
    prompt.append("Program ID: ");
    prompt.append(program.program_id.as_str());
    prompt.append("\n");
    if let Some(data) = &program.data {
        if data.working_storage.len() > 0 {
            prompt.append("Data items: ");
            push_decimal(&mut prompt, data.working_storage.len());
            prompt.append(" variables in WORKING-STORAGE\n");
        }
    }
    if let Some(proc_div) = &program.procedure {
        prompt.append("Paragraphs: ");
        push_decimal(&mut prompt, proc_div.paragraphs.len());
        prompt.append("\n");
    }
    prompt.append("\n## COBOL Source Code\n\n```cobol\n");
    prompt.append(source);
    prompt.append("\n```\n\n");
    prompt.append("Generate the equivalent Rust program. ");
    prompt.append(
        "The output must be character-for-character identical to the COBOL program's output. ",
    );
    prompt.append("Use rust_decimal::Decimal for any PIC clause with decimal positions (V).\n");
    prompt
}

pub open spec fn fix_prompt(code: Seq<char>, errors: Seq<char>) -> Seq<char> {
    "The following Rust code has compilation errors. Fix them.\n\n"@
        + "## Current Rust Code\n\n```rust\n"@ + code + "\n```\n\n"@
        + "## Compilation Errors\n\n```\n"@ + errors + "\n```\n\n"@
        + "Return the COMPLETE fixed Rust source code wrapped in ```rust ... ``` markers.\n"@
}

/// Build a fix prompt when the generated code has compilation errors.
pub fn build_fix_prompt(rust_code: &str, errors: &str) -> (r: String)
    ensures
        r@ == fix_prompt(rust_code@, errors@),
{
    let mut prompt = String::new();
    prompt.append("The following Rust code has compilation errors. Fix them.\n\n");
    prompt.append("## Current Rust Code\n\n```rust\n");
    prompt.append(rust_code);
    prompt.append("\n```\n\n");
    prompt.append("## Compilation Errors\n\n```\n");
    prompt.append(errors);
    prompt.append("\n```\n\n");
    prompt.append(
        "Return the COMPLETE fixed Rust source code wrapped in ```rust ... ``` markers.\n",
    );
    prompt
}

pub open spec fn output_fix_prompt(code: Seq<char>, expected: Seq<char>, actual: Seq<char>) -> Seq<char> {
    "The Rust code compiles but produces incorrect output. Fix it.\n\n"@
        + "## Current Rust Code\n\n```rust\n"@ + code + "\n```\n\n"@
        + "## Expected Output\n\n```\n"@ + expected + "\n```\n\n"@
        + "## Actual Output\n\n```\n"@ + actual + "\n```\n\n"@
        + "Return the COMPLETE fixed Rust source code wrapped in ```rust ... ``` markers.\n"@
}

/// Build a fix prompt when the output doesn't match.
pub fn build_output_fix_prompt(rust_code: &str, expected: &str, actual: &str) -> (r: String)
    ensures
        r@ == output_fix_prompt(rust_code@, expected@, actual@),
{
    let mut prompt = String::new();
    prompt.append("The Rust code compiles but produces incorrect output. Fix it.\n\n");
    prompt.append("## Current Rust Code\n\n```rust\n");
    prompt.append(rust_code);
    prompt.append("\n```\n\n");
    prompt.append("## Expected Output\n\n```\n");
    prompt.append(expected);
    prompt.append("\n```\n\n");
    prompt.append("## Actual Output\n\n```\n");
    prompt.append(actual);
    prompt.append("\n```\n\n");
    prompt.append(
        "Return the COMPLETE fixed Rust source code wrapped in ```rust ... ``` markers.\n",
    );
    prompt
}

/// The conversion prompt names the program and holds its whole source in a COBOL code
/// block under its heading.
pub proof fn lemma_conversion_prompt_holds_source(program: CobolProgram, source: Seq<char>)
    ensures
        occurs_in("\n## COBOL Source Code\n\n```cobol\n"@ + source + "\n```\n\n"@, conversion_prompt(program, source)),
        occurs_in("Program ID: "@ + program.program_id@ + "\n"@, conversion_prompt(program, source)),
{
    let c = conversion_prompt(program, source);
    let data: Seq<char> = match program.data {
        Some(d) => if d.working_storage@.len() > 0 {
            "Data items: "@ + decimal(d.working_storage@.len()) + " variables in WORKING-STORAGE\n"@
        } else {
            Seq::empty()
        },
        None => Seq::empty(),
    };
    let paras: Seq<char> = match program.procedure {
        Some(p) => "Paragraphs: "@ + decimal(p.paragraphs@.len()) + "\n"@,
        None => Seq::empty(),
    };
    let head = "Convert the following COBOL program to Rust.\n\n"@;
    let id = "Program ID: "@ + program.program_id@ + "\n"@;
    let block = "\n## COBOL Source Code\n\n```cobol\n"@ + source + "\n```\n\n"@;
    let tail = "Generate the equivalent Rust program. "@
        + "The output must be character-for-character identical to the COBOL program's output. "@
        + "Use rust_decimal::Decimal for any PIC clause with decimal positions (V).\n"@;
    assert(c =~= (head + id + data + paras) + block + tail);
    lemma_occurs_between(head + id + data + paras, block, tail);
    assert(c =~= head + id + (data + paras + block + tail));
    lemma_occurs_between(head, id, data + paras + block + tail);
}

/// The compile-fix prompt holds the code in a Rust code block and the errors in a code
/// block, each under its heading.
pub proof fn lemma_fix_prompt_holds_inputs(code: Seq<char>, errors: Seq<char>)
    ensures
        occurs_in("## Current Rust Code\n\n```rust\n"@ + code + "\n```\n\n"@, fix_prompt(code, errors)),
        occurs_in("## Compilation Errors\n\n```\n"@ + errors + "\n```\n\n"@, fix_prompt(code, errors)),
{
    let c = fix_prompt(code, errors);
    let h = "The following Rust code has compilation errors. Fix them.\n\n"@;
    let b1 = "## Current Rust Code\n\n```rust\n"@ + code + "\n```\n\n"@;
    let b2 = "## Compilation Errors\n\n```\n"@ + errors + "\n```\n\n"@;
    let t = "Return the COMPLETE fixed Rust source code wrapped in ```rust ... ``` markers.\n"@;
    assert(c =~= h + b1 + (b2 + t));
    lemma_occurs_between(h, b1, b2 + t);
    assert(c =~= (h + b1) + b2 + t);
    lemma_occurs_between(h + b1, b2, t);
}

/// The output-fix prompt holds the code, the expected output and the actual output, each
/// in a code block under its own heading.
pub proof fn lemma_output_fix_prompt_holds_inputs(code: Seq<char>, expected: Seq<char>, actual: Seq<char>)
    ensures
        occurs_in("## Current Rust Code\n\n```rust\n"@ + code + "\n```\n\n"@, output_fix_prompt(code, expected, actual)),
        occurs_in("## Expected Output\n\n```\n"@ + expected + "\n```\n\n"@, output_fix_prompt(code, expected, actual)),
        occurs_in("## Actual Output\n\n```\n"@ + actual + "\n```\n\n"@, output_fix_prompt(code, expected, actual)),
{
    let c = output_fix_prompt(code, expected, actual);
    let h = "The Rust code compiles but produces incorrect output. Fix it.\n\n"@;
    let b1 = "## Current Rust Code\n\n```rust\n"@ + code + "\n```\n\n"@;
    let b2 = "## Expected Output\n\n```\n"@ + expected + "\n```\n\n"@;
    let b3 = "## Actual Output\n\n```\n"@ + actual + "\n```\n\n"@;
    let t = "Return the COMPLETE fixed Rust source code wrapped in ```rust ... ``` markers.\n"@;
    assert(c =~= h + b1 + (b2 + b3 + t));
    lemma_occurs_between(h, b1, b2 + b3 + t);
    assert(c =~= (h + b1) + b2 + (b3 + t));
    lemma_occurs_between(h + b1, b2, b3 + t);
    assert(c =~= (h + b1 + b2) + b3 + t);
    lemma_occurs_between(h + b1 + b2, b3, t);
}

} // verus!
