//! From a parsed COBOL program to the language model's requests, and from its replies to
//! Rust code.
use vstd::prelude::*;
use vstd::string::StringExecFns;

use crate::llm::LlmResponse;
use crate::prompt::{
    build_conversion_prompt, build_fix_prompt, build_output_fix_prompt, build_system_prompt,
    conversion_prompt, fix_prompt, output_fix_prompt, system_prompt,
};
use crate::statements::first_some;
use crate::text::{
    contains, find_chars, find_from, find_in, matches_at, matches_at_exec, str_chars, string_of,
    trim, trim_bounds, ws_end, CharClass,
};
use crate::types::CobolProgram;

verus! {

// ---------------------------------------------------------------------------
// Finding the code in a reply
// ---------------------------------------------------------------------------

/// The last line feed in `s[a..q]`.
pub open spec fn last_lf(s: Seq<char>, a: int, q: int) -> Option<int>
    decreases q - a,
{
    if q <= a {
        None
    } else if s[q - 1] == '\n' {
        Some(q - 1)
    } else {
        last_lf(s, a, q - 1)
    }
}

/// A code block opened by `tag` at `p`: after the tag, white space that holds a line
/// feed; the code runs from after the last line feed of that white space to the next
/// three backticks.
pub open spec fn fence_at(s: Seq<char>, p: int, tag: Seq<char>) -> Option<(int, int)> {
    let a = p + tag.len();
    if matches_at(s, tag, p) {
        match last_lf(s, a, ws_end(s, a)) {
            Some(k) => match find_from(s, "```"@, k + 1) {
                Some(f) => Some((k + 1, f)),
                None => None,
            },
            None => None,
        }
    } else {
        None
    }
}

pub open spec fn fence_f(s: Seq<char>, tag: Seq<char>) -> spec_fn(int) -> Option<(int, int)> {
    |p: int| fence_at(s, p, tag)
}

/// The Rust code in a model reply: the first ```` ```rust ```` block, else the first plain
/// ```` ``` ```` block, trimmed; else the whole reply, trimmed, when it holds `fn main()` or
/// `fn main (`.
pub open spec fn extracted_code(s: Seq<char>) -> Option<Seq<char>> {
    match first_some(s.len() as int, 0, fence_f(s, "```rust"@)) {
        Some((a, b)) => Some(trim(s.subrange(a, b))),
        None => match first_some(s.len() as int, 0, fence_f(s, "```"@)) {
            Some((a, b)) => Some(trim(s.subrange(a, b))),
            None => if contains(s, "fn main()"@) || contains(s, "fn main ("@) {
                Some(trim(s))
            } else {
                None
            },
        },
    }
}

/// Text with no white space at either end is its own trim, also with a line feed after it.
proof fn lemma_trim_code(code: Seq<char>)
    requires
        code.len() > 0,
        !crate::text::is_ws(code[0]),
        !crate::text::is_ws(code.last()),
    ensures
        trim(code) == code,
        trim(code.push('\n')) == code,
{
    crate::text::lemma_lead_ws(code, 0);
    assert(code.skip(0) =~= code);
    crate::text::lemma_trail_ws(code, 0);
    assert(code.take(code.len() as int) =~= code);
    let c = code.push('\n');
    crate::text::lemma_lead_ws(c, 0);
    assert(c.skip(0) =~= c);
    crate::text::lemma_trail_ws(c, 1);
    assert(c.take(c.len() - 1) =~= code);
}

/// A code block `fence`, a line feed, the code, a line feed and three backticks: the block
/// opened at the start is read as `(fence.len() + 1, fence.len() + 1 + code.len() + 1)`.
#[verifier::spinoff_prover]
proof fn lemma_fence_block(fence: Seq<char>, code: Seq<char>)
    requires
        fence.len() >= 3,
        fence.take(3) == "```"@,
        !fence.contains('\n'),
        forall|j: int| 3 <= j < fence.len() ==> !crate::text::is_ws(#[trigger] fence[j]),
        code.len() > 0,
        !crate::text::is_ws(code[0]),
        !code.contains('`'),
    ensures
        fence_at(fence + seq!['\n'] + code + seq!['\n'] + "```"@, 0, fence) == Some(
            (fence.len() + 1int, fence.len() + 1int + code.len() + 1),
        ),
{
    reveal_strlit("```");
    let fl = fence.len() as int;
    let cl = code.len() as int;
    let s = fence + seq!['\n'] + code + seq!['\n'] + "```"@;
    assert(s.subrange(0, fl) =~= fence);
    assert(matches_at(s, fence, 0));
    assert(s[fl] == '\n');
    assert(s[fl + 1] == code[0]);
    crate::text::lemma_run(s, fl, CharClass::Space);
    crate::text::lemma_run(s, fl + 1, CharClass::Space);
    assert(ws_end(s, fl) == fl + 1);
    assert(last_lf(s, fl, fl + 1) == Some(fl));
    let e = fl + 1 + cl + 1;
    assert(s.subrange(e, e + 3) =~= "```"@);
    assert forall|j: int| fl + 1 <= j < e implies !matches_at(s, "```"@, j) by {
        if matches_at(s, "```"@, j) {
            assert(s.subrange(j, j + 3)[0] == s[j]);
            if j < fl + 1 + cl {
                assert(s[j] == code[j - fl - 1]);
            }
        }
    }
    crate::text::lemma_find_from_found(s, "```"@, fl + 1, e);
}

proof fn lemma_first_some_none<T>(n: int, p: int, f: spec_fn(int) -> Option<T>)
    requires
        forall|q: int| p <= q <= n ==> #[trigger] f(q) is None,
    ensures
        first_some(n, p, f) is None,
    decreases n + 1 - p,
{
    if 0 <= p <= n {
        lemma_first_some_none(n, p + 1, f);
    }
}

/// A reply that is a ```` ```rust ```` block holding `code`, or a plain ```` ``` ```` block
/// holding it, gives back exactly `code` (for code with no backtick and no white space at
/// its ends).
#[verifier::spinoff_prover]
pub proof fn lemma_extract_fenced_code(code: Seq<char>)
    requires
        code.len() > 0,
        !crate::text::is_ws(code[0]),
        !crate::text::is_ws(code.last()),
        !code.contains('`'),
    ensures
        extracted_code("```rust\n"@ + code + "\n```"@) == Some(code),
        extracted_code("```\n"@ + code + "\n```"@) == Some(code),
{
    reveal_strlit("```rust\n");
    reveal_strlit("\n```");
    reveal_strlit("```rust");
    reveal_strlit("```\n");
    reveal_strlit("```");
    lemma_trim_code(code);
    let rs = "```rust"@;
    let s1 = "```rust\n"@ + code + "\n```"@;
    assert(s1 =~= rs + seq!['\n'] + code + seq!['\n'] + "```"@);
    assert(rs.take(3) =~= "```"@);
    assert(!rs.contains('\n')) by {
        if rs.contains('\n') {
            let k = choose|k: int| 0 <= k < rs.len() && rs[k] == '\n';
        }
    }
    lemma_fence_block(rs, code);
    assert(s1.subrange(8, 8 + code.len() as int + 1) =~= code.push('\n'));
    let pl = "```"@;
    let s2 = "```\n"@ + code + "\n```"@;
    assert(s2 =~= pl + seq!['\n'] + code + seq!['\n'] + "```"@);
    assert(pl.take(3) =~= "```"@);
    assert(!pl.contains('\n')) by {
        if pl.contains('\n') {
            let k = choose|k: int| 0 <= k < pl.len() && pl[k] == '\n';
        }
    }
    lemma_fence_block(pl, code);
    assert(s2.subrange(4, 4 + code.len() as int + 1) =~= code.push('\n'));
    assert forall|q: int| 0 <= q <= s2.len() implies #[trigger] fence_f(s2, rs)(q) is None by {
        if matches_at(s2, rs, q) {
            let w = s2.subrange(q, q + 7);
            assert(w[0] == s2[q]);
            assert(w[3] == s2[q + 3]);
            if q == 0 {
                assert(s2[3] == '\n');
            } else if q < 4 + code.len() {
                if q >= 4 {
                    assert(s2[q] == code[q - 4]);
                } else {
                    assert(s2[q] == "```\n"@[q]);
                }
            } else {
                assert(q + 7 > s2.len());
            }
        }
    }
    lemma_first_some_none(s2.len() as int, 0, fence_f(s2, rs));
}

/// Why no code could be taken from a reply.
#[derive(Debug, Clone, Copy, PartialEq, Eq, Structural)]
pub enum GenerateError {
    NoRustCode,
}

impl GenerateError {
    pub fn message(&self) -> (r: &'static str)
        ensures
            r@ == "No Rust code found in LLM response"@,
    {
        "No Rust code found in LLM response"
    }
}

fn fence_at_exec(v: &Vec<char>, tag: &Vec<char>, p: usize) -> (r: Option<(usize, usize)>)
    requires
        p <= v@.len(),
    ensures
        match r {
            Some((a, b)) => fence_at(v@, p as int, tag@) == Some((a as int, b as int)) && a <= b
                <= v@.len(),
            None => fence_at(v@, p as int, tag@) is None,
        },
{
    let n = v.len();
    if !matches_at_exec(v, tag, p) {
        return None;
    }
    let a = p + tag.len();
    let q = crate::text::skip_class(v, a, CharClass::Space);
    let mut k = q;
    while k > a && v[k - 1] != '\n'
        invariant
            a <= k <= q <= n,
            n == v@.len(),
            last_lf(v@, a as int, q as int) == last_lf(v@, a as int, k as int),
        decreases k - a,
    {
        k = k - 1;
    }
    if k == a {
        return None;
    }
    let fence = str_chars("```");
    match find_in(v, &fence, k, n) {
        Some(f) => {
            proof {
                assert(v@.subrange(0, n as int) =~= v@);
                crate::text::lemma_find_from_props(v@, fence@, k as int);
            }
            Some((k, f))
        },
        None => {
            proof {
                assert(v@.subrange(0, n as int) =~= v@);
            }
            None
        },
    }
}

fn fence_find(v: &Vec<char>, tag: &str) -> (r: Option<(usize, usize)>)
    ensures
        match r {
            Some((a, b)) => first_some(v@.len() as int, 0, fence_f(v@, tag@)) == Some((a as int, b as int))
                && a <= b <= v@.len(),
            None => first_some(v@.len() as int, 0, fence_f(v@, tag@)) is None,
        },
{
    let tv = str_chars(tag);
    let n = v.len();
    let mut p: usize = 0;
    while p < n
        invariant
            n == v@.len(),
            p <= n,
            tv@ == tag@,
            first_some(n as int, 0, fence_f(v@, tag@)) == first_some(n as int, p as int, fence_f(v@, tag@)),
        decreases n - p,
    {
        if let Some(m) = fence_at_exec(v, &tv, p) {
            return Some(m);
        }
        p = p + 1;
    }
    proof {
        assert(first_some(n as int, n + 1, fence_f(v@, tag@)) is None);
    }
    fence_at_exec(v, &tv, n)
}

/// Extract Rust code from an LLM response that may contain markdown code blocks.
pub fn extract_rust_code(response: &str) -> (r: Result<String, GenerateError>)
    ensures
        match extracted_code(response@) {
            Some(code) => r matches Ok(c) && c@ == code,
            None => r == Err::<String, GenerateError>(GenerateError::NoRustCode),
        },
{
    let v = str_chars(response);
    if let Some((a, b)) = fence_find(&v, "```rust") {
        let (x, y) = trim_bounds(&v, a, b);
        return Ok(string_of(&v, x, y));
    }
    if let Some((a, b)) = fence_find(&v, "```") {
        let (x, y) = trim_bounds(&v, a, b);
        return Ok(string_of(&v, x, y));
    }
    if find_chars(&v, "fn main()").is_some() || find_chars(&v, "fn main (").is_some() {
        let (x, y) = trim_bounds(&v, 0, v.len());
        proof {
            assert(v@.subrange(0, v@.len() as int) =~= v@);
        }
        return Ok(string_of(&v, x, y));
    }
    Err(GenerateError::NoRustCode)
}

// ---------------------------------------------------------------------------
// Requests and results
// ---------------------------------------------------------------------------

/// What the model is asked: the system and user prompts and the token limit. (The
/// sampling temperature, a float, is added where the request is sent.)
pub struct PromptRequest {
    pub system_prompt: String,
    pub user_prompt: String,
    pub max_tokens: u32,
}

/// The request that converts `program`, whose resolved source is `source`.
pub fn conversion_request(program: &CobolProgram, source: &str) -> (r: PromptRequest)
    ensures
        r.system_prompt@ == system_prompt(),
        r.user_prompt@ == conversion_prompt(*program, source@),
        r.max_tokens == 8192,
{
    PromptRequest {
        system_prompt: build_system_prompt(),
        user_prompt: build_conversion_prompt(program, source),
        max_tokens: 8192,
    }
}

/// The request that asks to fix code that does not compile or run.
pub fn fix_request(code: &str, errors: &str) -> (r: PromptRequest)
    ensures
        r.system_prompt@ == system_prompt(),
        r.user_prompt@ == fix_prompt(code@, errors@),
        r.max_tokens == 8192,
{
    PromptRequest {
        system_prompt: build_system_prompt(),
        user_prompt: build_fix_prompt(code, errors),
        max_tokens: 8192,
    }
}

/// The request that asks to fix code whose output differs from the expected one.
pub fn output_fix_request(code: &str, expected: &str, actual: &str) -> (r: PromptRequest)
    ensures
        r.system_prompt@ == system_prompt(),
        r.user_prompt@ == output_fix_prompt(code@, expected@, actual@),
        r.max_tokens == 8192,
{
    PromptRequest {
        system_prompt: build_system_prompt(),
        user_prompt: build_output_fix_prompt(code, expected, actual),
        max_tokens: 8192,
    }
}

/// Result of a code generation attempt.
pub struct GenerationResult {
    pub rust_code: String,
    pub program: CobolProgram,
    pub tokens_used: Option<u32>,
}

/// The generation result that a model reply to the conversion request of `program` gives.
pub fn generation_result(program: CobolProgram, response: LlmResponse) -> (r: Result<GenerationResult, GenerateError>)
    ensures
        match extracted_code(response.content@) {
            Some(code) => r matches Ok(g) && g.rust_code@ == code && g.program == program
                && g.tokens_used == response.tokens_used,
            None => r == Err::<GenerationResult, GenerateError>(GenerateError::NoRustCode),
        },
{
    let rust_code = match extract_rust_code(response.content.as_str()) {
        Ok(c) => c,
        Err(e) => return Err(e),
    };
    Ok(GenerationResult { rust_code, program, tokens_used: response.tokens_used })
}

} // verus!
