//! The verify-and-fix loop: the decisions between compiling, running, comparing the
//! output and asking the model for a fix. Whoever drives the loop performs each action and
//! reports what came of it.
use vstd::prelude::*;
use vstd::string::StringExecFns;

use crate::comparator::{compare_outputs, comparison, diff_report, format_diff};
use crate::generator::{fix_request, output_fix_request, PromptRequest};
use crate::prompt::{fix_prompt, output_fix_prompt, system_prompt};
use crate::text::{contains, decimal, find_chars, push_decimal, str_chars};

verus! {

/// Maximum number of fix attempts before giving up.
pub const MAX_FIX_ATTEMPTS: u32 = 5;

/// Result of a compilation check (or of a run).
#[derive(Debug)]
pub struct CompileResult {
    pub success: bool,
    pub stderr: String,
    pub stdout: String,
}

/// Result of the verification and fix loop.
#[derive(Debug)]
pub struct VerifyResult {
    pub success: bool,
    pub rust_code: String,
    pub attempts: u32,
    pub final_error: Option<String>,
}

/// The next step of the loop.
pub enum FixAction {
    /// Write the code into a new project in the directory `dir_name` (under the work
    /// directory) and run `cargo check` there.
    Check { dir_name: String, code: String },
    /// Run the checked project and capture its output.
    Run,
    /// Send this request to the model; the code in its reply becomes the current code.
    Ask(PromptRequest),
    /// The loop is over.
    Done(VerifyResult),
}

/// The loop's state: the current code and the number of attempts started.
pub struct FixLoop {
    current_code: String,
    attempts: u32,
}

/// `a` finishes the loop with this outcome.
pub open spec fn done_with(a: FixAction, success: bool, code: Seq<char>, attempts: u32, err: Option<Seq<char>>) -> bool {
    a matches FixAction::Done(v) && v.success == success && v.rust_code@ == code && v.attempts
        == attempts && crate::exec_sql::opt_str(v.final_error) == err
}

/// `a` asks the model with the system prompt and `user`.
pub open spec fn asks(a: FixAction, user: Seq<char>) -> bool {
    a matches FixAction::Ask(q) && q.system_prompt@ == system_prompt() && q.user_prompt@ == user
        && q.max_tokens == 8192
}

/// What follows a `cargo check` of `code` at attempt `attempts`: a failed check is
/// fixed, unless this was the last attempt; a passed one is run when there is an expected
/// output, and ends the loop otherwise.
pub open spec fn after_check_is(
    a: FixAction,
    code: Seq<char>,
    attempts: u32,
    ok: bool,
    stderr: Seq<char>,
    has_expected: bool,
) -> bool {
    if !ok {
        if attempts >= MAX_FIX_ATTEMPTS {
            done_with(a, false, code, attempts, Some("Compilation failed: "@ + stderr))
        } else {
            asks(a, fix_prompt(code, stderr))
        }
    } else if has_expected {
        a is Run
    } else {
        done_with(a, true, code, attempts, None)
    }
}

/// What follows a run of `code`: a failed run is fixed, an output that differs from the
/// expected one is fixed, unless this was the last attempt; a matching output ends the
/// loop with success.
pub open spec fn after_run_is(
    a: FixAction,
    code: Seq<char>,
    attempts: u32,
    ok: bool,
    stdout: Seq<char>,
    stderr: Seq<char>,
    expected: Seq<char>,
) -> bool {
    if !ok {
        if attempts >= MAX_FIX_ATTEMPTS {
            done_with(a, false, code, attempts, Some("Runtime error: "@ + stderr))
        } else {
            asks(a, fix_prompt(code, stderr))
        }
    } else if !comparison(expected, stdout).matches {
        if attempts >= MAX_FIX_ATTEMPTS {
            done_with(
                a,
                false,
                code,
                attempts,
                Some("Output mismatch: "@ + diff_report(comparison(expected, stdout))),
            )
        } else {
            asks(a, output_fix_prompt(code, expected, stdout))
        }
    } else {
        done_with(a, true, code, attempts, None)
    }
}

impl FixLoop {
    pub closed spec fn code(&self) -> Seq<char> {
        self.current_code@
    }

    pub closed spec fn attempts(&self) -> u32 {
        self.attempts
    }

    /// A loop that has not started an attempt yet, with `initial_code`.
    pub fn new(initial_code: &str) -> (r: Self)
        ensures
            r.code() == initial_code@,
            r.attempts() == 0,
    {
        FixLoop { current_code: String::from_str(initial_code), attempts: 0 }
    }

    /// The current code.
    pub fn current_code(&self) -> (r: &str)
        ensures
            r@ == self.code(),
    {
        self.current_code.as_str()
    }

    /// The number of attempts started.
    pub fn attempts_made(&self) -> (r: u32)
        ensures
            r == self.attempts(),
    {
        self.attempts
    }

    /// Start the next attempt: check the current code in the directory `attempt_N`, `N`
    /// being the attempt's number.
    pub fn start_attempt(&mut self) -> (r: FixAction)
        requires
            old(self).attempts() < MAX_FIX_ATTEMPTS,
        ensures
            final(self).attempts() == old(self).attempts() + 1,
            final(self).code() == old(self).code(),
            r matches FixAction::Check { dir_name, code } && dir_name@ == "attempt_"@ + decimal(
                final(self).attempts() as nat,
            ) && code@ == old(self).code(),
    {
        self.attempts = self.attempts + 1;
        let mut dir_name = String::from_str("attempt_");
        push_decimal(&mut dir_name, self.attempts as usize);
        FixAction::Check { dir_name, code: self.current_code.clone() }
    }

    /// What follows the `cargo check` of the current attempt.
    pub fn after_check(&self, check: &CompileResult, has_expected: bool) -> (r: FixAction)
        ensures
            after_check_is(
                r,
                self.code(),
                self.attempts(),
                check.success,
                check.stderr@,
                has_expected,
            ),
    {
        if !check.success {
            if self.attempts >= MAX_FIX_ATTEMPTS {
                let mut e = String::from_str("Compilation failed: ");
                e.append(check.stderr.as_str());
                return FixAction::Done(
                    VerifyResult {
                        success: false,
                        rust_code: self.current_code.clone(),
                        attempts: self.attempts,
                        final_error: Some(e),
                    },
                );
            }
            return FixAction::Ask(fix_request(self.current_code.as_str(), check.stderr.as_str()));
        }
        if has_expected {
            FixAction::Run
        } else {
            FixAction::Done(
                VerifyResult {
                    success: true,
                    rust_code: self.current_code.clone(),
                    attempts: self.attempts,
                    final_error: None,
                },
            )
        }
    }

    /// What follows the run of the current attempt, whose output should be `expected`.
    pub fn after_run(&self, run: &CompileResult, expected: &str) -> (r: FixAction)
        ensures
            after_run_is(
                r,
                self.code(),
                self.attempts(),
                run.success,
                run.stdout@,
                run.stderr@,
                expected@,
            ),
    {
        if !run.success {
            if self.attempts >= MAX_FIX_ATTEMPTS {
                let mut e = String::from_str("Runtime error: ");
                e.append(run.stderr.as_str());
                return FixAction::Done(
                    VerifyResult {
                        success: false,
                        rust_code: self.current_code.clone(),
                        attempts: self.attempts,
                        final_error: Some(e),
                    },
                );
            }
            return FixAction::Ask(fix_request(self.current_code.as_str(), run.stderr.as_str()));
        }
        let cmp = compare_outputs(expected, run.stdout.as_str());
        if !cmp.matches {
            let diff = format_diff(&cmp);
            if self.attempts >= MAX_FIX_ATTEMPTS {
                let mut e = String::from_str("Output mismatch: ");
                e.append(diff.as_str());
                return FixAction::Done(
                    VerifyResult {
                        success: false,
                        rust_code: self.current_code.clone(),
                        attempts: self.attempts,
                        final_error: Some(e),
                    },
                );
            }
            return FixAction::Ask(
                output_fix_request(self.current_code.as_str(), expected, run.stdout.as_str()),
            );
        }
        FixAction::Done(
            VerifyResult {
                success: true,
                rust_code: self.current_code.clone(),
                attempts: self.attempts,
                final_error: None,
            },
        )
    }

    /// The model's fixed code becomes the current code.
    pub fn accept_fix(&mut self, code: String)
        ensures
            final(self).code() == code@,
            final(self).attempts() == old(self).attempts(),
    {
        self.current_code = code;
    }
}

// ---------------------------------------------------------------------------
// Laws
// ---------------------------------------------------------------------------

/// The loop asks for a fix only before its last attempt, so that the next attempt can
/// start: it never runs more than `MAX_FIX_ATTEMPTS` attempts.
pub proof fn lemma_asks_only_before_last_attempt(
    a: FixAction,
    code: Seq<char>,
    attempts: u32,
    ok: bool,
    stdout: Seq<char>,
    stderr: Seq<char>,
    expected: Seq<char>,
    has_expected: bool,
)
    ensures
        after_check_is(a, code, attempts, ok, stderr, has_expected) && a is Ask ==> attempts
            < MAX_FIX_ATTEMPTS,
        after_run_is(a, code, attempts, ok, stdout, stderr, expected) && a is Ask ==> attempts
            < MAX_FIX_ATTEMPTS,
{
}

/// A finished loop succeeds exactly when it reports no error, and it reports the code
/// and the number of attempts it was in.
pub proof fn lemma_done_success_iff_no_error(
    a: FixAction,
    code: Seq<char>,
    attempts: u32,
    ok: bool,
    stdout: Seq<char>,
    stderr: Seq<char>,
    expected: Seq<char>,
    has_expected: bool,
)
    requires
        after_check_is(a, code, attempts, ok, stderr, has_expected) || after_run_is(
            a,
            code,
            attempts,
            ok,
            stdout,
            stderr,
            expected,
        ),
    ensures
        a matches FixAction::Done(v) ==> (v.success <==> v.final_error is None) && v.rust_code@
            == code && v.attempts == attempts,
{
}

// ---------------------------------------------------------------------------
// Whole runs of the loop
// ---------------------------------------------------------------------------

/// What one attempt came to: the outcome of `cargo check`, and the outcome of the run
/// (looked at only when the check passed and an output is expected).
pub struct AttemptOutcome {
    pub check_ok: bool,
    pub check_stderr: Seq<char>,
    pub run_ok: bool,
    pub run_stdout: Seq<char>,
    pub run_stderr: Seq<char>,
}

/// How an attempt ends: the loop is over, or the model is asked with this user prompt.
pub enum AttemptEnd {
    Done { success: bool, error: Option<Seq<char>> },
    Ask(Seq<char>),
}

/// How attempt number `attempt` of `code` ends, given its outcome.
pub open spec fn attempt_end(code: Seq<char>, attempt: u32, o: AttemptOutcome, expected: Option<Seq<char>>) -> AttemptEnd {
    if !o.check_ok {
        if attempt >= MAX_FIX_ATTEMPTS {
            AttemptEnd::Done { success: false, error: Some("Compilation failed: "@ + o.check_stderr) }
        } else {
            AttemptEnd::Ask(fix_prompt(code, o.check_stderr))
        }
    } else {
        match expected {
            None => AttemptEnd::Done { success: true, error: None },
            Some(e) => if !o.run_ok {
                if attempt >= MAX_FIX_ATTEMPTS {
                    AttemptEnd::Done { success: false, error: Some("Runtime error: "@ + o.run_stderr) }
                } else {
                    AttemptEnd::Ask(fix_prompt(code, o.run_stderr))
                }
            } else if !comparison(e, o.run_stdout).matches {
                if attempt >= MAX_FIX_ATTEMPTS {
                    AttemptEnd::Done {
                        success: false,
                        error: Some("Output mismatch: "@ + diff_report(comparison(e, o.run_stdout))),
                    }
                } else {
                    AttemptEnd::Ask(output_fix_prompt(code, e, o.run_stdout))
                }
            } else {
                AttemptEnd::Done { success: true, error: None }
            },
        }
    }
}

/// `a` is the action that ends an attempt as `end` says, for `code` at attempt `attempt`.
pub open spec fn action_ends(a: FixAction, end: AttemptEnd, code: Seq<char>, attempt: u32) -> bool {
    match end {
        AttemptEnd::Done { success, error } => done_with(a, success, code, attempt, error),
        AttemptEnd::Ask(p) => asks(a, p),
    }
}

/// The steps of `FixLoop` end each attempt as `attempt_end` says: `after_check` ends it,
/// unless it asks for a run (exactly when the check passed and an output is expected), and
/// then `after_run` ends it.
pub proof fn lemma_steps_end_attempt(
    check_action: FixAction,
    run_action: FixAction,
    code: Seq<char>,
    attempt: u32,
    o: AttemptOutcome,
    expected: Option<Seq<char>>,
)
    requires
        after_check_is(check_action, code, attempt, o.check_ok, o.check_stderr, expected is Some),
        expected matches Some(e) ==> after_run_is(
            run_action,
            code,
            attempt,
            o.run_ok,
            o.run_stdout,
            o.run_stderr,
            e,
        ),
    ensures
        (check_action is Run) <==> (o.check_ok && expected is Some),
        !(check_action is Run) ==> action_ends(check_action, attempt_end(code, attempt, o, expected), code, attempt),
        check_action is Run ==> action_ends(run_action, attempt_end(code, attempt, o, expected), code, attempt),
{
}

/// The outcome of a whole run of the loop.
pub struct RunModel {
    pub success: bool,
    pub code: Seq<char>,
    pub attempts: u32,
    pub error: Option<Seq<char>>,
    /// The user prompts sent to the model, in order.
    pub prompts: Seq<Seq<char>>,
}

/// The loop run on `code` after `made` attempts, given the outcomes of the next attempts
/// and the code taken from the model's replies; `None` when the outcomes or replies run
/// out before the loop ends.
pub open spec fn fix_run(
    code: Seq<char>,
    made: u32,
    outcomes: Seq<AttemptOutcome>,
    fixes: Seq<Seq<char>>,
    expected: Option<Seq<char>>,
) -> Option<RunModel>
    decreases MAX_FIX_ATTEMPTS - made,
{
    if made >= MAX_FIX_ATTEMPTS || outcomes.len() == 0 {
        None
    } else {
        let attempt = (made + 1) as u32;
        match attempt_end(code, attempt, outcomes[0], expected) {
            AttemptEnd::Done { success, error } => Some(
                RunModel { success, code, attempts: attempt, error, prompts: Seq::empty() },
            ),
            AttemptEnd::Ask(p) => if fixes.len() == 0 {
                None
            } else {
                match fix_run(fixes[0], attempt, outcomes.drop_first(), fixes.drop_first(), expected) {
                    Some(r) => Some(RunModel { prompts: seq![p] + r.prompts, ..r }),
                    None => None,
                }
            },
        }
    }
}

/// The attempt passed: it compiled, and when an output is expected, it ran and its output
/// matched.
pub open spec fn attempt_passed(o: AttemptOutcome, expected: Option<Seq<char>>) -> bool {
    o.check_ok && (expected matches Some(e) ==> o.run_ok && comparison(e, o.run_stdout).matches)
}

/// A finished run made between one and `MAX_FIX_ATTEMPTS` attempts; it succeeded exactly
/// when it reports no error, and exactly when its last attempt passed; a failed run made
/// every attempt; the model was asked once after each attempt but the last.
pub proof fn lemma_run_outcome(
    code: Seq<char>,
    made: u32,
    outcomes: Seq<AttemptOutcome>,
    fixes: Seq<Seq<char>>,
    expected: Option<Seq<char>>,
)
    requires
        fix_run(code, made, outcomes, fixes, expected) is Some,
    ensures
        ({
            let r = fix_run(code, made, outcomes, fixes, expected).unwrap();
            &&& made + 1 <= r.attempts <= MAX_FIX_ATTEMPTS
            &&& (r.success <==> r.error is None)
            &&& (!r.success ==> r.attempts == MAX_FIX_ATTEMPTS)
            &&& r.prompts.len() == r.attempts - made - 1
            &&& r.attempts - made <= outcomes.len()
            &&& (r.success <==> attempt_passed(outcomes[r.attempts - made - 1], expected))
        }),
    decreases MAX_FIX_ATTEMPTS - made,
{
    let attempt = (made + 1) as u32;
    match attempt_end(code, attempt, outcomes[0], expected) {
        AttemptEnd::Done { .. } => {},
        AttemptEnd::Ask(p) => {
            lemma_run_outcome(fixes[0], attempt, outcomes.drop_first(), fixes.drop_first(), expected);
            let r = fix_run(fixes[0], attempt, outcomes.drop_first(), fixes.drop_first(), expected).unwrap();
            assert(outcomes.drop_first()[r.attempts - attempt - 1] == outcomes[r.attempts - made - 1]);
        },
    }
}

// ---------------------------------------------------------------------------
// The project that is checked
// ---------------------------------------------------------------------------

/// The dependencies that the code needs: `rust_decimal` when it names it or `Decimal`,
/// `anyhow` when it names it.
pub open spec fn manifest_deps(code: Seq<char>) -> Seq<char> {
    (if contains(code, "rust_decimal"@) || contains(code, "Decimal"@) {
        "rust_decimal = \"1\"\n"@
    } else {
        Seq::empty()
    }) + (if contains(code, "anyhow"@) {
        "anyhow = \"1\"\n"@
    } else {
        Seq::empty()
    })
}

/// The `Cargo.toml` of the project that holds `code`.
pub open spec fn manifest_text(code: Seq<char>) -> Seq<char> {
    "[package]\nname = \"cobol-converted\"\nversion = \"0.1.0\"\nedition = \"2021\"\n\n[dependencies]\n"@
        + manifest_deps(code) + "\n"@
}

/// The `Cargo.toml` for a temporary project holding `code` as `src/main.rs`.
pub fn temp_project_manifest(code: &str) -> (r: String)
    ensures
        r@ == manifest_text(code@),
{
    let v = str_chars(code);
    let needs_decimal = find_chars(&v, "rust_decimal").is_some() || find_chars(&v, "Decimal").is_some();
    let needs_anyhow = find_chars(&v, "anyhow").is_some();
    let mut toml = String::from_str(
        "[package]\nname = \"cobol-converted\"\nversion = \"0.1.0\"\nedition = \"2021\"\n\n[dependencies]\n",
    );
    if needs_decimal {
        toml.append("rust_decimal = \"1\"\n");
    }
    if needs_anyhow {
        toml.append("anyhow = \"1\"\n");
    }
    toml.append("\n");
    toml
}

} // verus!
