use cobol_to_rust::fix_loop::{temp_project_manifest, CompileResult, FixAction, FixLoop, MAX_FIX_ATTEMPTS};

fn result(success: bool, stdout: &str, stderr: &str) -> CompileResult {
    CompileResult { success, stdout: stdout.to_string(), stderr: stderr.to_string() }
}

#[test]
fn test_max_fix_attempts_constant() {
    assert!(MAX_FIX_ATTEMPTS >= 3);
    assert!(MAX_FIX_ATTEMPTS <= 10);
}

#[test]
fn first_attempt_checks_the_initial_code() {
    let mut lp = FixLoop::new("fn main() {}");
    match lp.start_attempt() {
        FixAction::Check { dir_name, code } => {
            assert_eq!(dir_name, "attempt_1");
            assert_eq!(code, "fn main() {}");
        }
        _ => panic!("expected a check"),
    }
    assert_eq!(lp.attempts_made(), 1);
    assert_eq!(lp.current_code(), "fn main() {}");
}

#[test]
fn passed_check_without_expected_output_succeeds() {
    let mut lp = FixLoop::new("fn main() {}");
    let _ = lp.start_attempt();
    match lp.after_check(&result(true, "", ""), false) {
        FixAction::Done(v) => {
            assert!(v.success);
            assert_eq!(v.attempts, 1);
            assert!(v.final_error.is_none());
            assert_eq!(v.rust_code, "fn main() {}");
        }
        _ => panic!("expected the loop to end"),
    }
}

#[test]
fn passed_check_with_expected_output_runs() {
    let mut lp = FixLoop::new("fn main() {}");
    let _ = lp.start_attempt();
    assert!(matches!(lp.after_check(&result(true, "", ""), true), FixAction::Run));
}

#[test]
fn failed_check_asks_for_a_fix() {
    let mut lp = FixLoop::new("fn main() { x }");
    let _ = lp.start_attempt();
    match lp.after_check(&result(false, "", "error: cannot find value `x`"), false) {
        FixAction::Ask(req) => {
            assert!(req.user_prompt.contains("fn main() { x }"));
            assert!(req.user_prompt.contains("cannot find value"));
            assert_eq!(req.max_tokens, 8192);
        }
        _ => panic!("expected a request for a fix"),
    }
    lp.accept_fix("fn main() {}".to_string());
    assert_eq!(lp.current_code(), "fn main() {}");
    match lp.start_attempt() {
        FixAction::Check { dir_name, code } => {
            assert_eq!(dir_name, "attempt_2");
            assert_eq!(code, "fn main() {}");
        }
        _ => panic!("expected a check"),
    }
}

#[test]
fn last_failed_check_gives_up() {
    let mut lp = FixLoop::new("bad");
    for _ in 0..MAX_FIX_ATTEMPTS {
        let _ = lp.start_attempt();
    }
    match lp.after_check(&result(false, "", "boom"), true) {
        FixAction::Done(v) => {
            assert!(!v.success);
            assert_eq!(v.attempts, MAX_FIX_ATTEMPTS);
            assert_eq!(v.final_error.as_deref(), Some("Compilation failed: boom"));
        }
        _ => panic!("expected the loop to give up"),
    }
}

#[test]
fn run_outcomes() {
    let mut lp = FixLoop::new("fn main() {}");
    let _ = lp.start_attempt();
    match lp.after_run(&result(true, "HELLO  \n", ""), "HELLO\n") {
        FixAction::Done(v) => assert!(v.success),
        _ => panic!("matching output should end the loop"),
    }
    match lp.after_run(&result(true, "BYE\n", ""), "HELLO\n") {
        FixAction::Ask(req) => assert!(req.user_prompt.contains("BYE")),
        _ => panic!("mismatch should ask for a fix"),
    }
    match lp.after_run(&result(false, "", "panicked"), "HELLO\n") {
        FixAction::Ask(req) => assert!(req.user_prompt.contains("panicked")),
        _ => panic!("runtime error should ask for a fix"),
    }
    for _ in 1..MAX_FIX_ATTEMPTS {
        let _ = lp.start_attempt();
    }
    match lp.after_run(&result(false, "", "panicked"), "HELLO\n") {
        FixAction::Done(v) => assert_eq!(v.final_error.as_deref(), Some("Runtime error: panicked")),
        _ => panic!("expected the loop to give up"),
    }
    match lp.after_run(&result(true, "BYE\n", ""), "HELLO\n") {
        FixAction::Done(v) => {
            assert!(!v.success);
            assert!(v.final_error.unwrap().starts_with("Output mismatch: "));
        }
        _ => panic!("expected the loop to give up"),
    }
}

#[test]
fn manifest_lists_the_needed_crates() {
    let m = temp_project_manifest("use rust_decimal::Decimal; fn main() {}");
    assert!(m.contains("rust_decimal = \"1\""));
    assert!(!m.contains("anyhow"));
    let plain = temp_project_manifest("fn main() {}");
    assert_eq!(
        plain,
        "[package]\nname = \"cobol-converted\"\nversion = \"0.1.0\"\nedition = \"2021\"\n\n[dependencies]\n\n"
    );
}
