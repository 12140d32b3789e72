use cobol_to_rust::comparator::{compare_outputs, format_diff};

#[test]
fn test_matching_outputs() {
    let result = compare_outputs("HELLO WORLD\n", "HELLO WORLD\n");
    assert!(result.matches);
    assert!(result.diff_lines.is_empty());
}

#[test]
fn test_mismatching_outputs() {
    let result = compare_outputs("HELLO WORLD\n", "HELLO RUST\n");
    assert!(!result.matches);
    assert_eq!(result.diff_lines.len(), 1);
    assert_eq!(result.diff_lines[0].line_number, 1);
}

#[test]
fn test_trailing_whitespace_ignored() {
    let result = compare_outputs("HELLO   \n", "HELLO\n");
    assert!(result.matches);
}

#[test]
fn test_different_line_counts() {
    let result = compare_outputs("LINE 1\nLINE 2\n", "LINE 1\n");
    assert!(!result.matches);
    assert_eq!(result.diff_lines.len(), 1);
}

#[test]
fn test_format_diff_match() {
    let result = compare_outputs("ok\n", "ok\n");
    let formatted = format_diff(&result);
    assert!(formatted.contains("matches"));
}

#[test]
fn test_format_diff_mismatch() {
    let result = compare_outputs("expected\n", "actual\n");
    let formatted = format_diff(&result);
    assert!(formatted.contains("mismatch"));
}

#[test]
fn crlf_and_missing_final_newline_compare_equal() {
    let result = compare_outputs("A\r\nB\r\n", "A\nB");
    assert!(result.matches);
    assert_eq!(result.expected, "A\r\nB\r\n");
    assert_eq!(result.actual, "A\nB");
}

#[test]
fn diff_lines_in_order_with_texts() {
    let result = compare_outputs("A\nB\nC\n", "A\nX\nC\nD\n");
    assert_eq!(result.diff_lines.len(), 2);
    assert_eq!(result.diff_lines[0].line_number, 2);
    assert_eq!(result.diff_lines[0].expected, "B");
    assert_eq!(result.diff_lines[0].actual, "X");
    assert_eq!(result.diff_lines[1].line_number, 4);
    assert_eq!(result.diff_lines[1].expected, "");
    assert_eq!(result.diff_lines[1].actual, "D");
}

#[test]
fn comparison_is_symmetric_and_reflexive() {
    let a = "ONE\nTWO  \n";
    let b = "ONE\nTHREE\n";
    let ab = compare_outputs(a, b);
    let ba = compare_outputs(b, a);
    assert_eq!(ab.matches, ba.matches);
    assert_eq!(ab.diff_lines.len(), ba.diff_lines.len());
    assert_eq!(ab.diff_lines[0].expected, ba.diff_lines[0].actual);
    assert!(compare_outputs(a, a).matches);
}

#[test]
fn format_diff_exact_text() {
    let result = compare_outputs("a\"b\n", "c\n");
    assert_eq!(
        format_diff(&result),
        "Output mismatch: 1 line(s) differ\n\nLine 1:\n  Expected: \"a\\\"b\"\n  Actual:   \"c\"\n"
    );
    assert_eq!(format_diff(&compare_outputs("", "")), "Output matches!");
}
