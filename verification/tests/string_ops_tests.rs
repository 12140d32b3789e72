use cobol_to_rust::string_ops::{
    parse_string_statement, parse_unstring_statement, StringDelimiter, UnstringStatement,
};

#[test]
fn test_string_stmt_space_delimiter() {
    let stmt = parse_string_statement(
        "STRING WS-FIRST DELIMITED BY SPACE WS-LAST DELIMITED BY SIZE INTO WS-FULL.",
    )
    .unwrap();
    assert_eq!(stmt.sources.len(), 2);
    assert_eq!(stmt.sources[0].variable, "WS-FIRST");
    assert_eq!(stmt.sources[0].delimiter, StringDelimiter::Space);
    assert_eq!(stmt.sources[1].variable, "WS-LAST");
    assert_eq!(stmt.sources[1].delimiter, StringDelimiter::Size);
    assert_eq!(stmt.into_var, "WS-FULL");
}

#[test]
fn test_string_stmt_rust_format_contains_trim() {
    let stmt = parse_string_statement(
        "STRING WS-FIRST DELIMITED BY SPACE WS-LAST DELIMITED BY SIZE INTO WS-FULL.",
    )
    .unwrap();
    let code = stmt.to_rust_format();
    assert!(code.contains("trim_end()"), "SPACE delimiter should call trim_end()");
    assert!(code.contains("ws_full"), "target variable should appear in output");
    assert!(code.contains("format!"), "should use format! macro");
}

#[test]
fn test_string_stmt_literal_delimiter() {
    let stmt = parse_string_statement(
        "STRING WS-CODE DELIMITED BY \",\" WS-DESC DELIMITED BY SIZE INTO WS-RESULT.",
    )
    .unwrap();
    assert_eq!(stmt.sources[0].delimiter, StringDelimiter::Literal(",".to_string()));
}

#[test]
fn test_unstring_stmt_parsed() {
    let stmt =
        parse_unstring_statement("UNSTRING WS-INPUT DELIMITED BY \",\" INTO WS-F1, WS-F2, WS-F3.")
            .unwrap();
    assert_eq!(stmt.source_var, "WS-INPUT");
    assert_eq!(stmt.delimiter, ",");
    assert_eq!(stmt.into_vars, vec!["WS-F1", "WS-F2", "WS-F3"]);
}

#[test]
fn test_unstring_rust_splitn_code() {
    let stmt = UnstringStatement {
        source_var: "WS-INPUT".to_string(),
        delimiter: ",".to_string(),
        into_vars: vec!["WS-F1".to_string(), "WS-F2".to_string()],
    };
    let code = stmt.to_rust_splitn();
    assert!(code.contains("splitn(2"), "should use splitn with count = number of output vars");
    assert!(code.contains("ws_input"), "source variable in snake_case");
    assert!(code.contains("ws_f1"), "first output var in snake_case");
    assert!(code.contains("ws_f2"), "second output var in snake_case");
}

#[test]
fn test_unstring_rust_splitn_correct_count() {
    let stmt = UnstringStatement {
        source_var: "WS-LINE".to_string(),
        delimiter: "|".to_string(),
        into_vars: vec!["WS-COL1".to_string(), "WS-COL2".to_string(), "WS-COL3".to_string()],
    };
    let code = stmt.to_rust_splitn();
    assert!(code.contains("splitn(3"), "should splitn with 3 for 3 output vars");
    assert!(code.contains("ws_col3"), "third column should appear");
}

#[test]
fn string_statement_needs_into() {
    assert!(parse_string_statement("STRING WS-A DELIMITED BY SIZE.").is_none());
    assert!(parse_string_statement("MOVE A TO B.").is_none());
}

#[test]
fn unstring_statement_needs_keywords() {
    assert!(parse_unstring_statement("UNSTRING WS-A INTO WS-B.").is_none());
}
