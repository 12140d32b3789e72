use cobol_to_rust::exec_sql::parse_exec_sql;
use cobol_to_rust::sql_gen::{extract_cobol_vars, generate_sqlx, replace_cobol_params, to_rust_var};
use cobol_to_rust::types::ExecSqlStatement;

#[test]
fn test_select_single_col_generates_query_scalar() {
    let stmt = parse_exec_sql("SELECT BALANCE INTO :WS-BAL FROM ACCOUNTS WHERE ID = :WS-ID");
    let code = generate_sqlx(&stmt);
    assert!(code.code.contains("query_scalar!"), "single-col SELECT should use query_scalar!");
    assert!(code.is_async, "SELECT should be async");
    assert!(code.code.contains("ws_bal"), "should contain snake_case variable name");
}

#[test]
fn test_select_multi_col_generates_query() {
    let stmt = parse_exec_sql(
        "SELECT FNAME, LNAME INTO :WS-FNAME, :WS-LNAME FROM EMPLOYEES WHERE EMP_ID = :WS-ID",
    );
    let code = generate_sqlx(&stmt);
    assert!(code.code.contains("query!"), "multi-col SELECT should use query!");
    assert!(!code.code.contains("query_scalar!"));
}

#[test]
fn test_insert_generates_query() {
    let stmt = parse_exec_sql("INSERT INTO LEDGER (ACCT_ID, AMOUNT) VALUES (:WS-ID, :WS-AMT)");
    let code = generate_sqlx(&stmt);
    assert!(code.code.contains("query!"), "INSERT should use query!");
    assert!(code.code.contains("execute"), "INSERT should call execute");
    assert!(code.code.contains("INSERT INTO LEDGER"));
}

#[test]
fn test_update_generates_query() {
    let stmt = parse_exec_sql("UPDATE ACCOUNTS SET BALANCE = :WS-NEW-BAL WHERE ACCT_ID = :WS-ID");
    let code = generate_sqlx(&stmt);
    assert!(code.code.contains("query!"), "UPDATE should use query!");
    assert!(code.code.contains("UPDATE ACCOUNTS SET"));
}

#[test]
fn test_delete_generates_query() {
    let stmt = parse_exec_sql("DELETE FROM TEMP_ORDERS WHERE ORDER_DATE < :WS-DATE");
    let code = generate_sqlx(&stmt);
    assert!(code.code.contains("DELETE FROM TEMP_ORDERS"));
    assert!(code.code.contains("execute"));
}

#[test]
fn test_declare_cursor_generates_fetch() {
    let stmt = parse_exec_sql(
        "DECLARE C1 CURSOR FOR SELECT ID, BAL INTO :WS-ID, :WS-BAL FROM ACCTS WHERE STATUS = :WS-ST",
    );
    let code = generate_sqlx(&stmt);
    assert!(code.code.contains("fetch"), "cursor should use fetch");
    assert!(code.code.contains("c1"), "cursor var should be snake_case");
}

#[test]
fn test_commit_generates_tx_commit() {
    let code = generate_sqlx(&ExecSqlStatement::Commit);
    assert_eq!(code.code, "tx.commit().await?;");
    assert!(code.is_async);
}

#[test]
fn test_rollback_generates_tx_rollback() {
    let code = generate_sqlx(&ExecSqlStatement::Rollback);
    assert_eq!(code.code, "tx.rollback().await?;");
    assert!(code.is_async);
}

#[test]
fn test_replace_cobol_params() {
    let result = replace_cobol_params("ACCT_ID = :WS-ID AND DATE > :WS-DATE", 1);
    assert!(result.contains("$1"), "first param should be $1");
    assert!(result.contains("$2"), "second param should be $2");
    assert!(!result.contains(":WS"), "no COBOL vars should remain");
}

#[test]
fn test_extract_cobol_vars() {
    let vars = extract_cobol_vars("ACCT_ID = :WS-ID AND DATE > :WS-DATE");
    assert_eq!(vars.len(), 2);
    assert_eq!(vars[0], "WS-ID");
    assert_eq!(vars[1], "WS-DATE");
}

#[test]
fn test_to_rust_var() {
    assert_eq!(to_rust_var("WS-BALANCE"), "ws_balance");
    assert_eq!(to_rust_var("TR-ACCT-ID"), "tr_acct_id");
}

#[test]
fn test_close_cursor_generates_drop() {
    let stmt = parse_exec_sql("CLOSE ACCT-CUR");
    let code = generate_sqlx(&stmt);
    assert!(code.code.contains("drop("), "CLOSE should generate drop()");
    assert!(code.code.contains("acct_cur"), "cursor name in snake_case");
}

#[test]
fn test_whenever_generates_comment() {
    let stmt = parse_exec_sql("WHENEVER NOT FOUND CONTINUE");
    let code = generate_sqlx(&stmt);
    assert!(code.code.starts_with("//"), "WHENEVER should generate a comment");
}

#[test]
fn test_open_cursor_generates_comment() {
    let stmt = parse_exec_sql("OPEN MY-CURSOR");
    let code = generate_sqlx(&stmt);
    assert!(code.code.starts_with("//"), "OPEN cursor should generate a comment");
}

#[test]
fn replace_params_numbers_from_start() {
    assert_eq!(replace_cobol_params("A = :X AND B = :Y", 3), "A = $3 AND B = $4");
}

#[test]
fn replace_params_keeps_other_text_as_written() {
    assert_eq!(replace_cobol_params("ACCT_ID = :WS-ID", 1), "ACCT_ID = $1");
    assert_eq!(replace_cobol_params("ACCT_ID = :WS-ID AND DATE > :WS-DATE", 1), "ACCT_ID = $1 AND DATE > $2");
    assert_eq!(replace_cobol_params("NAME = 'abc' AND ID = :ws-id", 3), "NAME = 'abc' AND ID = $3");
}
