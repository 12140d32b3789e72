use cobol_to_rust::exec_sql::{extract_exec_sql_blocks, parse_exec_sql};
use cobol_to_rust::types::{ExecSqlStatement, SqlWheneverAction, SqlWheneverCondition};

#[test]
fn test_select_single_column_into() {
    let sql = "SELECT ACCT_BAL INTO :WS-BALANCE FROM ACCOUNTS WHERE ACCT_ID = :WS-ID";
    let stmt = parse_exec_sql(sql);
    if let ExecSqlStatement::Select(sel) = stmt {
        assert_eq!(sel.columns, vec!["ACCT_BAL"]);
        assert_eq!(sel.into_vars, vec!["WS-BALANCE"]);
        assert_eq!(sel.table, "ACCOUNTS");
        assert_eq!(sel.where_clause, Some("ACCT_ID = :WS-ID".to_string()));
    } else {
        panic!("Expected Select");
    }
}

#[test]
fn test_select_multi_column_into() {
    let sql =
        "SELECT FIRST_NAME, LAST_NAME, SALARY INTO :WS-FNAME, :WS-LNAME, :WS-SAL FROM EMPLOYEES WHERE EMP_ID = :WS-EMP-ID";
    let stmt = parse_exec_sql(sql);
    if let ExecSqlStatement::Select(sel) = stmt {
        assert_eq!(sel.columns.len(), 3);
        assert_eq!(sel.columns[0], "FIRST_NAME");
        assert_eq!(sel.into_vars.len(), 3);
        assert_eq!(sel.into_vars[0], "WS-FNAME");
        assert_eq!(sel.into_vars[2], "WS-SAL");
    } else {
        panic!("Expected Select");
    }
}

#[test]
fn test_select_no_where() {
    let sql = "SELECT COUNT(*) INTO :WS-CNT FROM ORDERS";
    let stmt = parse_exec_sql(sql);
    if let ExecSqlStatement::Select(sel) = stmt {
        assert_eq!(sel.columns, vec!["COUNT(*)"]);
        assert_eq!(sel.into_vars, vec!["WS-CNT"]);
        assert!(sel.where_clause.is_none());
    } else {
        panic!("Expected Select");
    }
}

#[test]
fn test_insert_with_columns_and_values() {
    let sql = "INSERT INTO LEDGER (ACCT_ID, TRANS_DATE, AMOUNT) VALUES (:WS-ID, :WS-DATE, :WS-AMT)";
    let stmt = parse_exec_sql(sql);
    if let ExecSqlStatement::Insert(ins) = stmt {
        assert_eq!(ins.table, "LEDGER");
        assert_eq!(ins.columns, vec!["ACCT_ID", "TRANS_DATE", "AMOUNT"]);
        assert_eq!(ins.values, vec!["WS-ID", "WS-DATE", "WS-AMT"]);
    } else {
        panic!("Expected Insert");
    }
}

#[test]
fn test_update_single_column() {
    let sql = "UPDATE ACCOUNTS SET BALANCE = :WS-NEW-BAL WHERE ACCT_ID = :WS-ID";
    let stmt = parse_exec_sql(sql);
    if let ExecSqlStatement::Update(upd) = stmt {
        assert_eq!(upd.table, "ACCOUNTS");
        assert_eq!(upd.set_clauses.len(), 1);
        assert_eq!(upd.set_clauses[0].0, "BALANCE");
        assert_eq!(upd.set_clauses[0].1, "WS-NEW-BAL");
        assert!(upd.where_clause.is_some());
    } else {
        panic!("Expected Update");
    }
}

#[test]
fn test_delete_with_where() {
    let sql = "DELETE FROM TEMP_ORDERS WHERE ORDER_DATE < :WS-CUTOFF-DATE";
    let stmt = parse_exec_sql(sql);
    if let ExecSqlStatement::Delete(del) = stmt {
        assert_eq!(del.table, "TEMP_ORDERS");
        assert_eq!(del.where_clause, Some("ORDER_DATE < :WS-CUTOFF-DATE".to_string()));
    } else {
        panic!("Expected Delete");
    }
}

#[test]
fn test_delete_no_where() {
    let sql = "DELETE FROM WORK_TABLE";
    let stmt = parse_exec_sql(sql);
    if let ExecSqlStatement::Delete(del) = stmt {
        assert_eq!(del.table, "WORK_TABLE");
        assert!(del.where_clause.is_none());
    } else {
        panic!("Expected Delete");
    }
}

#[test]
fn test_declare_cursor_for_select() {
    let sql = "DECLARE ACCT-CUR CURSOR FOR SELECT ACCT_ID, BALANCE INTO :WS-ID, :WS-BAL FROM ACCOUNTS WHERE STATUS = :WS-STATUS";
    let stmt = parse_exec_sql(sql);
    if let ExecSqlStatement::DeclareCursor(dc) = stmt {
        assert_eq!(dc.cursor_name, "ACCT-CUR");
        assert_eq!(dc.select.table, "ACCOUNTS");
        assert_eq!(dc.select.columns.len(), 2);
    } else {
        panic!("Expected DeclareCursor");
    }
}

#[test]
fn test_open_cursor() {
    let stmt = parse_exec_sql("OPEN ACCT-CUR");
    assert!(matches!(stmt, ExecSqlStatement::OpenCursor(n) if n == "ACCT-CUR"));
}

#[test]
fn test_fetch_cursor_into() {
    let sql = "FETCH ACCT-CUR INTO :WS-ACCT-ID, :WS-BAL";
    let stmt = parse_exec_sql(sql);
    if let ExecSqlStatement::FetchCursor(fetch) = stmt {
        assert_eq!(fetch.cursor_name, "ACCT-CUR");
        assert_eq!(fetch.into_vars, vec!["WS-ACCT-ID", "WS-BAL"]);
    } else {
        panic!("Expected FetchCursor");
    }
}

#[test]
fn test_close_cursor() {
    let stmt = parse_exec_sql("CLOSE ACCT-CUR");
    assert!(matches!(stmt, ExecSqlStatement::CloseCursor(n) if n == "ACCT-CUR"));
}

#[test]
fn test_commit() {
    let stmt = parse_exec_sql("COMMIT");
    assert!(matches!(stmt, ExecSqlStatement::Commit));
}

#[test]
fn test_rollback() {
    let stmt = parse_exec_sql("ROLLBACK");
    assert!(matches!(stmt, ExecSqlStatement::Rollback));
}

#[test]
fn test_whenever_not_found_continue() {
    let stmt = parse_exec_sql("WHENEVER NOT FOUND CONTINUE");
    if let ExecSqlStatement::Whenever(w) = stmt {
        assert_eq!(w.condition, SqlWheneverCondition::NotFound);
        assert_eq!(w.action, SqlWheneverAction::Continue);
    } else {
        panic!("Expected Whenever");
    }
}

#[test]
fn test_whenever_sqlerror_goto() {
    let stmt = parse_exec_sql("WHENEVER SQLERROR GOTO ERROR-HANDLER");
    if let ExecSqlStatement::Whenever(w) = stmt {
        assert_eq!(w.condition, SqlWheneverCondition::SqlError);
        assert!(matches!(w.action, SqlWheneverAction::GoTo(ref l) if l.contains("ERROR-HANDLER")));
    } else {
        panic!("Expected Whenever");
    }
}

#[test]
fn test_update_multi_column() {
    let sql = "UPDATE EMP SET SALARY = :WS-NEW-SAL, DEPT = :WS-DEPT WHERE EMP_ID = :WS-EMP-ID";
    let stmt = parse_exec_sql(sql);
    if let ExecSqlStatement::Update(upd) = stmt {
        assert_eq!(upd.set_clauses.len(), 2);
        assert_eq!(upd.set_clauses[0].0.trim(), "SALARY");
        assert_eq!(upd.set_clauses[1].0.trim(), "DEPT");
    } else {
        panic!("Expected Update");
    }
}

#[test]
fn test_extract_exec_sql_blocks_from_cobol_lines() {
    let source = vec![
        "       EXEC SQL",
        "           SELECT BAL INTO :WS-BAL FROM ACCTS WHERE ID = :WS-ID",
        "       END-EXEC.",
        "       MOVE WS-BAL TO WS-DISPLAY.",
        "       EXEC SQL COMMIT END-EXEC.",
    ];
    let results = extract_exec_sql_blocks(&source);
    assert_eq!(results.len(), 2, "should find 2 EXEC SQL blocks");
    assert!(matches!(results[0].1, ExecSqlStatement::Select(_)));
    assert!(matches!(results[1].1, ExecSqlStatement::Commit));
}

#[test]
fn exec_sql_block_line_numbers_and_unknown_statement() {
    let source = vec![
        "       EXEC SQL",
        "           LOCK TABLE T",
        "       END-EXEC.",
        "       DISPLAY X.",
        "       EXEC SQL",
        "           COMMIT",
        "       END-EXEC.",
    ];
    let results = extract_exec_sql_blocks(&source);
    assert_eq!(results.len(), 2);
    assert_eq!(results[0].0, 3);
    assert!(matches!(&results[0].1, ExecSqlStatement::Unknown(s) if s == "LOCK TABLE T"));
    assert_eq!(results[1].0, 7);
    assert!(matches!(results[1].1, ExecSqlStatement::Commit));
}

#[test]
fn one_line_exec_sql_blocks_each_give_a_pair() {
    let source = vec![
        "       EXEC SQL COMMIT END-EXEC.",
        "       DISPLAY X.",
        "       EXEC SQL ROLLBACK END-EXEC.",
    ];
    let results = extract_exec_sql_blocks(&source);
    assert_eq!(results.len(), 2);
    assert_eq!(results[0].0, 1);
    assert!(matches!(results[0].1, ExecSqlStatement::Commit));
    assert_eq!(results[1].0, 3);
    assert!(matches!(results[1].1, ExecSqlStatement::Rollback));
    let adjacent = vec!["EXEC SQL COMMIT END-EXEC.", "EXEC SQL ROLLBACK END-EXEC."];
    let r = extract_exec_sql_blocks(&adjacent);
    assert_eq!(r.len(), 2);
    assert_eq!((r[0].0, r[1].0), (1, 2));
    assert!(matches!(r[1].1, ExecSqlStatement::Rollback));
}

#[test]
fn whenever_goto_label_holding_stop() {
    let stmt = parse_exec_sql("WHENEVER SQLERROR GOTO STOP-PARA");
    if let ExecSqlStatement::Whenever(w) = stmt {
        assert_eq!(w.condition, SqlWheneverCondition::SqlError);
        assert_eq!(w.action, SqlWheneverAction::GoTo("STOP-PARA".to_string()));
    } else {
        panic!("Expected Whenever");
    }
    let stmt = parse_exec_sql("WHENEVER NOT FOUND GO TO CONTINUE-HERE");
    assert!(matches!(stmt, ExecSqlStatement::Whenever(w) if w.action == SqlWheneverAction::GoTo("CONTINUE-HERE".to_string())));
}

#[test]
fn whenever_sqlwarning_stop() {
    let stmt = parse_exec_sql("WHENEVER SQLWARNING STOP");
    if let ExecSqlStatement::Whenever(w) = stmt {
        assert_eq!(w.condition, SqlWheneverCondition::SqlWarning);
        assert_eq!(w.action, SqlWheneverAction::Stop);
    } else {
        panic!("Expected Whenever");
    }
}
