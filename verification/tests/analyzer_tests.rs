use std::io::{Read, Write};
use cobol_to_rust::analyzer::{analyze_file, count_data_items, parse_cobol_source, source_readable, strip_cobol_line};
use cobol_to_rust::statements::{parse_compute_statement, parse_display_statement, parse_statement};
use cobol_to_rust::types::{DisplayItem, ParseError, PerformTarget, Statement};

const HELLO_WORLD: &str = r#"       IDENTIFICATION DIVISION.
       PROGRAM-ID. HELLO-WORLD.
       PROCEDURE DIVISION.
           DISPLAY "HELLO WORLD".
           STOP RUN.
"#;

#[test]
fn test_parse_hello_world() {
    let program = parse_cobol_source(HELLO_WORLD).unwrap();
    assert_eq!(program.program_id, "HELLO-WORLD");
    let proc = program.procedure.unwrap();
    assert!(!proc.paragraphs.is_empty());
    let stmts = &proc.paragraphs[0].statements;
    assert!(stmts.len() >= 2);
    assert!(matches!(&stmts[0], Statement::Display(_)));
    assert!(matches!(&stmts[1], Statement::StopRun));
}

#[test]
fn test_parse_display_literal() {
    let stmt = parse_display_statement(r#"DISPLAY "HELLO WORLD"."#);
    if let Statement::Display(items) = stmt {
        assert_eq!(items.len(), 1);
        assert!(matches!(&items[0], DisplayItem::Literal(s) if s == "HELLO WORLD"));
    } else {
        panic!("Expected Display statement");
    }
}

#[test]
fn test_strip_cobol_line() {
    let line = "000100 IDENTIFICATION DIVISION.                                         ";
    let stripped = strip_cobol_line(line);
    assert!(stripped.contains("IDENTIFICATION DIVISION"));
}

#[test]
fn test_strip_comment_line() {
    let line = "000100*THIS IS A COMMENT                                                ";
    let stripped = strip_cobol_line(line);
    assert!(stripped.is_empty());
}

#[test]
fn test_analyze_file() {
    let summary = analyze_file("test.cob", HELLO_WORLD).unwrap();
    assert_eq!(summary.program_id, "HELLO-WORLD");
    assert!(summary.divisions.contains(&"PROCEDURE".to_string()));
    assert!(!summary.file_io);
}

const WITH_FILE_CONTROL: &str = r#"       IDENTIFICATION DIVISION.
       PROGRAM-ID. FILE-READ.
       ENVIRONMENT DIVISION.
       INPUT-OUTPUT SECTION.
       FILE-CONTROL.
           SELECT INPUT-FILE ASSIGN TO "input.dat".
       DATA DIVISION.
       FILE SECTION.
       FD INPUT-FILE.
       01 INPUT-REC PIC X(80).
       WORKING-STORAGE SECTION.
       01 WS-EOF PIC 9 VALUE 0.
       PROCEDURE DIVISION.
           STOP RUN.
"#;

const WITH_FILE_SECTION_ONLY: &str = r#"       IDENTIFICATION DIVISION.
       PROGRAM-ID. BATCHUPD.
       DATA DIVISION.
       FILE SECTION.
       FD  INPUT-FILE.
       01  INPUT-RECORD  PIC X(21).
       FD  OUTPUT-FILE.
       01  OUTPUT-RECORD PIC X(80).
       WORKING-STORAGE SECTION.
       01  WS-EOF PIC 9 VALUE 0.
       PROCEDURE DIVISION.
           STOP RUN.
"#;

#[test]
fn test_file_io_detected_via_file_control() {
    let summary = analyze_file("test.cob", WITH_FILE_CONTROL).unwrap();
    assert!(summary.file_io, "file_io should be true when FILE-CONTROL is present");
}

#[test]
fn test_file_io_detected_via_file_section_only() {
    let summary = analyze_file("test.cob", WITH_FILE_SECTION_ONLY).unwrap();
    assert!(
        summary.file_io,
        "file_io should be true when FILE SECTION (FD) is present even without FILE-CONTROL"
    );
}

#[test]
fn test_file_io_false_for_no_files() {
    let summary = analyze_file("test.cob", HELLO_WORLD).unwrap();
    assert!(!summary.file_io, "file_io should be false for programs with no file access");
}

const WITH_RECORD_CONTAINS: &str = r#"       IDENTIFICATION DIVISION.
       PROGRAM-ID. FIXED-READ.
       DATA DIVISION.
       FILE SECTION.
       FD  TRANS-FILE
           RECORD CONTAINS 80 CHARACTERS
           BLOCK CONTAINS 10 RECORDS.
       01  TRANS-REC PIC X(80).
       WORKING-STORAGE SECTION.
       01  WS-EOF PIC 9 VALUE 0.
       PROCEDURE DIVISION.
           STOP RUN.
"#;

#[test]
fn test_fd_record_contains_parsed() {
    let program = parse_cobol_source(WITH_RECORD_CONTAINS).unwrap();
    let data = program.data.unwrap();
    assert_eq!(data.file_section.len(), 1);
    let fd = &data.file_section[0];
    assert_eq!(fd.fd_name, "TRANS-FILE");
    assert_eq!(fd.record_len, Some(80));
    assert_eq!(fd.block_contains, Some(10));
}

const WITH_MULTI_FD: &str = r#"       IDENTIFICATION DIVISION.
       PROGRAM-ID. MULTI-FD.
       DATA DIVISION.
       FILE SECTION.
       FD  INPUT-FILE
           RECORD CONTAINS 21 CHARACTERS.
       01  INPUT-RECORD PIC X(21).
       FD  OUTPUT-FILE
           RECORD CONTAINS 80 CHARACTERS.
       01  OUTPUT-RECORD PIC X(80).
       WORKING-STORAGE SECTION.
       01  WS-EOF PIC 9 VALUE 0.
       PROCEDURE DIVISION.
           STOP RUN.
"#;

#[test]
fn test_fd_multiple_fds_parsed() {
    let program = parse_cobol_source(WITH_MULTI_FD).unwrap();
    let data = program.data.unwrap();
    assert_eq!(data.file_section.len(), 2);
    assert_eq!(data.file_section[0].fd_name, "INPUT-FILE");
    assert_eq!(data.file_section[0].record_len, Some(21));
    assert_eq!(data.file_section[1].fd_name, "OUTPUT-FILE");
    assert_eq!(data.file_section[1].record_len, Some(80));
}

#[test]
fn test_fd_no_record_contains() {
    let program = parse_cobol_source(WITH_FILE_SECTION_ONLY).unwrap();
    let data = program.data.unwrap();
    assert_eq!(data.file_section.len(), 2);
    assert_eq!(data.file_section[0].record_len, None);
    assert_eq!(data.file_section[0].block_contains, None);
}

#[test]
fn test_compute_rounded_detected() {
    let stmt = parse_compute_statement("COMPUTE WS-RESULT ROUNDED = WS-A / WS-B.");
    if let Statement::Compute(cs) = stmt {
        assert_eq!(cs.target, "WS-RESULT");
        assert!(cs.rounded, "ROUNDED keyword should be detected");
        assert_eq!(cs.expression, "WS-A / WS-B");
    } else {
        panic!("Expected Compute statement");
    }
}

#[test]
fn test_compute_without_rounded() {
    let stmt = parse_compute_statement("COMPUTE WS-RESULT = WS-A + WS-B.");
    if let Statement::Compute(cs) = stmt {
        assert_eq!(cs.target, "WS-RESULT");
        assert!(!cs.rounded, "rounded should be false without ROUNDED keyword");
        assert_eq!(cs.expression, "WS-A + WS-B");
    } else {
        panic!("Expected Compute statement");
    }
}

#[test]
fn test_fixed_length_sequential_read() {
    let record_len: usize = 80;
    let mut data = Vec::new();
    for i in 0u8..3 {
        let mut rec = vec![b'A' + i; record_len];
        rec[79] = b'0' + i;
        data.extend_from_slice(&rec);
    }

    let mut cursor = std::io::Cursor::new(&data);
    let mut records_read = 0usize;
    let mut buf = vec![0u8; record_len];
    while cursor.read_exact(&mut buf).is_ok() {
        records_read += 1;
        assert_eq!(buf.len(), record_len);
    }
    assert_eq!(records_read, 3, "Should read exactly 3 fixed-length records");
}

#[test]
fn test_fixed_length_sequential_write() {
    let record_len: usize = 21;
    let mut output = Vec::new();
    let records = vec!["12345678901D000000099", "98765432100W000001000"];
    for rec in &records {
        let bytes = rec.as_bytes();
        let mut padded = vec![b' '; record_len];
        let copy_len = bytes.len().min(record_len);
        padded[..copy_len].copy_from_slice(&bytes[..copy_len]);
        output.write_all(&padded).unwrap();
    }
    assert_eq!(
        output.len(),
        records.len() * record_len,
        "Fixed-length output must have no padding/gaps between records"
    );
}

#[test]
fn missing_program_id_is_an_error() {
    let src = "       IDENTIFICATION DIVISION.\n       PROCEDURE DIVISION.\n           STOP RUN.\n";
    assert!(matches!(parse_cobol_source(src), Err(ParseError::MissingProgramId)));
    assert!(matches!(analyze_file("x.cob", src), Err(ParseError::MissingProgramId)));
}

#[test]
fn strip_line_takes_columns_8_to_72() {
    assert_eq!(strip_cobol_line("123456 ABC"), "ABC");
    assert_eq!(strip_cobol_line("123456"), "");
    assert_eq!(strip_cobol_line("123456/PAGE"), "");
    let long = format!("123456 {}{}", "X".repeat(65), "SEQ00001");
    assert_eq!(strip_cobol_line(&long), "X".repeat(65));
}

const FULL: &str = r#"       IDENTIFICATION DIVISION.
       PROGRAM-ID. FULL-TEST.
       AUTHOR. JANE DOE.
       DATE-WRITTEN. 2024-01-01.
       ENVIRONMENT DIVISION.
       INPUT-OUTPUT SECTION.
       FILE-CONTROL.
           SELECT IN-FILE ASSIGN TO "in.dat"
               ORGANIZATION IS INDEXED.
           SELECT OUT-FILE ASSIGN TO OUTDD.
       DATA DIVISION.
       WORKING-STORAGE SECTION.
       01 WS-REC.
          05 WS-A PIC 9(3) VALUE 12.
          05 WS-B PIC X(5) VALUE "HI".
       01 WS-C PIC S9(5)V99.
       PROCEDURE DIVISION.
       MAIN-PARA.
           MOVE WS-A TO WS-C WS-D.
           ADD 1 TO WS-A.
           SUBTRACT WS-A FROM WS-C.
           MULTIPLY 2 BY WS-C.
           PERFORM SUB-PARA 3 TIMES.
           PERFORM SUB-PARA VARYING WS-A FROM 1 BY 1 UNTIL WS-A > 5.
           PERFORM SUB-PARA THRU END-PARA.
           GOBACK.
       SUB-PARA.
           DISPLAY "A=" WS-A.
       END-PARA.
"#;

#[test]
fn full_program_is_read() {
    assert!(source_readable(FULL));
    let p = parse_cobol_source(FULL).unwrap();
    assert_eq!(p.identification.program_id, "FULL-TEST");
    assert_eq!(p.identification.author.as_deref(), Some("JANE DOE."));
    assert_eq!(p.identification.date_written.as_deref(), Some("2024-01-01."));
    let env = p.environment.unwrap();
    assert_eq!(env.file_controls.len(), 2);
    assert_eq!(env.file_controls[0].name, "IN-FILE");
    assert_eq!(env.file_controls[0].assign_to, "in");
    assert_eq!(env.file_controls[1].assign_to, "OUTDD");
    assert_eq!(env.file_controls[1].organization, cobol_to_rust::types::FileOrganization::Indexed);
    let data = p.data.unwrap();
    assert_eq!(data.working_storage.len(), 2);
    assert_eq!(data.working_storage[0].children.len(), 2);
    assert_eq!(data.working_storage[0].children[1].value.as_deref(), Some("HI"));
    assert_eq!(count_data_items(&data.working_storage), 4);
    let c = data.working_storage[1].picture.as_ref().unwrap();
    assert!(c.signed);
    assert_eq!((c.integer_digits, c.decimal_digits, c.total_size), (5, 2, 7));
    let proc = p.procedure.unwrap();
    // "GOBACK." alone on its line reads as a paragraph header.
    assert_eq!(proc.paragraphs.len(), 3);
    assert_eq!(proc.paragraphs[0].name, "MAIN-PARA");
    let s = &proc.paragraphs[0].statements;
    assert_eq!(s.len(), 7);
    assert!(matches!(&s[0], Statement::Move(m) if m.from == "WS-A" && m.to == vec!["WS-C", "WS-D"]));
    assert!(matches!(&s[1], Statement::Add(a) if a.operand == "1" && a.to == "WS-A"));
    assert!(matches!(&s[2], Statement::Subtract(a) if a.operand == "WS-A" && a.to == "WS-C"));
    assert!(matches!(&s[3], Statement::Multiply(a) if a.operand == "2" && a.to == "WS-C"));
    assert!(matches!(&s[4], Statement::Perform(pf) if pf.times.as_deref() == Some("3")));
    if let Statement::Perform(pf) = &s[5] {
        assert!(matches!(&pf.target, PerformTarget::Paragraph(n) if n == "SUB-PARA"));
        let v = pf.varying.as_ref().unwrap();
        assert_eq!((v.variable.as_str(), v.from.as_str(), v.by.as_str()), ("WS-A", "1", "1"));
        assert_eq!(pf.until.as_deref(), Some("WS-A > 5"));
    } else {
        panic!("Expected Perform");
    }
    assert!(matches!(&s[6], Statement::Perform(pf) if pf.thru.as_deref() == Some("END-PARA")));
    assert_eq!(proc.paragraphs[1].name, "GOBACK");
    assert!(proc.paragraphs[1].statements.is_empty());
    assert_eq!(proc.paragraphs[2].name, "SUB-PARA");
    let summary = analyze_file("full.cob", FULL).unwrap();
    assert_eq!(summary.divisions, vec!["IDENTIFICATION", "ENVIRONMENT", "DATA", "PROCEDURE"]);
    assert_eq!(summary.data_items, 4);
    assert_eq!(summary.paragraphs, 3);
    assert!(summary.file_io);
    assert_eq!(summary.line_count, FULL.lines().count());
    assert_eq!(summary.file_path, "full.cob");
}

#[test]
fn statement_kinds_by_keyword() {
    assert!(parse_statement("...").is_none());
    assert!(matches!(parse_statement("stop run."), Some(Statement::StopRun)));
    assert!(matches!(parse_statement("EXIT."), Some(Statement::Unknown(s)) if s == "EXIT."));
    assert!(matches!(parse_statement("MOVE X"), Some(Statement::Unknown(s)) if s == "MOVE X"));
}

#[test]
fn display_items_split_on_spaces_and_quotes() {
    let stmt = parse_display_statement("DISPLAY 'A B' WS-X \"C\" WS-Y.");
    if let Statement::Display(items) = stmt {
        assert_eq!(items.len(), 4);
        assert!(matches!(&items[0], DisplayItem::Literal(s) if s == "A B"));
        assert!(matches!(&items[1], DisplayItem::Variable(s) if s == "WS-X"));
        assert!(matches!(&items[2], DisplayItem::Literal(s) if s == "C"));
        assert!(matches!(&items[3], DisplayItem::Variable(s) if s == "WS-Y"));
    } else {
        panic!("Expected Display statement");
    }
}

#[test]
fn file_section_after_storage_is_not_readable() {
    let src = "       PROGRAM-ID. X.\n       DATA DIVISION.\n       WORKING-STORAGE SECTION.\n       FILE SECTION.\n";
    assert!(!source_readable(src));
    assert!(source_readable(HELLO_WORLD));
}

#[test]
fn goback_without_period_is_a_statement() {
    assert!(matches!(parse_statement("GOBACK"), Some(Statement::GoBack)));
    assert!(matches!(parse_statement("stop run."), Some(Statement::StopRun)));
    assert!(parse_statement("   ").is_none());
}

#[test]
fn fixed_format_columns_are_bytes() {
    // 'é' takes two bytes: byte 7 is the start of "ABC".
    assert_eq!(strip_cobol_line("00010éABC"), "ABC");
    // Byte 7 falls inside 'é': the source cannot be read.
    let src = "000100é DISPLAY X.\n";
    assert!(!source_readable(src));
    assert!(source_readable("       PROGRAM-ID. P.\n"));
}
