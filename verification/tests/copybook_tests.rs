use cobol_to_rust::copybook::{CopybookError, CopybookResolver};

#[test]
fn test_find_copy_references() {
    let source = r#"
       IDENTIFICATION DIVISION.
       PROGRAM-ID. TEST-PROG.
       DATA DIVISION.
       WORKING-STORAGE SECTION.
       COPY CUSTOMER-RECORD.
       PROCEDURE DIVISION.
           DISPLAY "HELLO".
           STOP RUN.
"#;
    let refs = CopybookResolver::find_copy_references(source);
    assert_eq!(refs, vec!["CUSTOMER-RECORD"]);
}

#[test]
fn test_resolve_no_copy() {
    let source = "       DISPLAY \"HELLO\".\n";
    let resolver = CopybookResolver::new(vec![]);
    let result = resolver.resolve(source).unwrap();
    assert_eq!(result, "       DISPLAY \"HELLO\".\n");
}

#[test]
fn resolve_splices_a_remembered_copybook() {
    let mut resolver = CopybookResolver::new(vec!["copy".to_string()]);
    resolver.remember("CUST", "       01 CUST-ID PIC 9(5).\n");
    assert_eq!(resolver.cached("CUST").as_deref(), Some("       01 CUST-ID PIC 9(5).\n"));
    let out = resolver.resolve("       COPY CUST.\n       DISPLAY \"X\".\n").unwrap();
    assert_eq!(out, "       01 CUST-ID PIC 9(5).\n\n       DISPLAY \"X\".\n");
}

#[test]
fn resolve_reports_a_missing_copybook() {
    let resolver = CopybookResolver::new(vec![]);
    match resolver.resolve("       COPY MISSING.\n") {
        Err(CopybookError::NotLoaded(name)) => assert_eq!(name, "MISSING"),
        _ => panic!("expected a missing copybook"),
    }
}

#[test]
fn copy_references_are_found_in_order() {
    let refs = CopybookResolver::find_copy_references("COPY A.\n  copy b-c.\nMOVE X TO Y.\nCOPY A.");
    assert_eq!(refs, vec!["A", "b-c", "A"]);
}

#[test]
fn candidate_names_cover_extensions() {
    let names = CopybookResolver::candidate_names("CUST");
    assert_eq!(names.len(), 21);
    assert_eq!(names[0], "CUST.cpy");
    assert_eq!(names[2], "cust.cpy");
    assert_eq!(names[18], "CUST");
    assert_eq!(names[20], "cust");
}

#[test]
fn remember_keeps_the_first_content() {
    let mut resolver = CopybookResolver::new(vec![]);
    resolver.remember("A", "one");
    resolver.remember("A", "two");
    assert_eq!(resolver.cached("A").as_deref(), Some("one"));
    assert!(resolver.cached("B").is_none());
    assert!(resolver.search_paths().is_empty());
}
