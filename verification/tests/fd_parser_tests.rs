use cobol_to_rust::fd_parser::{FdDefinition, FileOrganization};

#[test]
fn test_fd_definition_default_sequential() {
    let fd = FdDefinition {
        name: "TRANS-FILE".to_string(),
        record_len: Some(80),
        block_contains: Some(10),
        organization: FileOrganization::Sequential,
    };
    assert_eq!(fd.name, "TRANS-FILE");
    assert_eq!(fd.record_len, Some(80));
    assert_eq!(fd.block_contains, Some(10));
    assert_eq!(fd.organization, FileOrganization::Sequential);
}

#[test]
fn test_fd_definition_no_record_len() {
    let fd = FdDefinition {
        name: "VAR-FILE".to_string(),
        record_len: None,
        block_contains: None,
        organization: FileOrganization::Sequential,
    };
    assert!(fd.record_len.is_none());
    assert!(fd.rust_read_exact_snippet().is_none());
    assert!(fd.rust_write_all_snippet().is_none());
}

#[test]
fn test_rust_read_exact_snippet_contains_read_exact() {
    let fd = FdDefinition {
        name: "INPUT-FILE".to_string(),
        record_len: Some(21),
        block_contains: None,
        organization: FileOrganization::Sequential,
    };
    let snippet = fd.rust_read_exact_snippet().unwrap();
    assert!(snippet.contains("read_exact"), "snippet should use read_exact");
    assert!(snippet.contains("21"), "snippet should reference record length 21");
}

#[test]
fn test_rust_write_all_snippet_contains_write_all() {
    let fd = FdDefinition {
        name: "OUTPUT-FILE".to_string(),
        record_len: Some(80),
        block_contains: None,
        organization: FileOrganization::Sequential,
    };
    let snippet = fd.rust_write_all_snippet().unwrap();
    assert!(snippet.contains("write_all"), "snippet should use write_all");
    assert!(snippet.contains("80"), "snippet should reference record length 80");
}

#[test]
fn test_fd_indexed_organization() {
    let fd = FdDefinition {
        name: "CUSTOMER-FILE".to_string(),
        record_len: Some(200),
        block_contains: None,
        organization: FileOrganization::Indexed,
    };
    assert_eq!(fd.organization, FileOrganization::Indexed);
}

#[test]
fn write_snippet_exact_text() {
    let fd = FdDefinition {
        name: "F".to_string(),
        record_len: Some(7),
        block_contains: None,
        organization: FileOrganization::Relative,
    };
    assert_eq!(
        fd.rust_write_all_snippet().unwrap(),
        "let mut record = vec![b' '; 7];\n// Fill record bytes, then:\nwriter.write_all(&record)?;"
    );
}
