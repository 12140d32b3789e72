use cobol_to_rust::data_division::{line_pic_fits, parse_data_items, parse_pic_clause, pic_fits};
use cobol_to_rust::types::PicType;

#[test]
fn test_parse_pic_numeric_integer() {
    let pic = parse_pic_clause("9(7)").unwrap();
    assert_eq!(pic.integer_digits, 7);
    assert_eq!(pic.decimal_digits, 0);
    assert!(!pic.signed);
    assert!(matches!(pic.pic_type, PicType::Numeric));
}

#[test]
fn test_parse_pic_numeric_with_decimal() {
    let pic = parse_pic_clause("9(7)V99").unwrap();
    assert_eq!(pic.integer_digits, 7);
    assert_eq!(pic.decimal_digits, 2);
    assert!(!pic.signed);
}

#[test]
fn test_parse_pic_signed() {
    let pic = parse_pic_clause("S9(5)V99").unwrap();
    assert_eq!(pic.integer_digits, 5);
    assert_eq!(pic.decimal_digits, 2);
    assert!(pic.signed);
}

#[test]
fn test_parse_pic_alphanumeric() {
    let pic = parse_pic_clause("X(30)").unwrap();
    assert!(matches!(pic.pic_type, PicType::Alphanumeric));
    assert_eq!(pic.total_size, 30);
}

#[test]
fn test_parse_pic_single_digit() {
    let pic = parse_pic_clause("9").unwrap();
    assert_eq!(pic.integer_digits, 1);
    assert_eq!(pic.decimal_digits, 0);
    assert_eq!(pic.total_size, 1);
}

#[test]
fn test_parse_pic_repeated_digits() {
    let pic = parse_pic_clause("999V99").unwrap();
    assert_eq!(pic.integer_digits, 3);
    assert_eq!(pic.decimal_digits, 2);
}

#[test]
fn pic_keeps_trimmed_text_and_totals() {
    let pic = parse_pic_clause("  s9(3)v9(2). ").unwrap();
    assert_eq!(pic.raw, "s9(3)v9(2)");
    assert!(pic.signed);
    assert_eq!(pic.integer_digits, 3);
    assert_eq!(pic.decimal_digits, 2);
    assert_eq!(pic.total_size, 5);
}

#[test]
fn pic_alphabetic_is_never_signed() {
    let pic = parse_pic_clause("SA(4)").unwrap();
    assert!(matches!(pic.pic_type, PicType::Alphabetic));
    assert!(!pic.signed);
    assert_eq!(pic.total_size, 4);
    assert_eq!(pic.integer_digits, 0);
}

#[test]
fn pic_overflowing_count_is_refused_by_the_check() {
    assert!(pic_fits("9(7)V99"));
    assert!(!pic_fits("9(4294967295)9(4294967295)"));
    assert!(line_pic_fits("       05 WS-A PIC 9(5)."));
}

#[test]
fn data_items_build_a_hierarchy() {
    let lines = vec![
        "       01 WS-RECORD.",
        "          05 WS-NAME PIC X(20).",
        "          05 WS-AMOUNT PIC 9(5)V99 VALUE 0.",
        "       01 WS-FLAG PIC X VALUE 'Y'.",
    ];
    let items = parse_data_items(&lines).unwrap();
    assert_eq!(items.len(), 2);
    assert_eq!(items[0].name, "WS-RECORD");
    assert_eq!(items[0].level, 1);
    assert_eq!(items[0].children.len(), 2);
    assert_eq!(items[0].children[0].name, "WS-NAME");
    assert_eq!(items[0].children[1].picture.as_ref().unwrap().decimal_digits, 2);
    assert_eq!(items[0].children[1].value.as_deref(), Some("0"));
    assert_eq!(items[1].value.as_deref(), Some("Y"));
}

#[test]
fn data_items_skip_comments_and_blank_lines() {
    let lines = vec!["", "      * a comment", "       01 WS-A PIC 9."];
    let items = parse_data_items(&lines).unwrap();
    assert_eq!(items.len(), 1);
    assert!(items[0].children.is_empty());
}

#[test]
fn data_items_redefines_is_read() {
    let lines = vec![
        "       01 WS-BUF PIC X(10).",
        "       01 WS-ALT REDEFINES WS-BUF.",
    ];
    let items = parse_data_items(&lines).unwrap();
    assert_eq!(items[1].redefines.as_deref(), Some("WS-BUF"));
    assert!(items[1].picture.is_none());
}

#[test]
fn pic_sign_follows_unicode_upper_case() {
    // The sharp s upper-cases to "SS": the picture is signed, and the second S is no symbol.
    let pic = parse_pic_clause("ß9(3)").unwrap();
    assert!(pic.signed);
    assert_eq!(pic.integer_digits, 3);
    assert_eq!(pic.raw, "ß9(3)");
    let low = parse_pic_clause("s9(2)v9").unwrap();
    assert!(low.signed);
    assert_eq!((low.integer_digits, low.decimal_digits), (2, 1));
}
