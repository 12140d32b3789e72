use cobol_to_rust::redefines::{
    extract_redefines, pic_byte_size, to_rust_field_name, to_rust_type_name, RedefinesField,
    RedefinesFieldType, RedefinesSpec,
};
use cobol_to_rust::types::{DataItem, PicClause, PicType};

fn alphanumeric_pic(size: u32) -> PicClause {
    PicClause {
        raw: format!("X({})", size),
        pic_type: PicType::Alphanumeric,
        integer_digits: 0,
        decimal_digits: 0,
        signed: false,
        total_size: size,
    }
}

fn numeric_pic(int_digits: u32, dec_digits: u32, signed: bool) -> PicClause {
    PicClause {
        raw: format!("9({})", int_digits),
        pic_type: PicType::Numeric,
        integer_digits: int_digits,
        decimal_digits: dec_digits,
        signed,
        total_size: int_digits + dec_digits,
    }
}

fn make_item(
    name: &str,
    level: u8,
    picture: Option<PicClause>,
    redefines: Option<&str>,
    children: Vec<DataItem>,
) -> DataItem {
    DataItem {
        level,
        name: name.to_string(),
        picture,
        value: None,
        redefines: redefines.map(|s| s.to_string()),
        children,
    }
}

#[test]
fn test_to_rust_type_name() {
    assert_eq!(to_rust_type_name("WS-BUFFER"), "WsBuffer");
    assert_eq!(to_rust_type_name("INPUT-RECORD"), "InputRecord");
    assert_eq!(to_rust_type_name("TRANS-FILE"), "TransFile");
}

#[test]
fn test_to_rust_field_name() {
    assert_eq!(to_rust_field_name("WS-FIRST-NAME"), "ws_first_name");
    assert_eq!(to_rust_field_name("TR-AMOUNT"), "tr_amount");
}

#[test]
fn test_buffer_struct_decl() {
    let spec = RedefinesSpec {
        base_name: "WS-BUFFER".to_string(),
        base_size: 10,
        alias_name: "WS-NAME".to_string(),
        fields: vec![],
    };
    let decl = spec.buffer_struct_decl();
    assert!(decl.contains("WsBuffer"), "should use CamelCase type name");
    assert!(decl.contains("[u8; 10]"), "should declare correct byte array size");
}

#[test]
fn test_alias_struct_decl_alphanumeric() {
    let spec = RedefinesSpec {
        base_name: "WS-BUFFER".to_string(),
        base_size: 10,
        alias_name: "WS-NAME".to_string(),
        fields: vec![
            RedefinesField {
                name: "WS-FIRST".to_string(),
                offset: 0,
                length: 5,
                field_type: RedefinesFieldType::Alphanumeric,
            },
            RedefinesField {
                name: "WS-LAST".to_string(),
                offset: 5,
                length: 5,
                field_type: RedefinesFieldType::Alphanumeric,
            },
        ],
    };
    let decl = spec.alias_struct_decl();
    assert!(decl.contains("WsName"), "should use CamelCase alias type name");
    assert!(decl.contains("ws_first: String"), "alphanumeric field should be String");
    assert!(decl.contains("ws_last: String"), "alphanumeric field should be String");
}

#[test]
fn test_from_impl_generated() {
    let spec = RedefinesSpec {
        base_name: "WS-BUF".to_string(),
        base_size: 6,
        alias_name: "WS-PARTS".to_string(),
        fields: vec![
            RedefinesField {
                name: "WS-A".to_string(),
                offset: 0,
                length: 3,
                field_type: RedefinesFieldType::Alphanumeric,
            },
            RedefinesField {
                name: "WS-B".to_string(),
                offset: 3,
                length: 3,
                field_type: RedefinesFieldType::Alphanumeric,
            },
        ],
    };
    let impl_code = spec.from_impl();
    assert!(impl_code.contains("impl From<WsBuf> for WsParts"), "should have From impl");
    assert!(
        impl_code.contains("from_utf8_lossy(&buf.0[0..3])"),
        "should use correct byte slice for ws_a"
    );
    assert!(
        impl_code.contains("from_utf8_lossy(&buf.0[3..6])"),
        "should use correct byte slice for ws_b"
    );
}

#[test]
fn test_extract_redefines_from_data_items() {
    let base = make_item("WS-BUFFER", 1, Some(alphanumeric_pic(10)), None, vec![]);
    let child1 = make_item("WS-FIRST", 5, Some(alphanumeric_pic(5)), None, vec![]);
    let child2 = make_item("WS-LAST", 5, Some(alphanumeric_pic(5)), None, vec![]);
    let alias = make_item("WS-NAME", 1, None, Some("WS-BUFFER"), vec![child1, child2]);
    let items = vec![base, alias];
    let specs = extract_redefines(&items);
    assert_eq!(specs.len(), 1);
    let spec = &specs[0];
    assert_eq!(spec.base_name, "WS-BUFFER");
    assert_eq!(spec.base_size, 10);
    assert_eq!(spec.alias_name, "WS-NAME");
    assert_eq!(spec.fields.len(), 2);
    assert_eq!(spec.fields[0].offset, 0);
    assert_eq!(spec.fields[0].length, 5);
    assert_eq!(spec.fields[1].offset, 5);
    assert_eq!(spec.fields[1].length, 5);
}

#[test]
fn test_generate_all_produces_complete_code() {
    let spec = RedefinesSpec {
        base_name: "WS-RECORD".to_string(),
        base_size: 20,
        alias_name: "WS-PARSED".to_string(),
        fields: vec![RedefinesField {
            name: "WS-CODE".to_string(),
            offset: 0,
            length: 20,
            field_type: RedefinesFieldType::Alphanumeric,
        }],
    };
    let code = spec.generate_all();
    assert!(code.contains("WsRecord([u8; 20])"), "buffer struct");
    assert!(code.contains("struct WsParsed"), "alias struct");
    assert!(code.contains("impl From<WsRecord> for WsParsed"), "From impl");
}

#[test]
fn redefines_fields_are_contiguous_and_typed() {
    let base = make_item("WS-REC", 1, Some(alphanumeric_pic(12)), None, vec![]);
    let a = make_item("WS-AMT", 5, Some(numeric_pic(5, 2, false)), None, vec![]);
    let group = make_item("WS-GRP", 5, None, None, vec![]);
    let b = make_item("WS-CNT", 5, Some(numeric_pic(5, 0, true)), None, vec![]);
    let alias = make_item("WS-VIEW", 1, None, Some("WS-REC"), vec![a, group, b]);
    let specs = extract_redefines(&[base, alias]);
    assert_eq!(specs.len(), 1);
    let f = &specs[0].fields;
    assert_eq!(f.len(), 2);
    assert_eq!((f[0].offset, f[0].length), (0, 7));
    assert_eq!(f[0].field_type, RedefinesFieldType::Decimal { decimal_digits: 2 });
    assert_eq!((f[1].offset, f[1].length), (7, 5));
    assert_eq!(f[1].field_type, RedefinesFieldType::Numeric { signed: true });
    assert_eq!(specs[0].base_size, 12);
}

#[test]
fn redefines_missing_base_has_size_zero() {
    let alias = make_item("WS-VIEW", 1, None, Some("WS-NOPE"), vec![]);
    let specs = extract_redefines(&[alias]);
    assert_eq!(specs[0].base_size, 0);
    assert!(specs[0].fields.is_empty());
}

#[test]
fn alias_struct_types_by_field_kind() {
    let spec = RedefinesSpec {
        base_name: "B".to_string(),
        base_size: 3,
        alias_name: "A-B".to_string(),
        fields: vec![
            RedefinesField { name: "N-1".to_string(), offset: 0, length: 1, field_type: RedefinesFieldType::Numeric { signed: false } },
            RedefinesField { name: "N-2".to_string(), offset: 1, length: 1, field_type: RedefinesFieldType::Numeric { signed: true } },
            RedefinesField { name: "D-3".to_string(), offset: 2, length: 1, field_type: RedefinesFieldType::Decimal { decimal_digits: 1 } },
        ],
    };
    assert_eq!(
        spec.alias_struct_decl(),
        "#[derive(Debug, Clone)]\nstruct AB {\n    pub n_1: u64,\n    pub n_2: i64,\n    pub d_3: rust_decimal::Decimal,\n}"
    );
    assert_eq!(spec.buffer_struct_decl(), "#[derive(Debug, Clone)]\nstruct B([u8; 3]);");
}

#[test]
fn pic_byte_size_is_total_size() {
    assert_eq!(pic_byte_size(&numeric_pic(7, 2, true)), 9);
}

#[test]
fn names_follow_unicode_case_mapping() {
    assert_eq!(cobol_to_rust::redefines::to_rust_field_name("WS-ÄNDERUNG"), "ws_änderung");
    assert_eq!(cobol_to_rust::redefines::to_rust_type_name("ÉTAT-CIVIL"), "ÉtatCivil");
    assert_eq!(cobol_to_rust::redefines::to_rust_type_name("ßX"), "SSx");
    assert_eq!(cobol_to_rust::sql_gen::to_rust_var("KUNDEN-ÖL"), "kunden_öl");
}
