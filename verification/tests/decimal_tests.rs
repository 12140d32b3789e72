use cobol_to_rust::compute::{checked_cobol_truncate, cobol_round, cobol_truncate, DecimalParts, MAX_MANTISSA};
use cobol_to_rust::compute::generate_compute_assignment;
use cobol_to_rust::decimal::{requires_decimal, rust_default_for_pic, rust_type_for_pic};
use cobol_to_rust::types::{PicClause, PicType};

fn make_pic(pic_type: PicType, int_d: u32, dec_d: u32, signed: bool) -> PicClause {
    PicClause {
        raw: String::new(),
        pic_type,
        integer_digits: int_d,
        decimal_digits: dec_d,
        signed,
        total_size: int_d + dec_d,
    }
}

#[test]
fn test_numeric_with_decimal_uses_decimal() {
    let pic = make_pic(PicType::Numeric, 7, 2, false);
    assert_eq!(rust_type_for_pic(&pic), "Decimal");
    assert!(requires_decimal(&pic));
}

#[test]
fn test_numeric_integer_uses_u32() {
    let pic = make_pic(PicType::Numeric, 7, 0, false);
    assert_eq!(rust_type_for_pic(&pic), "u32");
    assert!(!requires_decimal(&pic));
}

#[test]
fn test_signed_numeric_uses_i32() {
    let pic = make_pic(PicType::Numeric, 5, 0, true);
    assert_eq!(rust_type_for_pic(&pic), "i32");
}

#[test]
fn test_alphanumeric_uses_string() {
    let pic = make_pic(PicType::Alphanumeric, 0, 0, false);
    assert_eq!(rust_type_for_pic(&pic), "String");
}

#[test]
fn test_single_digit_uses_u8() {
    let pic = make_pic(PicType::Numeric, 1, 0, false);
    assert_eq!(rust_type_for_pic(&pic), "u8");
}

#[test]
fn test_default_decimal_value() {
    let pic = make_pic(PicType::Numeric, 7, 2, false);
    let default = rust_default_for_pic(&pic, None);
    assert_eq!(default, "Decimal::new(0, 2)");
}

#[test]
fn test_default_string_value() {
    let pic = PicClause {
        raw: "X(30)".to_string(),
        pic_type: PicType::Alphanumeric,
        integer_digits: 0,
        decimal_digits: 0,
        signed: false,
        total_size: 30,
    };
    let default = rust_default_for_pic(&pic, None);
    assert_eq!(default, "String::with_capacity(30)");
}

#[test]
fn integer_widths_by_digit_count() {
    assert_eq!(rust_type_for_pic(&make_pic(PicType::Numeric, 4, 0, false)), "u16");
    assert_eq!(rust_type_for_pic(&make_pic(PicType::Numeric, 10, 0, false)), "u64");
    assert_eq!(rust_type_for_pic(&make_pic(PicType::Numeric, 2, 0, true)), "i8");
    assert_eq!(rust_type_for_pic(&make_pic(PicType::Numeric, 12, 0, true)), "i64");
}

#[test]
fn defaults_with_values() {
    let s = make_pic(PicType::Alphanumeric, 0, 0, false);
    assert_eq!(rust_default_for_pic(&s, Some("\"ABC\"")), "\"ABC\".to_string()");
    let d = make_pic(PicType::Numeric, 5, 2, false);
    assert_eq!(rust_default_for_pic(&d, Some(" 12.50. ")), "Decimal::from_str(\"12.50\").unwrap()");
    let n = make_pic(PicType::Numeric, 3, 0, false);
    assert_eq!(rust_default_for_pic(&n, Some(" 7.")), "7");
    assert_eq!(rust_default_for_pic(&n, None), "0");
}

#[test]
fn test_generate_compute_no_rounded_decimal() {
    let code = generate_compute_assignment("ws_result", "ws_a / ws_b", 2, false);
    assert!(code.contains("trunc_with_scale(2)"), "truncation should use trunc_with_scale: {}", code);
    assert!(code.contains("ws_result"), "target should appear");
}

#[test]
fn test_generate_compute_rounded_decimal() {
    let code = generate_compute_assignment("ws_result", "ws_a / ws_b", 2, true);
    assert!(code.contains("MidpointAwayFromZero"), "rounding should use half-up strategy: {}", code);
    assert!(!code.contains("trunc"), "ROUNDED should not truncate");
}

#[test]
fn test_generate_compute_integer_target() {
    let code = generate_compute_assignment("ws_count", "ws_a + ws_b", 0, false);
    assert!(code.contains("as i64"), "integer target should cast: {}", code);
}

#[test]
fn test_generate_compute_4dp_rounded() {
    let code = generate_compute_assignment("ws_rate", "ws_amount * ws_factor", 4, true);
    assert!(
        code.contains("round_dp_with_strategy(4"),
        "4dp ROUNDED should use round_dp_with_strategy: {}",
        code
    );
}

#[test]
fn compute_assignment_exact_text() {
    assert_eq!(generate_compute_assignment("x", "a", 0, true), "x = (a) as i64;");
    assert_eq!(generate_compute_assignment("x", "a", 12, false), "x = (a).trunc_with_scale(12);");
}

fn dec(s: &str) -> rust_decimal::Decimal {
    <rust_decimal::Decimal as std::str::FromStr>::from_str(s).unwrap()
}

fn parts(x: rust_decimal::Decimal) -> DecimalParts {
    DecimalParts { mantissa: x.mantissa(), scale: x.scale() }
}

fn value(p: DecimalParts) -> rust_decimal::Decimal {
    rust_decimal::Decimal::from_i128_with_scale(p.mantissa, p.scale)
}

#[test]
fn test_cobol_truncate_not_round() {
    // 1/3 = 0.333... -> truncate to 2dp = 0.33
    let result = value(cobol_truncate(parts(dec("1") / dec("3")), 2));
    assert_eq!(result, dec("0.33"), "truncation: 1/3 with 2dp should be 0.33");
}

#[test]
fn test_cobol_truncate_downward() {
    // 2/3 = 0.666... -> truncate to 2dp = 0.66 (not 0.67)
    let result = value(cobol_truncate(parts(dec("2") / dec("3")), 2));
    assert_eq!(result, dec("0.66"), "truncation: 2/3 with 2dp should be 0.66 not 0.67");
}

#[test]
fn test_cobol_round_up() {
    // 2/3 = 0.666... -> ROUNDED to 2dp = 0.67 (half-up rounding)
    let result = value(cobol_round(parts(dec("2") / dec("3")), 2));
    assert_eq!(result, dec("0.67"), "rounding: 2/3 with 2dp ROUNDED should be 0.67");
}

#[test]
fn test_cobol_round_half_up() {
    // 0.125 -> ROUNDED to 2dp = 0.13 (half-up)
    let result = value(cobol_round(parts(dec("0.125")), 2));
    assert_eq!(result, dec("0.13"), "0.125 rounded to 2dp should be 0.13");
}

#[test]
fn test_cobol_truncate_negative() {
    // -2/3 = -0.666... -> truncate to 2dp = -0.66 (toward zero)
    let result = value(cobol_truncate(parts(dec("-2") / dec("3")), 2));
    assert_eq!(result, dec("-0.66"), "negative truncation should go toward zero");
}

#[test]
fn round_keeps_a_value_with_fewer_places() {
    let p = parts(dec("1.5"));
    assert_eq!(cobol_round(p, 3), p);
    let neg = cobol_round(parts(dec("-0.125")), 2);
    assert_eq!(neg, DecimalParts { mantissa: -13, scale: 2 });
    let down = cobol_round(parts(dec("0.124")), 2);
    assert_eq!(down, DecimalParts { mantissa: 12, scale: 2 });
}

#[test]
fn truncate_to_whole_numbers_and_overflow() {
    assert_eq!(value(cobol_truncate(parts(dec("12.99")), 0)), dec("12"));
    let big = DecimalParts { mantissa: MAX_MANTISSA, scale: 0 };
    assert!(checked_cobol_truncate(big, 2).is_none());
    let ok = checked_cobol_truncate(parts(dec("7.891")), 1).unwrap();
    assert_eq!(value(ok), dec("7.8"));
}
