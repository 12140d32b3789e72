use cobol_to_rust::compute::DecimalParts;
use cobol_to_rust::samples::{balance_layout, checked_parse_amount, checked_pic_format, display_line, format_balance, parse_amount, pic_format, pic_layout};
use cobol_to_rust::convergence::BatchTotals;
use cobol_to_rust::llm::ClaudeProvider;
use cobol_to_rust::report::{
    analysis_report, complexity_for, copybook_infos, is_cobol_file_extension,
    is_copybook_file_extension,
};
use cobol_to_rust::samples::{accumulate, CustomerRecord};
use cobol_to_rust::types::ComplexityLevel;

#[test]
fn complexity_thresholds() {
    assert_eq!(complexity_for(0), ComplexityLevel::Simple);
    assert_eq!(complexity_for(1000), ComplexityLevel::Simple);
    assert_eq!(complexity_for(1001), ComplexityLevel::Moderate);
    assert_eq!(complexity_for(10000), ComplexityLevel::Moderate);
    assert_eq!(complexity_for(10001), ComplexityLevel::Complex);
}

#[test]
fn file_extensions() {
    assert!(is_cobol_file_extension("cob"));
    assert!(is_cobol_file_extension("CBL"));
    assert!(is_cobol_file_extension("Cobol"));
    assert!(!is_cobol_file_extension("cpy"));
    assert!(is_copybook_file_extension("CPY"));
    assert!(is_copybook_file_extension("copy"));
    assert!(!is_copybook_file_extension("cob"));
}

#[test]
fn copybook_infos_name_the_referencing_file() {
    let infos = copybook_infos(vec!["A".to_string(), "B".to_string()], "main.cob");
    assert_eq!(infos.len(), 2);
    assert_eq!(infos[1].name, "B");
    assert_eq!(infos[1].file_path, "");
    assert_eq!(infos[0].referenced_by, vec!["main.cob".to_string()]);
}

#[test]
fn report_keeps_its_parts() {
    let infos = copybook_infos(vec!["A".to_string()], "x.cob");
    let report = analysis_report(Vec::new(), infos, 2500);
    assert_eq!(report.total_lines, 2500);
    assert_eq!(report.complexity, ComplexityLevel::Moderate);
    assert_eq!(report.copybooks.len(), 1);
    assert!(report.programs.is_empty());
}

#[test]
fn provider_settings() {
    let p = ClaudeProvider::new("SECRET-REDACTED".to_string(), "model-a".to_string());
    assert_eq!(p.model(), "model-a");
    assert_eq!(p.api_key(), "SECRET-REDACTED");
    assert_eq!(p.name(), "Anthropic");
    let p2 = p.with_model("other-model".to_string());
    assert_eq!(p2.model(), "other-model");
    assert_eq!(p2.api_key(), "SECRET-REDACTED");
}

#[test]
fn customer_record_display_forms() {
    let mut rec = CustomerRecord::new();
    assert_eq!(rec.cust_id, 0);
    assert_eq!(rec.cust_name.len(), 30);
    assert_eq!(rec.display_id(), "00000");
    assert_eq!(rec.display_name(), "");
    rec.cust_id = 42;
    rec.cust_name = "JOHN SMITH".to_string();
    assert_eq!(rec.display_id(), "00042");
    assert_eq!(rec.display_name(), "JOHN SMITH");
    rec.cust_id = 1234567;
    assert_eq!(rec.display_id(), "1234567");
}

#[test]
fn accumulate_adds_the_counter() {
    let mut total: u32 = 10;
    accumulate(5, &mut total);
    assert_eq!(total, 15);
    accumulate(0, &mut total);
    assert_eq!(total, 15);
}

#[test]
fn batch_totals_add_and_reset() {
    let mut t = BatchTotals::new();
    assert_eq!(t.total_records(), 0);
    t.record_batch(9800, 10000);
    t.record_batch(9000, 10000);
    assert_eq!(t.total_records(), 20000);
    assert_eq!(t.matching_records(), 18800);
    assert!(t.can_record(1, 1));
    t.reset();
    assert_eq!(t.total_records(), 0);
    assert_eq!(t.matching_records(), 0);
    let mut full = BatchTotals::new();
    full.record_batch(0, u64::MAX);
    assert!(!full.can_record(0, 1));
    assert!(full.can_record(5, 0));
}

fn dec_value(s: &str) -> rust_decimal::Decimal {
    <rust_decimal::Decimal as std::str::FromStr>::from_str(s).unwrap()
}

fn parts_of(x: rust_decimal::Decimal) -> DecimalParts {
    DecimalParts { mantissa: x.mantissa(), scale: x.scale() }
}

#[test]
fn display_line_pads_the_counter() {
    assert_eq!(display_line(3), "COUNT: 03");
    assert_eq!(display_line(10), "COUNT: 10");
    assert_eq!(display_line(123), "COUNT: 123");
}

#[test]
fn pic_format_of_the_arithmetic_sample() {
    let price = dec_value("12345.67");
    let tax_rate = dec_value("0.08");
    let factor = dec_value("100");
    let tax = (price * tax_rate * factor).trunc() / factor;
    let total = ((price + tax) * factor).trunc() / factor;
    assert_eq!(pic_format(parts_of(price), 5, 2), "12345.67");
    assert_eq!(pic_format(parts_of(tax), 5, 2), "00987.65");
    assert_eq!(pic_format(parts_of(total), 6, 2), "013333.32");
}

#[test]
fn pic_format_truncates_and_fills_places() {
    assert_eq!(pic_format(parts_of(dec_value("2.999")), 3, 2), "002.99");
    assert_eq!(pic_format(parts_of(dec_value("7")), 2, 3), "07.000");
    assert_eq!(pic_format(parts_of(dec_value("0.5")), 1, 0), "0.");
    assert_eq!(pic_layout("12", 4), "0012.");
    let big = DecimalParts { mantissa: cobol_to_rust::compute::MAX_MANTISSA, scale: 0 };
    assert!(checked_pic_format(big, 5, 2).is_none());
}

#[test]
fn amounts_and_balances_of_the_batch_sample() {
    let deposit = parse_amount("000000099");
    assert_eq!(rust_decimal::Decimal::from_i128_with_scale(deposit.mantissa, deposit.scale), dec_value("0.99"));
    let withdrawal = parse_amount("000000050");
    let w = rust_decimal::Decimal::from_i128_with_scale(withdrawal.mantissa, withdrawal.scale);
    assert_eq!(w, dec_value("0.50"));
    let balance = dec_value("0.99") - w;
    assert_eq!(format_balance(parts_of(dec_value("0.99"))), "00000000000.99");
    assert_eq!(format_balance(parts_of(balance)), "00000000000.49");
    assert_eq!(format_balance(parts_of(dec_value("-1.5"))), "-00000000001.50");
    assert_eq!(balance_layout("12", true), "-00000000012.00");
}

#[test]
fn amount_edge_cases() {
    let zero = parse_amount("  7 ");
    assert_eq!((zero.mantissa, zero.scale), (0, 0));
    let whole = parse_amount("1234");
    assert_eq!(rust_decimal::Decimal::from_i128_with_scale(whole.mantissa, whole.scale), dec_value("12.34"));
    let bad = parse_amount("x1y2");
    assert_eq!(rust_decimal::Decimal::from_i128_with_scale(bad.mantissa, bad.scale), dec_value("0"));
    let plus = parse_amount("+5+7");
    assert_eq!(rust_decimal::Decimal::from_i128_with_scale(plus.mantissa, plus.scale), dec_value("5.07"));
    assert!(checked_parse_amount("000000099").is_some());
}

#[test]
fn line_count_counts_like_str_lines() {
    assert_eq!(cobol_to_rust::text::line_count(""), 0);
    assert_eq!(cobol_to_rust::text::line_count("A\nB\n"), 2);
    assert_eq!(cobol_to_rust::text::line_count("A\r\nB"), 2);
    assert_eq!(cobol_to_rust::text::line_count("\n\n"), 2);
}

#[test]
fn copybook_candidates_use_unicode_case() {
    let names = cobol_to_rust::copybook::CopybookResolver::candidate_names("straße");
    assert_eq!(names[1], "STRASSE.cpy");
    assert_eq!(names[2], "straße.cpy");
}
