use table_filter::{
    parse_i32, parse_u32, BoolColumnFilter, Cell, ColumnFilter, ColumnKind, I32ColumnFilter,
    MemberColumnFilter, NaiveDateColumnFilter, ScalarValue, StringColumnFilter, U32ColumnFilter,
};

#[test]
fn text_pattern_matches_any_prefix() {
    let f = StringColumnFilter::new("orig");
    assert!(f.search_pattern("AB,SE", "ABQ"));
    assert!(f.search_pattern("AB,SE", "SEA"));
    assert!(!f.search_pattern("AB,SE", "DAL"));
    assert!(!f.search_pattern("AB,SE", "A"));
    assert!(f.search_pattern("DAL", "DAL"));
    assert!(!f.search_pattern("dal", "DAL"));
}

#[test]
fn text_pattern_with_empty_piece_matches_everything() {
    let f = StringColumnFilter::new("orig");
    assert!(f.search_pattern("ZZ,", "DAL"));
    assert!(f.search_pattern("", "DAL"));
}

#[test]
fn unsigned_pattern_combines_conditions_with_and() {
    let f = U32ColumnFilter::new("mileage");
    assert!(f.search_pattern(">500,<1000", "642"));
    assert!(f.search_pattern(">500,<1000", "900"));
    assert!(!f.search_pattern(">500,<1000", "244"));
    assert!(!f.search_pattern(">500,<1000", "1100"));
    assert!(!f.search_pattern(">500,<1000", "500"));
    assert!(!f.search_pattern(">500,<1000", "1000"));
    assert!(f.search_pattern(">500,<1000", "501"));
    assert!(f.search_pattern(">500,<1000", "999"));
}

#[test]
fn unsigned_inclusive_comparisons() {
    let f = U32ColumnFilter::new("mileage");
    assert!(f.search_pattern("<=500", "500"));
    assert!(!f.search_pattern("<=500", "501"));
    assert!(f.search_pattern(">=500", "500"));
    assert!(!f.search_pattern(">=500", "499"));
    assert!(f.search_pattern("<500", "499"));
    assert!(!f.search_pattern("<500", "500"));
}

#[test]
fn range_pattern_is_inclusive() {
    let f = U32ColumnFilter::new("mileage");
    assert!(f.search_pattern("10><20", "10"));
    assert!(f.search_pattern("10><20", "15"));
    assert!(f.search_pattern("10><20", "20"));
    assert!(!f.search_pattern("10><20", "9"));
    assert!(!f.search_pattern("10><20", "21"));
    let g = I32ColumnFilter::new("delta");
    assert!(g.search_pattern("-5><5", "-5"));
    assert!(g.search_pattern("-5><5", "0"));
    assert!(!g.search_pattern("-5><5", "-6"));
}

#[test]
fn unparsable_targets_and_ranges_fail_closed() {
    let f = U32ColumnFilter::new("mileage");
    assert!(!f.search_pattern(">500", "n/a"));
    assert!(!f.search_pattern("1x><20", "15"));
    assert!(!f.search_pattern("<99999999999", "5"));
    assert!(!f.search_pattern(">=4294967296", "5"));
}

#[test]
fn operator_without_numeral_is_a_literal_prefix() {
    let f = U32ColumnFilter::new("mileage");
    assert!(f.search_pattern("<x", "<x1"));
    assert!(!f.search_pattern("<x", "5"));
    assert!(!f.search_pattern("<+5", "4"));
    assert!(f.search_pattern("<+5", "<+57"));
    assert!(!f.search_pattern("=>5", "7"));
    assert!(!f.search_pattern("<", "5"));
    assert!(f.search_pattern("<", "<"));
    assert!(!f.search_pattern("<-1", "0"));
    assert!(!f.search_pattern(">abc", "642"));
    let g = I32ColumnFilter::new("delta");
    assert!(g.search_pattern("<-1", "-5"));
    assert!(g.search_pattern("<-x", "<-x"));
    assert!(!g.search_pattern("<-", "-5"));
}

#[test]
fn member_pattern_needs_an_equal_piece() {
    let f = MemberColumnFilter::new("gate");
    assert!(f.search_pattern("A1,B2", "A1"));
    assert!(f.search_pattern("A1,B2", "B2"));
    assert!(!f.search_pattern("A1,B2", "A12"));
    assert!(!f.search_pattern("A1,B2", "A"));
    assert!(f.search_pattern("N/A", "N/A"));
    let kind = ColumnKind::Member(MemberColumnFilter::new("gate"));
    assert_eq!(kind.id(), "gate");
    assert!(!kind.search_pattern("A1", "A12"));
}

#[test]
fn numeric_pattern_falls_back_to_prefix() {
    let f = U32ColumnFilter::new("mileage");
    assert!(f.search_pattern("64", "642"));
    assert!(!f.search_pattern("42", "642"));
    assert!(f.search_pattern("6,>600", "642"));
    assert!(!f.search_pattern("6,>700", "642"));
}

#[test]
fn signed_pattern_compares_negative_numbers() {
    let f = I32ColumnFilter::new("delta");
    assert!(f.search_pattern("<0", "-3"));
    assert!(!f.search_pattern("<0", "3"));
    assert!(f.search_pattern(">=-3", "-3"));
    assert!(f.search_pattern(">-10,<=-1", "-1"));
}

#[test]
fn boolean_pattern_is_a_substring() {
    let f = BoolColumnFilter::new("cancelled");
    assert!(f.search_pattern("es", "Yes"));
    assert!(f.search_pattern("Y", "Yes"));
    assert!(!f.search_pattern("Y", "No"));
    assert!(f.search_pattern("", "No"));
}

#[test]
fn date_pattern_compares_dates() {
    let f = NaiveDateColumnFilter::new("dep_date", "%m/%d/%Y");
    assert!(f.search_pattern(">01/05/2026", "02/01/2026"));
    assert!(!f.search_pattern(">01/05/2026", "01/05/2026"));
    assert!(f.search_pattern(">=01/05/2026", "01/05/2026"));
    assert!(f.search_pattern("01/01/2026><01/31/2026", "01/31/2026"));
    assert!(!f.search_pattern("01/01/2026><01/31/2026", "02/01/2026"));
    assert!(f.search_pattern(">12/31/2025,<02/01/2026", "01/15/2026"));
    assert!(!f.search_pattern(">13/45/2026", "01/15/2026"));
    assert!(f.search_pattern("01/", "01/15/2026"));
}

#[test]
fn date_display_uses_the_format() {
    let f = NaiveDateColumnFilter::new("dep_date", "%m/%d/%Y");
    assert_eq!(f.get_string_value(0), "01/01/1970");
    assert_eq!(f.get_string_value(13036), "09/10/2005");
    assert_eq!(f.get_string_value(-1), "12/31/1969");
    let iso = NaiveDateColumnFilter::new("dep_date", "%Y-%m-%d");
    assert_eq!(iso.get_string_value(13036), "2005-09-10");
}

#[test]
fn date_display_reports_what_it_cannot_write() {
    let f = NaiveDateColumnFilter::new("dep_date", "%m/%d/%Y");
    assert_eq!(f.get_string_value(100_000_000), "PARSE ERR");
    let bad = NaiveDateColumnFilter::new("dep_date", "%H:%M");
    assert_eq!(bad.get_string_value(0), "PARSE ERR");
}

#[test]
fn column_kind_dispatches_on_grammar() {
    let text = ColumnKind::Text(StringColumnFilter::new("a"));
    let num = ColumnKind::Unsigned(U32ColumnFilter::new("b"));
    assert_eq!(text.id(), "a");
    assert_eq!(num.id(), "b");
    assert!(text.search_pattern("1,2", "20"));
    assert!(!num.search_pattern("1,2", "20"));
}

#[test]
fn parse_u32_follows_decimal_notation() {
    assert_eq!(parse_u32("0"), Some(0));
    assert_eq!(parse_u32("+12"), Some(12));
    assert_eq!(parse_u32("007"), Some(7));
    assert_eq!(parse_u32("4294967295"), Some(u32::MAX));
    assert_eq!(parse_u32("4294967296"), None);
    assert_eq!(parse_u32("99999999999999999999"), None);
    assert_eq!(parse_u32(""), None);
    assert_eq!(parse_u32("+"), None);
    assert_eq!(parse_u32("-1"), None);
    assert_eq!(parse_u32("1 "), None);
    assert_eq!(parse_u32("12a"), None);
}

#[test]
fn parse_i32_follows_decimal_notation() {
    assert_eq!(parse_i32("-2147483648"), Some(i32::MIN));
    assert_eq!(parse_i32("2147483647"), Some(i32::MAX));
    assert_eq!(parse_i32("2147483648"), None);
    assert_eq!(parse_i32("-2147483649"), None);
    assert_eq!(parse_i32("-0"), Some(0));
    assert_eq!(parse_i32("+5"), Some(5));
    assert_eq!(parse_i32("-"), None);
    assert_eq!(parse_i32("--1"), None);
}

#[test]
fn scalar_values_compare_structurally() {
    let a = ScalarValue::Str("ABQ".to_string());
    let b = ScalarValue::Str("ABQ".to_string());
    let c = ScalarValue::Str("ABR".to_string());
    assert!(a.same_as(&b));
    assert!(!a.same_as(&c));
    assert!(!ScalarValue::U32(1).same_as(&ScalarValue::I32(1)));
    assert!(a.less_or_equal(&c));
    assert!(!c.less_or_equal(&a));
    assert!(ScalarValue::Str("AB".to_string()).less_or_equal(&a));
    assert!(ScalarValue::U32(244).less_or_equal(&ScalarValue::U32(1100)));
    assert!(!ScalarValue::U32(1100).less_or_equal(&ScalarValue::U32(244)));
    assert!(ScalarValue::I32(-5).less_or_equal(&ScalarValue::I32(3)));
    assert!(ScalarValue::Bool(false).less_or_equal(&ScalarValue::Bool(true)));
    assert!(!ScalarValue::Bool(true).less_or_equal(&ScalarValue::Bool(false)));
    assert_eq!(a.duplicate(), a);
}

#[test]
fn values_have_a_canonical_text() {
    assert_eq!(ScalarValue::U32(0).to_text(), "0");
    assert_eq!(ScalarValue::U32(642).to_text(), "642");
    assert_eq!(ScalarValue::U32(u32::MAX).to_text(), "4294967295");
    assert_eq!(ScalarValue::I32(-7).to_text(), "-7");
    assert_eq!(ScalarValue::I32(i32::MIN).to_text(), "-2147483648");
    assert_eq!(ScalarValue::I32(1100).to_text(), "1100");
    assert_eq!(ScalarValue::Bool(true).to_text(), "true");
    assert_eq!(ScalarValue::Bool(false).to_text(), "false");
    assert_eq!(ScalarValue::Str("ABQ".to_string()).to_text(), "ABQ");
    let cell = Cell::of_value(ScalarValue::U32(900));
    assert_eq!(cell.display, "900");
    assert_eq!(cell.value, ScalarValue::U32(900));
}
