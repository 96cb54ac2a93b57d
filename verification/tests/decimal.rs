use gocortex::decimal::{number_chars, only_digits, Decimal};

fn dec(text: &str) -> Decimal {
    Decimal::from_text(text).expect("a decimal number")
}

fn chars(text: &str) -> Vec<char> {
    text.chars().collect()
}

#[test]
fn decimal_reads_digits_and_point() {
    assert_eq!(dec("10.90").to_text(), "10.90");
    assert_eq!(dec("100").to_text(), "100");
    assert_eq!(dec("5.").to_text(), "5");
    assert_eq!(dec(".5").to_text(), "0.5");
    assert_eq!(dec("0042.10").to_text(), "42.10");
    assert_eq!(dec("000").to_text(), "0");
    assert_eq!(dec("2.01").to_text().parse::<f64>().unwrap(), 2.01);
}

#[test]
fn decimal_refuses_what_is_no_number() {
    assert!(Decimal::from_text("").is_none());
    assert!(Decimal::from_text(".").is_none());
    assert!(Decimal::from_text("1.2.3").is_none());
    assert!(Decimal::from_text("12s").is_none());
    assert!(Decimal::from_text("-1").is_none());
    assert!(Decimal::from_text("1e5").is_none());
    assert!(Decimal::from_text(" 1").is_none());
    assert!(Decimal::parse(&chars("3.14")).is_some());
}

#[test]
fn decimal_zero_is_zero() {
    assert_eq!(Decimal::zero().to_text(), "0");
    assert_eq!(Decimal::zero().to_fixed2(), "0.00");
    assert!(Decimal::zero().is_at_most(0));
    assert!(Decimal::zero().is_at_least(0));
    assert!(!Decimal::zero().is_at_least(1));
}

#[test]
fn decimal_fixed2_pads_short_fractions() {
    assert_eq!(dec("7").to_fixed2(), "7.00");
    assert_eq!(dec("2.5").to_fixed2(), "2.50");
    assert_eq!(dec("45.87").to_fixed2(), "45.87");
    assert_eq!(dec(".5").to_fixed2(), "0.50");
    assert_eq!(dec("5.").to_fixed2(), "5.00");
    assert_eq!(dec("0042.1").to_fixed2(), "42.10");
    assert_eq!(dec("100").to_fixed2(), "100.00");
}

#[test]
fn decimal_fixed2_rounds_to_nearest() {
    assert_eq!(dec("1.234").to_fixed2(), "1.23");
    assert_eq!(dec("1.236").to_fixed2(), "1.24");
    assert_eq!(dec("1.2349999").to_fixed2(), "1.23");
    assert_eq!(dec("1.2350001").to_fixed2(), "1.24");
    assert_eq!(dec("9.996").to_fixed2(), "10.00");
    assert_eq!(dec("99.999").to_fixed2(), "100.00");
    assert_eq!(dec("0.004").to_fixed2(), "0.00");
}

#[test]
fn decimal_fixed2_rounds_halves_to_even() {
    assert_eq!(dec("0.125").to_fixed2(), "0.12");
    assert_eq!(dec("0.375").to_fixed2(), "0.38");
    assert_eq!(dec("0.135").to_fixed2(), "0.14");
    assert_eq!(dec("1.005").to_fixed2(), "1.00");
    assert_eq!(dec("9.995").to_fixed2(), "10.00");
    assert_eq!(dec("0.12500").to_fixed2(), "0.12");
    assert_eq!(dec("0.12501").to_fixed2(), "0.13");
}

#[test]
fn decimal_fixed2_reads_back_within_a_hundredth() {
    for text in ["2.01", "10.90", "542.34", "100", "0.125", "9.995", "3.14159", "12345678901234567890.5"] {
        let source = dec(text);
        let written = source.to_fixed2();
        let back = dec(&written);
        assert_eq!(back.to_text(), written);
        let a = source.to_text().parse::<f64>().unwrap();
        let b = back.to_text().parse::<f64>().unwrap();
        assert!((a - b).abs() <= 0.01, "{} became {}", text, written);
    }
}

#[test]
fn decimal_compares_with_whole_numbers() {
    assert!(dec("80.0").is_at_most(80));
    assert!(dec("80").is_at_most(80));
    assert!(dec("79.99").is_at_most(80));
    assert!(!dec("80.01").is_at_most(80));
    assert!(!dec("80.0000000000000000000000001").is_at_most(80));
    assert!(!dec("81").is_at_most(80));
    assert!(dec("10.0").is_at_least(10));
    assert!(dec("10").is_at_least(10));
    assert!(!dec("9.99").is_at_least(10));
    assert!(!dec("9.9999999999999999999999999").is_at_least(10));
    assert!(dec("11").is_at_least(10));
}

#[test]
fn decimal_compares_numbers_beyond_64_bits() {
    let huge = dec("99999999999999999999999999.5");
    assert!(!huge.is_at_most(80));
    assert!(huge.is_at_least(10));
    assert!(!huge.is_at_most(u64::MAX));
    assert!(huge.is_at_least(u64::MAX));
    assert_eq!(huge.to_fixed2(), "99999999999999999999999999.50");
    assert!(dec("18446744073709551615").is_at_most(u64::MAX));
    assert!(dec("18446744073709551615").is_at_least(u64::MAX));
    assert!(!dec("18446744073709551616").is_at_most(u64::MAX));
}

#[test]
fn decimal_clone_keeps_the_number() {
    let d = dec("12.345");
    let e = d.clone();
    assert_eq!(d.to_text(), e.to_text());
    assert_eq!(e.to_fixed2(), "12.34");
}

#[test]
fn number_chars_writes_shortest_form() {
    assert_eq!(number_chars(0), vec!['0']);
    assert_eq!(number_chars(7), vec!['7']);
    assert_eq!(number_chars(10), vec!['1', '0']);
    assert_eq!(number_chars(1234567890), chars("1234567890"));
    assert_eq!(number_chars(u64::MAX), chars("18446744073709551615"));
}

#[test]
fn only_digits_tells_digits() {
    assert!(only_digits(&chars("0123456789")));
    assert!(only_digits(&chars("")));
    assert!(!only_digits(&chars("12.3")));
    assert!(!only_digits(&chars("12a")));
}
