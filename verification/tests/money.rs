use loan_wallet::models::money::{amount_parse_fails, Currency, Money};

#[test]
fn parses_integer() {
    let m = Money::parse("12345", Currency::Uzs).unwrap();
    assert_eq!(m.amount_minor, 1_234_500);
}

#[test]
fn parses_fractional() {
    let m = Money::parse("12,5", Currency::Rub).unwrap();
    assert_eq!(m.amount_minor, 1250);
    let m = Money::parse("12.05", Currency::Rub).unwrap();
    assert_eq!(m.amount_minor, 1205);
}

#[test]
fn formats_grouped() {
    let m = Money::new(1_234_500, Currency::Uzs);
    assert_eq!(m.format(), "12 345 сум");
    let m = Money::new(1205, Currency::Rub);
    assert_eq!(m.format(), "12,05 ₽");
}

#[test]
fn formats_negative_and_small_amounts() {
    assert_eq!(Money::new(-123_456_789, Currency::Usd).format(), "-1 234 567,89 $");
    assert_eq!(Money::new(-5, Currency::Eur).format(), "0,05 €");
    assert_eq!(Money::new(0, Currency::Uzs).format(), "0 сум");
    assert_eq!(Money::new(100_000, Currency::Rub).format(), "1 000 ₽");
    assert_eq!(Money::new(i64::MIN, Currency::Usd).format(), "-92 233 720 368 547 758,08 $");
}

#[test]
fn parses_with_spaces_signs_and_padding() {
    assert_eq!(Money::parse(" 12 345.67 ", Currency::Uzs).unwrap().amount_minor, 1_234_567);
    assert_eq!(Money::parse("-3,5", Currency::Uzs).unwrap().amount_minor, -350);
    assert_eq!(Money::parse("-0.5", Currency::Uzs).unwrap().amount_minor, -50);
    assert_eq!(Money::parse("7.", Currency::Uzs).unwrap().amount_minor, 700);
    assert_eq!(Money::parse("1.999", Currency::Uzs).unwrap().amount_minor, 199);
    assert_eq!(Money::parse("+4", Currency::Uzs).unwrap().amount_minor, 400);
}

#[test]
fn rejects_non_numbers() {
    assert!(Money::parse("abc", Currency::Uzs).is_none());
    assert!(Money::parse("", Currency::Uzs).is_none());
    assert!(Money::parse(".5", Currency::Uzs).is_none());
    assert!(Money::parse("1.x", Currency::Uzs).is_none());
    assert!(Money::parse("1.é", Currency::Uzs).is_none());
}

#[test]
fn detects_failing_inputs() {
    assert!(amount_parse_fails("1.€"));
    assert!(amount_parse_fails("1.5€"));
    assert!(amount_parse_fails("99999999999999999"));
    assert!(!amount_parse_fails("12.05"));
    assert!(!amount_parse_fails("abc"));
}

#[test]
fn currency_codes_in_any_case() {
    assert_eq!(Currency::parse("usd"), Some(Currency::Usd));
    assert_eq!(Currency::parse("сум"), Some(Currency::Uzs));
    assert_eq!(Currency::parse("Rur"), Some(Currency::Rub));
    assert_eq!(Currency::parse("€"), Some(Currency::Eur));
    assert_eq!(Currency::parse("btc"), None);
    assert_eq!(Currency::from_code("usd"), None);
    assert_eq!(Currency::Uzs.symbol(), "сум");
    assert_eq!(Currency::Rub.minor_per_major(), 100);
}

#[test]
fn formatted_amounts_read_back() {
    for (amount, currency) in [(0, Currency::Uzs), (5, Currency::Rub), (1205, Currency::Rub), (1_234_500, Currency::Uzs), (123_456_789, Currency::Usd), (i64::MAX, Currency::Eur)] {
        let m = Money::new(amount, currency);
        let shown = m.format();
        let suffix = format!(" {}", currency.symbol());
        let number = shown.strip_suffix(&suffix).unwrap();
        assert_eq!(Money::parse(number, currency), Some(m));
    }
}
