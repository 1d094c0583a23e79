use opportunity_rank::decimal::{parse_fixed, SCALE};
use opportunity_rank::opportunity::fees_24h;

#[test]
fn parses_whole_numbers() {
    assert_eq!(parse_fixed("20000"), Some(20_000 * SCALE));
    assert_eq!(parse_fixed("0"), Some(0));
    assert_eq!(parse_fixed("007"), Some(7 * SCALE));
}

#[test]
fn parses_fractions() {
    assert_eq!(parse_fixed("20000.01"), Some(20_000_010_000));
    assert_eq!(parse_fixed("1.5"), Some(1_500_000));
    assert_eq!(parse_fixed("0.000001"), Some(1));
    assert_eq!(parse_fixed("10.000000"), Some(10_000_000));
}

#[test]
fn rejects_malformed_text() {
    assert_eq!(parse_fixed(""), None);
    assert_eq!(parse_fixed(".5"), None);
    assert_eq!(parse_fixed("5."), None);
    assert_eq!(parse_fixed("1.2.3"), None);
    assert_eq!(parse_fixed("-1"), None);
    assert_eq!(parse_fixed("1e5"), None);
    assert_eq!(parse_fixed(" 1"), None);
    assert_eq!(parse_fixed("abc"), None);
    assert_eq!(parse_fixed("1.1234567"), None);
}

#[test]
fn largest_value_fits_and_next_does_not() {
    assert_eq!(parse_fixed("18446744073709.551615"), Some(u64::MAX));
    assert_eq!(parse_fixed("18446744073709.551616"), None);
    assert_eq!(parse_fixed("99999999999999999999999999"), None);
}

#[test]
fn fees_are_ratio_percent_of_liquidity() {
    assert_eq!(fees_24h(10 * SCALE, 50_000 * SCALE), 5_000 * SCALE as u128);
    assert_eq!(fees_24h(0, 50_000 * SCALE), 0);
    assert_eq!(fees_24h(1_500_000, 30_000 * SCALE), 450 * SCALE as u128);
    assert_eq!(fees_24h(u64::MAX, u64::MAX), (u64::MAX as u128 * u64::MAX as u128) / 100_000_000);
}
