use cryptowatcher::market::{parse_change_hundredths, parse_price_cents, parse_volume, FetchError};
use cryptowatcher::money::{ago_label, format_percent, format_price, format_price_short,
    format_volume};
use cryptowatcher::symbols::sanitize_symbol;

#[test]
fn test_format_volume() {
    assert_eq!(format_volume(500), "500");
    assert_eq!(format_volume(1_500), "1.5K");
    assert_eq!(format_volume(1_500_000), "1.5M");
    assert_eq!(format_volume(1_500_000_000), "1.5B");
}

#[test]
fn test_format_volume_rounds_half_up() {
    assert_eq!(format_volume(0), "0");
    assert_eq!(format_volume(999), "999");
    assert_eq!(format_volume(1_049), "1.0K");
    assert_eq!(format_volume(1_050), "1.1K");
    assert_eq!(format_volume(999_999), "1000.0K");
}

#[test]
fn test_format_price() {
    assert_eq!(format_price(50), "$0.50");
    assert_eq!(format_price(9999), "$99.99");
    assert_eq!(format_price(100000), "$1,000.00");
    assert_eq!(format_price(4206942), "$42,069.42");
    assert_eq!(format_price(10000000), "$100,000.00");
}

#[test]
fn test_format_price_grouping_wide() {
    assert_eq!(format_price(0), "$0.00");
    assert_eq!(format_price(123_456_789_012), "$1,234,567,890.12");
}

#[test]
fn test_format_price_short() {
    assert_eq!(format_price_short(50), "$0.50");
    assert_eq!(format_price_short(99999), "$999.99");
    assert_eq!(format_price_short(150000), "$1.5k");
    assert_eq!(format_price_short(150_000_000), "$1.5M");
}

#[test]
fn test_format_price_short_boundaries() {
    assert_eq!(format_price_short(100000), "$1.0k");
    assert_eq!(format_price_short(999_999), "$10.0k");
    assert_eq!(format_price_short(100_000_000), "$1.0M");
}

#[test]
fn test_format_percent() {
    assert_eq!(format_percent(325), "3.25%");
    assert_eq!(format_percent(-150), "1.50%");
    assert_eq!(format_percent(0), "0.00%");
    assert_eq!(format_percent(10001), "100.01%");
}

#[test]
fn test_ago_label() {
    assert_eq!(ago_label(0), "0s ago");
    assert_eq!(ago_label(59), "59s ago");
    assert_eq!(ago_label(60), "1m ago");
    assert_eq!(ago_label(150), "2m ago");
}

#[test]
fn test_parse_price_cents() {
    assert_eq!(parse_price_cents("50000.12"), Some(5_000_012));
    assert_eq!(parse_price_cents("123"), Some(12_300));
    assert_eq!(parse_price_cents(".5"), Some(50));
    assert_eq!(parse_price_cents("5."), Some(500));
    assert_eq!(parse_price_cents("0.005"), Some(1));
    assert_eq!(parse_price_cents("0.004999"), Some(0));
    assert_eq!(parse_price_cents(""), None);
    assert_eq!(parse_price_cents("."), None);
    assert_eq!(parse_price_cents("abc"), None);
    assert_eq!(parse_price_cents("1.2.3"), None);
    assert_eq!(parse_price_cents("-1.00"), None);
    assert_eq!(parse_price_cents("99999999999999999999"), None);
}

#[test]
fn test_parse_volume() {
    assert_eq!(parse_volume("1500.4"), Some(1500));
    assert_eq!(parse_volume("1500.5"), Some(1501));
    assert_eq!(parse_volume("0"), Some(0));
    assert_eq!(parse_volume("x"), None);
}

#[test]
fn test_parse_change_hundredths() {
    assert_eq!(parse_change_hundredths("-1.25"), Some(-125));
    assert_eq!(parse_change_hundredths("3.5"), Some(350));
    assert_eq!(parse_change_hundredths("0"), Some(0));
    assert_eq!(parse_change_hundredths("-"), None);
    assert_eq!(parse_change_hundredths("--1"), None);
}

#[test]
fn test_sanitize_symbol() {
    assert_eq!(sanitize_symbol("btc").as_deref(), Some("BTCUSDT"));
    assert_eq!(sanitize_symbol("Eth").as_deref(), Some("ETHUSDT"));
    assert_eq!(sanitize_symbol("SOL2").as_deref(), Some("SOL2USDT"));
    assert_eq!(sanitize_symbol(""), Some("USDT".to_string()));
    assert_eq!(sanitize_symbol("b c"), None);
    assert_eq!(sanitize_symbol("btc!"), None);
}

#[test]
fn test_fetch_error_labels() {
    assert_eq!(FetchError::Network.label(), "network error");
    assert_eq!(FetchError::Api(500).label(), "API error 500");
    assert_eq!(FetchError::Decode.label(), "malformed response");
    assert_eq!(FetchError::NoData.label(), "no data");
}
