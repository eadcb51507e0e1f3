use cryptowatcher::coin::{hm_to_label, CoinData};

#[test]
fn test_coin_data_new() {
    let coin = CoinData::new("BTCUSDT");
    assert_eq!(coin.symbol, "BTCUSDT");
    assert_eq!(coin.display_name, "BTC/USDT");
    assert_eq!(coin.price, 0);
    assert!(coin.price_history.is_empty());
}

#[test]
fn test_coin_data_new_replaces_every_occurrence() {
    let coin = CoinData::new("USDTUSDT");
    assert_eq!(coin.display_name, "/USDT/USDT");
    let plain = CoinData::new("DOGE");
    assert_eq!(plain.display_name, "DOGE");
}

#[test]
fn test_coin_data_load_history() {
    let mut coin = CoinData::new("BTCUSDT");
    let history = vec![(1000, 10000), (2000, 11000), (3000, 10500)];
    coin.load_history(history);

    assert_eq!(coin.price_history.len(), 3);
    assert_eq!(coin.price, 10500);
}

#[test]
fn test_coin_data_load_history_truncates_to_capacity() {
    let mut coin = CoinData::new("BTCUSDT");
    let mut history = Vec::new();
    for i in 0..70i64 {
        history.push((i, 1000 + i as u64));
    }
    coin.load_history(history);
    assert_eq!(coin.price_history.len(), 60);
    // the oldest ten points fell away, the newest survived
    assert_eq!(coin.price_history[0], (10, 1010));
    assert_eq!(coin.price_history[59], (69, 1069));
    assert_eq!(coin.price, 1069);
}

#[test]
fn test_coin_data_history_data() {
    let mut coin = CoinData::new("BTCUSDT");
    coin.load_history(vec![(1000, 10000), (2000, 20000)]);

    let data = coin.history_data();
    assert_eq!(data, vec![(0, 10000), (1, 20000)]);
}

#[test]
fn test_coin_data_price_bounds() {
    let mut coin = CoinData::new("BTCUSDT");
    coin.load_history(vec![(1000, 10000), (2000, 20000)]);

    let (min, max) = coin.price_bounds();
    assert!(min < 10000);
    assert!(max > 20000);
}

#[test]
fn test_coin_data_price_bounds_empty() {
    let coin = CoinData::new("BTCUSDT");
    let (min, max) = coin.price_bounds();
    assert_eq!(min, 0);
    assert_eq!(max, 10000);
}

#[test]
fn test_price_bounds_constant_price_has_no_padding() {
    let mut coin = CoinData::new("BTCUSDT");
    coin.load_history(vec![(1000, 5000), (2000, 5000), (3000, 5000)]);
    let (min, max) = coin.price_bounds();
    assert_eq!(min, 5000);
    assert_eq!(max, 5000);
}

#[test]
fn test_price_bounds_small_range_still_strict() {
    let mut coin = CoinData::new("BTCUSDT");
    coin.load_history(vec![(1000, 5000), (2000, 5003)]);
    let (min, max) = coin.price_bounds();
    assert!(min < 5000);
    assert!(max > 5003);
}

#[test]
fn test_append_price_evicts_oldest_beyond_capacity() {
    let mut coin = CoinData::new("BTCUSDT");
    for i in 0..65i64 {
        coin.append_price(i, 100 + i as u64);
    }
    assert_eq!(coin.price_history.len(), 60);
    assert_eq!(coin.price_history[0], (5, 105));
    assert_eq!(coin.price_history[59], (64, 164));
}

#[test]
fn test_append_price_below_capacity_keeps_everything() {
    let mut coin = CoinData::new("BTCUSDT");
    for i in 0..10i64 {
        coin.append_price(i, 100 + i as u64);
    }
    assert_eq!(coin.price_history.len(), 10);
    assert_eq!(coin.price_history[0], (0, 100));
}

#[test]
fn test_label_timestamps_midpoint() {
    let mut coin = CoinData::new("BTCUSDT");
    coin.load_history(vec![(1000, 10000), (1500, 10100), (3000, 10200)]);
    assert_eq!(coin.label_timestamps(), Some((1000, 2000, 3000)));

    let empty = CoinData::new("BTCUSDT");
    assert_eq!(empty.label_timestamps(), None);
}

#[test]
fn test_time_labels_empty_placeholders() {
    let coin = CoinData::new("BTCUSDT");
    let labels = coin.time_labels();
    assert_eq!(labels, vec!["--:--", "--:--", "--:--"]);
}

#[test]
fn test_time_labels_shape() {
    let mut coin = CoinData::new("BTCUSDT");
    // one recent wall-clock hour of points
    coin.load_history(vec![(1_700_000_000_000, 10000), (1_700_000_900_000, 10100)]);
    let labels = coin.time_labels();
    assert_eq!(labels.len(), 3);
    for label in &labels {
        let chars: Vec<char> = label.chars().collect();
        assert_eq!(chars.len(), 5);
        assert_eq!(chars[2], ':');
        if label != "--:--" {
            assert!(chars[0].is_ascii_digit() && chars[1].is_ascii_digit());
            assert!(chars[3].is_ascii_digit() && chars[4].is_ascii_digit());
        }
    }
}

#[test]
fn test_update_applies_snapshot_fields() {
    let mut coin = CoinData::new("BTCUSDT");
    let ticker = cryptowatcher::market::TickerData {
        symbol: "BTCUSDT".to_string(),
        last_price: 4_200_000,
        price_change_percent: -75,
        high_price: 4_300_000,
        low_price: 4_100_000,
        volume: 9_999,
    };
    coin.update(&ticker);
    assert_eq!(coin.price, 4_200_000);
    assert_eq!(coin.change_24h, -75);
    assert_eq!(coin.high_24h, 4_300_000);
    assert_eq!(coin.low_24h, 4_100_000);
    assert_eq!(coin.volume_24h, 9_999);
    assert_eq!(coin.price_history.len(), 1);
    assert_eq!(coin.price_history[0].1, 4_200_000);
}

#[test]
fn test_hm_to_label() {
    assert_eq!(hm_to_label(Some((9, 5))), "09:05");
    assert_eq!(hm_to_label(Some((23, 59))), "23:59");
    assert_eq!(hm_to_label(Some((0, 0))), "00:00");
    assert_eq!(hm_to_label(None), "--:--");
}
