use cryptowatcher::events::{Action, AppEvent, KeyInput};
use cryptowatcher::klines::extract_klines;
use cryptowatcher::layout::{calculate_grid_layout, split_status_area, Rect};
use cryptowatcher::market::{FetchError, TickerData};
use cryptowatcher::state::{elapsed_label, App};

fn three_coin_app() -> App {
    App::new(vec![
        "BTCUSDT".to_string(),
        "ETHUSDT".to_string(),
        "SOLUSDT".to_string(),
    ])
}

fn ticker(symbol: &str, price: u64) -> TickerData {
    TickerData {
        symbol: symbol.to_string(),
        last_price: price,
        price_change_percent: 250,
        high_price: price + 1000,
        low_price: price - 1000,
        volume: 123_456,
    }
}

#[test]
fn test_app_scroll() {
    let mut app = three_coin_app();
    assert_eq!(app.scroll_offset, 0);

    app.scroll_down();
    assert_eq!(app.scroll_offset, 1);

    app.scroll_up();
    assert_eq!(app.scroll_offset, 0);

    app.scroll_up();
    assert_eq!(app.scroll_offset, 0);
}

#[test]
fn test_app_scroll_stops_at_bottom() {
    let mut app = three_coin_app();
    app.scroll_down();
    app.scroll_down();
    app.scroll_down();
    // with three coins the window never starts past the third-from-last row
    assert_eq!(app.scroll_offset, 1);
}

#[test]
fn test_app_new_status() {
    let app = three_coin_app();
    assert_eq!(app.coins.len(), 3);
    assert!(app.running);
    assert_eq!(app.status_message, "Starting...");
    assert_eq!(app.last_update, None);
    assert_eq!(app.last_update_str(), "Never");
}

#[test]
fn test_visible_range() {
    let mut app = App::new(
        (0..7).map(|i| format!("C{}USDT", i)).collect::<Vec<String>>(),
    );
    assert_eq!(app.visible_range(), (0, 4));
    app.scroll_down();
    app.scroll_down();
    assert_eq!(app.visible_range(), (2, 6));
    for _ in 0..10 {
        app.scroll_down();
    }
    assert_eq!(app.scroll_offset, 5);
    assert_eq!(app.visible_range(), (5, 7));
}

#[test]
fn test_partial_failure_round() {
    let mut app = three_coin_app();
    let before_eth = app.coins[1].clone();

    let results = vec![
        ("BTCUSDT".to_string(), Ok(ticker("BTCUSDT", 5_000_000))),
        (
            "ETHUSDT".to_string(),
            Err::<TickerData, FetchError>(FetchError::Network),
        ),
    ];
    let errors = app.apply_snapshot_round(results, 1_700_000_000_000);

    // the successful symbol reflects the snapshot
    assert_eq!(app.coins[0].price, 5_000_000);
    assert_eq!(app.coins[0].change_24h, 250);
    assert_eq!(app.coins[0].price_history.len(), 1);
    assert_eq!(app.coins[0].price_history[0], (1_700_000_000_000, 5_000_000));

    // the failed symbol is untouched
    let after_eth = &app.coins[1];
    assert_eq!(after_eth.symbol, before_eth.symbol);
    assert_eq!(after_eth.price, before_eth.price);
    assert_eq!(after_eth.price_history, before_eth.price_history);

    // the round completed: clock stamped, generic status, failure listed
    assert_eq!(app.last_update, Some(1_700_000_000_000));
    assert_eq!(app.status_message, "Updated");
    assert_eq!(errors, vec!["Error fetching ETHUSDT: network error"]);
}

#[test]
fn test_round_is_keyed_by_symbol_not_position() {
    let mut app = three_coin_app();
    // results arrive in a different order than the coin list
    let results = vec![
        ("SOLUSDT".to_string(), Ok(ticker("SOLUSDT", 15_000))),
        ("BTCUSDT".to_string(), Ok(ticker("BTCUSDT", 9_000_000))),
    ];
    app.apply_snapshot_round(results, 1_000);
    assert_eq!(app.coins[0].price, 9_000_000);
    assert_eq!(app.coins[1].price, 0);
    assert_eq!(app.coins[2].price, 15_000);
}

#[test]
fn test_history_round_partial() {
    let mut app = three_coin_app();
    let results = vec![
        (
            "BTCUSDT".to_string(),
            Ok(vec![(1000, 10000), (2000, 10100)]),
        ),
        (
            "ETHUSDT".to_string(),
            Err::<Vec<(i64, u64)>, FetchError>(FetchError::Api(500)),
        ),
    ];
    let errors = app.apply_history_round(results);
    assert_eq!(app.coins[0].price_history.len(), 2);
    assert_eq!(app.coins[0].price, 10100);
    assert!(app.coins[1].price_history.is_empty());
    assert_eq!(errors, vec!["Error loading history for ETHUSDT: API error 500"]);
    // a backfill round does not stamp the snapshot clock
    assert_eq!(app.last_update, None);
}

#[test]
fn test_handle_event() {
    let mut app = three_coin_app();

    assert_eq!(app.handle_event(AppEvent::Tick), Action::Fetch);
    assert_eq!(app.status_message, "Fetching...");

    assert_eq!(app.handle_event(AppEvent::Key(KeyInput::Down)), Action::Idle);
    assert_eq!(app.scroll_offset, 1);
    assert_eq!(app.handle_event(AppEvent::Key(KeyInput::Char('k'))), Action::Idle);
    assert_eq!(app.scroll_offset, 0);

    assert_eq!(app.handle_event(AppEvent::Key(KeyInput::Char('r'))), Action::Fetch);
    assert_eq!(app.status_message, "Refreshing...");

    assert_eq!(app.handle_event(AppEvent::Resize), Action::Idle);
    assert!(app.running);

    assert_eq!(app.handle_event(AppEvent::Key(KeyInput::Char('q'))), Action::Idle);
    assert!(!app.running);
}

#[test]
fn test_grid_layout_templates() {
    let area = Rect { x: 0, y: 0, width: 100, height: 40 };

    assert_eq!(calculate_grid_layout(0, area), vec![]);
    assert_eq!(calculate_grid_layout(1, area), vec![area]);
    assert_eq!(
        calculate_grid_layout(2, area),
        vec![
            Rect { x: 0, y: 0, width: 50, height: 40 },
            Rect { x: 50, y: 0, width: 50, height: 40 },
        ]
    );
    assert_eq!(
        calculate_grid_layout(3, area),
        vec![
            Rect { x: 0, y: 0, width: 100, height: 20 },
            Rect { x: 0, y: 20, width: 50, height: 20 },
            Rect { x: 50, y: 20, width: 50, height: 20 },
        ]
    );
    let four = calculate_grid_layout(4, area);
    assert_eq!(
        four,
        vec![
            Rect { x: 0, y: 0, width: 50, height: 20 },
            Rect { x: 50, y: 0, width: 50, height: 20 },
            Rect { x: 0, y: 20, width: 50, height: 20 },
            Rect { x: 50, y: 20, width: 50, height: 20 },
        ]
    );
    // beyond one page the grid still shows four panes
    assert_eq!(calculate_grid_layout(7, area), four);
}

#[test]
fn test_grid_layout_odd_sizes() {
    let area = Rect { x: 1, y: 2, width: 7, height: 5 };
    let panes = calculate_grid_layout(2, area);
    assert_eq!(panes[0], Rect { x: 1, y: 2, width: 3, height: 5 });
    assert_eq!(panes[1], Rect { x: 4, y: 2, width: 4, height: 5 });
}

#[test]
fn test_split_status_area() {
    let screen = Rect { x: 0, y: 0, width: 80, height: 24 };
    let (main, status) = split_status_area(screen);
    assert_eq!(main, Rect { x: 0, y: 0, width: 80, height: 21 });
    assert_eq!(status, Rect { x: 0, y: 21, width: 80, height: 3 });

    let tiny = Rect { x: 0, y: 0, width: 80, height: 2 };
    let (main2, status2) = split_status_area(tiny);
    assert_eq!(main2.height, 0);
    assert_eq!(status2.height, 2);
}

#[test]
fn test_extract_klines() {
    let raw = r#"[
        [1000, "0", "0", "0", "105.25", "0"],
        [2000, "0", "0", "0", "106.75", "0"]
    ]"#;
    let rows: Vec<Vec<serde_json::Value>> = serde_json::from_str(raw).unwrap();
    let points = extract_klines(&rows).unwrap();
    assert_eq!(points, vec![(1000, 10525), (2000, 10675)]);
}

#[test]
fn test_extract_klines_drops_bad_rows() {
    let raw = r#"[
        [1000, "0", "0", "0", "105.25", "0"],
        ["not a time", "0", "0", "0", "106.75", "0"],
        [3000, "0", "0", "0", "not a price", "0"],
        [4000, "0"],
        [-5, "0", "0", "0", "1.00", "0"],
        [5000, "0", "0", "0", "2.50", "0"]
    ]"#;
    let rows: Vec<Vec<serde_json::Value>> = serde_json::from_str(raw).unwrap();
    let points = extract_klines(&rows).unwrap();
    assert_eq!(points, vec![(1000, 10525), (5000, 250)]);
}

#[test]
fn test_extract_klines_empty_is_no_data() {
    let rows: Vec<Vec<serde_json::Value>> = Vec::new();
    assert_eq!(extract_klines(&rows), Err(FetchError::NoData));
}

#[test]
fn test_elapsed_label() {
    // a clock reading at or before the stamp counts as zero elapsed
    assert_eq!(elapsed_label(1000, 500), "0s ago");
    assert_eq!(elapsed_label(0, 59_000), "59s ago");
    assert_eq!(elapsed_label(0, 60_000), "1m ago");
    assert_eq!(elapsed_label(0, 150_000), "2m ago");
}
