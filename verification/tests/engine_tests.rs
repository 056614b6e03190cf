use sniper_bot::strategy::market::MarketStrategy;
use sniper_bot::PRICE_SCALE;

const SCALE: u64 = PRICE_SCALE;

fn ticker_frame(inst: &str, last: &str, ask: &str, bid: &str, ts: &str) -> String {
    format!(
        "{{\"arg\":{{\"channel\":\"tickers\",\"instId\":\"{}\"}},\"data\":[{{\"instId\":\"{}\",\"last\":\"{}\",\"askPx\":\"{}\",\"bidPx\":\"{}\",\"vol24h\":\"1000\",\"ts\":\"{}\"}}]}}",
        inst, inst, last, ask, bid, ts
    )
}

fn account_frame(avail: &str) -> String {
    format!(
        "{{\"arg\":{{\"channel\":\"account\"}},\"data\":[{{\"details\":[{{\"ccy\":\"USDT\",\"availBal\":\"{}\",\"cashBal\":\"{}\"}}],\"uTime\":\"1\"}}]}}",
        avail, avail
    )
}

#[test]
fn crash_buy_then_take_profit_sell() {
    let mut eng = MarketStrategy::new();

    // Balance arrives: 50 USDT, no open positions.
    let out = eng.process_message(&account_frame("50"), 0, 0);
    assert!(out.is_empty());
    assert_eq!(eng.account.usdt_balance, 50 * SCALE);

    // First tick: price 100 at t=0.  Nothing to compare against yet.
    let out = eng.process_message(&ticker_frame("X-USDT", "100", "100.1", "99.9", "0"), 0, 0);
    assert!(out.is_empty());
    assert_eq!(eng.positions.positions.len(), 0);

    // At t=2500 the price is 96: four percent below the window floor.
    // Expect one buy at the configured size, entered at the ask.
    let out = eng.process_message(
        &ticker_frame("X-USDT", "96", "96.2", "95.8", "2500"),
        2500,
        2,
    );
    assert_eq!(out.len(), 1);
    assert!(out[0].contains("\"side\":\"buy\""));
    assert!(out[0].contains("\"instId\":\"X-USDT\""));
    assert!(out[0].contains("\"sz\":\"25\""));
    assert!(out[0].contains("\"tdMode\":\"cash\""));
    assert_eq!(eng.positions.positions.len(), 1);
    assert_eq!(eng.positions.positions[0].inst_id, "X-USDT");
    assert_eq!(eng.positions.positions[0].entry_price, 962 * SCALE / 10);
    assert_eq!(eng.positions.positions[0].entry_ts, 2500);

    // At t=3000 the bid is 98: net profit (98-96.2)/96.2 - 0.4% is about
    // +1.46%, above the one-percent threshold.  Expect one sell and the
    // position gone.
    let out = eng.process_message(&ticker_frame("X-USDT", "98", "98.2", "98", "3000"), 3000, 3);
    assert_eq!(out.len(), 1);
    assert!(out[0].contains("\"side\":\"sell\""));
    assert!(out[0].contains("\"instId\":\"X-USDT\""));
    assert!(out[0].contains("\"sz\":\"25\""));
    assert_eq!(eng.positions.positions.len(), 0);
}

#[test]
fn malformed_frame_is_skipped_and_the_loop_goes_on() {
    let mut eng = MarketStrategy::new();
    let out = eng.process_message(&account_frame("50"), 0, 0);
    assert!(out.is_empty());

    // Invalid JSON: no orders, no state change, no panic.
    let out = eng.process_message("{\"arg\":{\"channel\":\"tickers\"", 0, 0);
    assert!(out.is_empty());
    assert_eq!(eng.account.usdt_balance, 50 * SCALE);

    // The next valid frames are still processed correctly.
    assert!(eng
        .process_message(&ticker_frame("X-USDT", "100", "100.1", "99.9", "0"), 0, 0)
        .is_empty());
    let out = eng.process_message(
        &ticker_frame("X-USDT", "96", "96.2", "95.8", "2500"),
        2500,
        2,
    );
    assert_eq!(out.len(), 1);
    assert!(out[0].contains("\"side\":\"buy\""));
}

#[test]
fn no_second_buy_while_position_open() {
    let mut eng = MarketStrategy::new();
    eng.process_message(&account_frame("100"), 0, 0);
    eng.process_message(&ticker_frame("X-USDT", "100", "100", "100", "0"), 0, 0);
    let out = eng.process_message(&ticker_frame("X-USDT", "96", "96", "96", "1000"), 1000, 1);
    assert_eq!(out.len(), 1);
    assert_eq!(eng.positions.positions.len(), 1);

    // Another falling tick for the same instrument while the position is
    // open.  Bid 95.5 against entry 96 is a net -0.92%: inside both exit
    // thresholds, so no exit — and no second buy either.
    let out = eng.process_message(&ticker_frame("X-USDT", "95", "95", "95.5", "1500"), 1500, 1);
    assert!(out.is_empty());
    assert_eq!(eng.positions.positions.len(), 1);
}

#[test]
fn rejected_when_balance_below_bet() {
    let mut eng = MarketStrategy::new();
    eng.process_message(&account_frame("24.99"), 0, 0);
    eng.process_message(&ticker_frame("X-USDT", "100", "100", "100", "0"), 0, 0);
    let out = eng.process_message(&ticker_frame("X-USDT", "96", "96", "96", "1000"), 1000, 1);
    assert!(out.is_empty());
    assert_eq!(eng.positions.positions.len(), 0);
}

#[test]
fn rejected_when_position_cap_reached() {
    let mut eng = MarketStrategy::new();
    eng.process_message(&account_frame("1000"), 0, 0);
    for (i, inst) in ["A-USDT", "B-USDT", "C-USDT", "D-USDT"].iter().enumerate() {
        let t0 = (i as u64) * 10;
        eng.process_message(&ticker_frame(inst, "100", "100", "100", &t0.to_string()), t0, 0);
        let t1 = t0 + 1000;
        eng.process_message(&ticker_frame(inst, "90", "90", "90", &t1.to_string()), t1, 1);
    }
    // Only the first three crashes could open positions.
    assert_eq!(eng.positions.positions.len(), 3);
    assert_eq!(eng.positions.positions[0].inst_id, "A-USDT");
    assert_eq!(eng.positions.positions[2].inst_id, "C-USDT");
}

#[test]
fn stop_loss_closes_through_the_engine() {
    let mut eng = MarketStrategy::new();
    eng.process_message(&account_frame("100"), 0, 0);
    eng.process_message(&ticker_frame("X-USDT", "100", "100", "100", "0"), 0, 0);
    let out = eng.process_message(&ticker_frame("X-USDT", "96", "96", "96", "1000"), 1000, 1);
    assert_eq!(out.len(), 1);

    // Entry 96; bid 92 is a gross -4.17%, net below -3%: stop loss.
    let out = eng.process_message(&ticker_frame("X-USDT", "92", "92.1", "92", "1500"), 1500, 1);
    assert_eq!(out.len(), 1);
    assert!(out[0].contains("\"side\":\"sell\""));
    assert_eq!(eng.positions.positions.len(), 0);
}

#[test]
fn timeout_closes_through_the_engine() {
    let mut eng = MarketStrategy::new();
    eng.process_message(&account_frame("100"), 0, 0);
    eng.process_message(&ticker_frame("X-USDT", "100", "100", "100", "0"), 0, 0);
    eng.process_message(&ticker_frame("X-USDT", "96", "96", "96", "1000"), 1000, 1);
    assert_eq!(eng.positions.positions.len(), 1);

    // Ten minutes later the price is back at entry: net between the
    // thresholds, but held too long.
    let now = 1000 + 600_001;
    let out = eng.process_message(
        &ticker_frame("X-USDT", "96", "96.1", "96", &now.to_string()),
        now,
        700,
    );
    assert_eq!(out.len(), 1);
    assert!(out[0].contains("\"side\":\"sell\""));
    assert_eq!(eng.positions.positions.len(), 0);
}

#[test]
fn keep_alive_and_events_change_nothing() {
    let mut eng = MarketStrategy::new();
    eng.process_message(&account_frame("50"), 0, 0);
    assert!(eng.process_message("pong", 0, 0).is_empty());
    assert!(eng
        .process_message("{\"event\":\"subscribe\",\"arg\":{\"channel\":\"tickers\"}}", 0, 0)
        .is_empty());
    assert_eq!(eng.account.usdt_balance, 50 * SCALE);
    assert_eq!(eng.positions.positions.len(), 0);
}
