use sniper_bot::okx::market_data::Ticker;
use sniper_bot::okx::protocol::BalanceDetail;
use sniper_bot::strategy::history::PriceHistory;
use sniper_bot::strategy::market::AccountStateCache;
use sniper_bot::strategy::market::SignalEngine;
use sniper_bot::strategy::position::check_exit;
use sniper_bot::strategy::position::risk_approve;
use sniper_bot::strategy::position::ExitReason;
use sniper_bot::PRICE_SCALE;

const SCALE: u64 = PRICE_SCALE;

fn tick(inst: &str, last: u64, ask: u64, bid: u64, ts: u64) -> Ticker {
    Ticker {
        inst_id: inst.to_string(),
        last,
        volume: "0".to_string(),
        ask_px: ask,
        bid_px: bid,
        ts,
    }
}

#[test]
fn history_evicts_aged_samples_from_the_front() {
    let mut h = PriceHistory::new();
    h.update(0, 100 * SCALE);
    h.update(1000, 101 * SCALE);
    h.update(6000, 102 * SCALE);
    // The sample at t=0 is older than the 5-second window at t=6000; the
    // one at t=1000 is exactly at the edge and stays.
    assert_eq!(h.points.len(), 2);
    assert_eq!(h.points[0].ts, 1000);
    assert_eq!(h.points[1].ts, 6000);
    assert_eq!(h.points[1].price, 102 * SCALE);

    h.update(12000, 103 * SCALE);
    assert_eq!(h.points.len(), 1);
    assert_eq!(h.points[0].ts, 12000);
}

#[test]
fn history_length_never_exceeds_window_population() {
    let mut h = PriceHistory::new();
    let mut t: u64 = 0;
    while t <= 20_000 {
        h.update(t, 100 * SCALE);
        // Samples live 5 seconds and arrive every 500 ms: at most 11
        // in-window samples plus the new one.
        assert!(h.points.len() <= 12);
        assert_eq!(h.points[h.points.len() - 1].ts, t);
        t += 500;
    }
}

#[test]
fn take_profit_fires_above_one_percent_net() {
    let entry = 100 * SCALE;
    // Gross +2%, net +1.6%: take profit.
    assert_eq!(check_exit(entry, 0, 102 * SCALE, 0), Some(ExitReason::TakeProfit));
    // Gross +1.4%, net exactly +1.0%: not strictly above the threshold.
    assert_eq!(check_exit(entry, 0, 1014 * SCALE / 10, 0), None);
    // A hair above.
    assert_eq!(
        check_exit(entry, 0, 1014 * SCALE / 10 + 1, 0),
        Some(ExitReason::TakeProfit)
    );
}

#[test]
fn stop_loss_fires_below_minus_three_percent_net() {
    let entry = 100 * SCALE;
    // Gross -3%, net -3.4%: stop loss.
    assert_eq!(check_exit(entry, 0, 97 * SCALE, 0), Some(ExitReason::StopLoss));
    // Gross -2.6%, net exactly -3.0%: not strictly below.
    assert_eq!(check_exit(entry, 0, 974 * SCALE / 10, 0), None);
    assert_eq!(
        check_exit(entry, 0, 974 * SCALE / 10 - 1, 0),
        Some(ExitReason::StopLoss)
    );
}

#[test]
fn timeout_fires_only_between_the_thresholds() {
    let entry = 100 * SCALE;
    // Flat price, net -0.4%: inside both thresholds, held too long.
    assert_eq!(check_exit(entry, 0, entry, 600_001), Some(ExitReason::Timeout));
    assert_eq!(check_exit(entry, 0, entry, 600_000), None);
    // Take-profit wins over timeout.
    assert_eq!(
        check_exit(entry, 0, 102 * SCALE, 600_001),
        Some(ExitReason::TakeProfit)
    );
    // Stop-loss wins over timeout.
    assert_eq!(
        check_exit(entry, 0, 97 * SCALE, 600_001),
        Some(ExitReason::StopLoss)
    );
}

#[test]
fn risk_gate_enforces_cap_and_balance() {
    assert!(risk_approve(0, 25 * SCALE));
    assert!(risk_approve(2, 50 * SCALE));
    // At the cap.
    assert!(!risk_approve(3, 50 * SCALE));
    // Below the bet.
    assert!(!risk_approve(0, 25 * SCALE - 1));
}

#[test]
fn stale_tick_mutates_nothing_and_signals_nothing() {
    let mut eng = SignalEngine::new();
    // The tick's exchange timestamp is 2001 ms behind processing time.
    let t = tick("X-USDT", 100 * SCALE, 100 * SCALE, 100 * SCALE, 0);
    let r = eng.on_tick(&t, 2001);
    assert!(r.is_none());
    assert_eq!(eng.books.len(), 0);

    // At exactly the bound the tick is still taken.
    let r2 = eng.on_tick(&t, 2000);
    assert!(r2.is_none());
    assert_eq!(eng.books.len(), 1);
}

#[test]
fn derivative_instruments_are_filtered() {
    let mut eng = SignalEngine::new();
    let t = tick("BTC-USDT-SWAP", 100 * SCALE, 100 * SCALE, 100 * SCALE, 0);
    assert!(eng.on_tick(&t, 0).is_none());
    assert_eq!(eng.books.len(), 0);
}

#[test]
fn crash_against_window_floor_fires_signal() {
    let mut eng = SignalEngine::new();
    assert!(eng.on_tick(&tick("X-USDT", 100 * SCALE, 100 * SCALE, 100 * SCALE, 0), 0).is_none());
    // 4% below the window floor of 100.
    let sig = eng
        .on_tick(
            &tick("X-USDT", 96 * SCALE, 962 * SCALE / 10, 958 * SCALE / 10, 2500),
            2500,
        )
        .expect("signal");
    assert_eq!(sig.inst_id, "X-USDT");
    assert_eq!(sig.ask_px, 962 * SCALE / 10);
}

#[test]
fn three_percent_drop_is_the_threshold() {
    let mut eng = SignalEngine::new();
    assert!(eng.on_tick(&tick("X-USDT", 100 * SCALE, 100 * SCALE, 100 * SCALE, 0), 0).is_none());
    // Exactly -3%: not strictly beyond the threshold.
    assert!(eng.on_tick(&tick("X-USDT", 97 * SCALE, 97 * SCALE, 97 * SCALE, 1000), 1000).is_none());
    // Strictly below -3% against the same floor.
    assert!(eng
        .on_tick(&tick("X-USDT", 97 * SCALE - 1, 97 * SCALE, 97 * SCALE, 1500), 1500)
        .is_some());
}

#[test]
fn balance_cache_takes_the_last_usdt_entry() {
    let mut cache = AccountStateCache::new();
    let details = vec![
        BalanceDetail {
            ccy: "USDT".to_string(),
            avail_bal: "10".to_string(),
            cash_bal: "10".to_string(),
        },
        BalanceDetail {
            ccy: "BTC".to_string(),
            avail_bal: "999".to_string(),
            cash_bal: "999".to_string(),
        },
        BalanceDetail {
            ccy: "USDT".to_string(),
            avail_bal: "20.5".to_string(),
            cash_bal: "20.5".to_string(),
        },
    ];
    cache.on_account_update(&details);
    assert_eq!(cache.usdt_balance, 205 * SCALE / 10);
}

#[test]
fn balance_cache_skips_unparseable_entries() {
    let mut cache = AccountStateCache::new();
    cache.on_account_update(&vec![BalanceDetail {
        ccy: "USDT".to_string(),
        avail_bal: "12".to_string(),
        cash_bal: "12".to_string(),
    }]);
    cache.on_account_update(&vec![BalanceDetail {
        ccy: "USDT".to_string(),
        avail_bal: "not-a-number".to_string(),
        cash_bal: "0".to_string(),
    }]);
    assert_eq!(cache.usdt_balance, 12 * SCALE);
}
