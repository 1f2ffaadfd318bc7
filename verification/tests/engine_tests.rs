use trading_engine::backtest::{Backtester, BACKTEST_INITIAL_QUOTE, BACKTEST_ORDER_VOLUME};
use trading_engine::common::{Fill, Level, OrderBookUpdate, Side};
use trading_engine::engine::{Engine, LIVE_ORDER_VOLUME};
use trading_engine::execution::ExecutionSimulator;
use trading_engine::risk::RiskManager;
use trading_engine::features::Ratio;
use trading_engine::signals::SignalType;

fn snap(bid: (u64, u64), ask: (u64, u64), timestamp: u64) -> OrderBookUpdate {
    OrderBookUpdate::Snapshot {
        bids: vec![Level { price: bid.0, volume: bid.1 }],
        asks: vec![Level { price: ask.0, volume: ask.1 }],
        timestamp,
    }
}

// Prices in ticks of 1e-8: 100.00 and 100.01.
const BID: u64 = 10_000_000_000;
const ASK: u64 = 10_001_000_000;
// The mid price 100.005 in half ticks.
const MID: u128 = 20_001_000_000;

#[test]
fn backtest_fills_long_signal_at_mid() {
    let mut e = Backtester::engine();
    let out = e.on_update(snap((BID, 900_000_000), (ASK, 100_000_000), 123));
    assert_eq!(out.features.obi_top_1, Ratio { num: 800_000_000, den: 1_000_000_000 });
    assert_eq!(out.signal, SignalType::EnterLong);
    assert!(!out.risk_rejected);
    assert_eq!(
        out.fill,
        Some(Fill { side: Side::Bid, volume: BACKTEST_ORDER_VOLUME, price: MID, timestamp: 123 })
    );
    assert_eq!(e.update_count, 1);
    assert_eq!(e.trades_executed, 1);
    assert_eq!(e.last_execution_price, MID);
    assert_eq!(e.final_price, MID);
    assert_eq!(e.risk_manager.current_position, 10_000);
    assert_eq!(e.execution.base_balance, 10_000);
    // value 0.0100005 and fee 0.00000500025, in units of 5e-17
    assert_eq!(e.execution.quote_balance, BACKTEST_INITIAL_QUOTE - 200_010_000_000_000 - 100_005_000_000);
    assert_eq!(e.execution.total_fees_paid, 100_005_000_000);
}

#[test]
fn backtest_cooldown_needs_a_move_of_more_than_ten_cents() {
    let mut e = Backtester::engine();
    assert!(e.on_update(snap((BID, 9), (ASK, 1), 1)).fill.is_some());
    assert!(e.on_update(snap((BID + 10_000_000, 9), (ASK + 10_000_000, 1), 2)).fill.is_none());
    assert!(e.on_update(snap((BID + 10_000_001, 9), (ASK + 10_000_001, 1), 3)).fill.is_some());
    assert_eq!(e.trades_executed, 2);
    assert_eq!(e.update_count, 3);
    assert_eq!(e.last_execution_price, MID + 20_000_002);
}

#[test]
fn short_signal_without_asset_is_not_filled() {
    let mut e = Backtester::engine();
    let out = e.on_update(snap((BID, 1), (ASK, 9), 1));
    assert_eq!(out.signal, SignalType::EnterShort);
    assert!(!out.risk_rejected);
    assert!(out.fill.is_none());
    assert_eq!(e.trades_executed, 0);
    assert_eq!(e.execution.quote_balance, BACKTEST_INITIAL_QUOTE);
}

#[test]
fn neutral_book_does_nothing() {
    let mut e = Engine::live();
    let out = e.on_update(snap((BID, 5), (ASK, 5), 1));
    assert_eq!(out.signal, SignalType::NoSignal);
    assert!(out.fill.is_none());
    assert!(!out.risk_rejected);
    assert_eq!(e.final_price, MID);
}

#[test]
fn risk_rejection_is_reported() {
    let mut e = Engine::new(ExecutionSimulator::new(1_000_000_000_000, 0), RiskManager::new(5, 100), 10, None, false);
    let out = e.on_update(snap((100, 9), (101, 1), 1));
    assert!(out.risk_rejected);
    assert!(out.fill.is_none());
    assert_eq!(e.risk_manager.current_position, 0);
}

#[test]
fn live_engine_stamps_time_zero() {
    let mut e = Engine::live();
    // at 50000.00 one unit costs more than the starting cash
    assert!(e.on_update(snap((5_000_000_000_000, 9), (5_000_000_000_001, 1), 999)).fill.is_none());
    let out = e.on_update(snap((100_000_000_000, 9), (100_000_000_001, 1), 999));
    let fill = out.fill.unwrap();
    assert_eq!(fill.timestamp, 0);
    assert_eq!(fill.volume, LIVE_ORDER_VOLUME);
    assert_eq!(fill.price, 200_000_000_001);
    assert_eq!(e.risk_manager.current_position, LIVE_ORDER_VOLUME as i128);
}

#[test]
fn live_position_limit_holds_over_many_updates() {
    let mut e = Engine::live();
    for i in 0..300u64 {
        e.on_update(snap((1_000_000_000 + i, 9), (1_000_000_001 + i, 1), i));
        let p = e.risk_manager.current_position;
        assert!(p.abs() <= e.risk_manager.max_position as i128);
    }
    assert_eq!(e.trades_executed, 100);
}

#[test]
fn report_values_position_at_last_mid() {
    let mut e = Backtester::engine();
    e.on_update(snap((BID, 9), (ASK, 1), 1));
    let r = Backtester::report(&e);
    assert_eq!(r.update_count, 1);
    assert_eq!(r.trades_executed, 1);
    assert_eq!(r.base_balance, 10_000);
    assert_eq!(r.total_fees_paid, 100_005_000_000);
    assert_eq!(r.net_worth, BACKTEST_INITIAL_QUOTE - 100_005_000_000);
    assert_eq!(r.pnl, -100_005_000_000);
}

#[test]
fn report_of_untouched_engine() {
    let e = Backtester::engine();
    let r = Backtester::report(&e);
    assert_eq!(r.net_worth, BACKTEST_INITIAL_QUOTE);
    assert_eq!(r.pnl, 0);
}

#[test]
fn backtest_fees_add_up_and_fills_are_spaced() {
    let mut e = Backtester::engine();
    let mut fills = Vec::new();
    for i in 0..40u64 {
        let step = i * 3_000_000;
        let (bv, av) = if i % 3 == 2 { (1, 9) } else { (9, 1) };
        let out = e.on_update(snap((BID + step, bv), (ASK + step, av), i));
        if let Some(f) = out.fill {
            fills.push(f);
        }
    }
    assert!(fills.len() >= 2);
    let fees: u128 = fills.iter().map(|f| f.volume as u128 * f.price * 500 / 1_000_000).sum();
    assert_eq!(e.execution.total_fees_paid, fees);
    for w in fills.windows(2) {
        let d = if w[1].price > w[0].price { w[1].price - w[0].price } else { w[0].price - w[1].price };
        assert!(d > 2 * 10_000_000);
    }
}
