use trading_engine::common::{Fill, Side};
use trading_engine::execution::{ExecutionSimulator, TAKER_FEE_PPM};
use trading_engine::orderbook::OrderBook;
use trading_engine::risk::RiskManager;

#[test]
fn risk_manager_starts_flat() {
    let rm = RiskManager::new(100, 500);
    assert_eq!(rm.max_position, 100);
    assert_eq!(rm.max_daily_loss, 500);
    assert_eq!(rm.current_position, 0);
    assert_eq!(rm.current_pnl, 0);
}

#[test]
fn position_limit_is_inclusive() {
    let mut rm = RiskManager::new(100, 500);
    assert!(rm.check_new_order(Side::Bid, 100));
    assert!(!rm.check_new_order(Side::Bid, 101));
    assert!(rm.check_new_order(Side::Ask, 100));
    assert!(!rm.check_new_order(Side::Ask, 101));
    rm.update_position(Side::Bid, 60, 0);
    assert_eq!(rm.current_position, 60);
    assert!(rm.check_new_order(Side::Bid, 40));
    assert!(!rm.check_new_order(Side::Bid, 41));
    assert!(rm.check_new_order(Side::Ask, 160));
    assert!(!rm.check_new_order(Side::Ask, 161));
    rm.update_position(Side::Ask, 100, 0);
    assert_eq!(rm.current_position, -40);
}

#[test]
fn loss_limit_blocks_all_orders() {
    let mut rm = RiskManager::new(100, 500);
    rm.current_pnl = -500;
    assert!(!rm.check_new_order(Side::Bid, 1));
    assert!(!rm.check_new_order(Side::Ask, 1));
    rm.current_pnl = -499;
    assert!(rm.check_new_order(Side::Bid, 1));
}

#[test]
fn accepted_order_stays_within_limit() {
    let mut rm = RiskManager::new(1_000, 0);
    rm.current_pnl = 1;
    for (side, v) in [(Side::Bid, 700u64), (Side::Bid, 300), (Side::Ask, 2_000), (Side::Ask, 5), (Side::Bid, 1)] {
        if rm.check_new_order(side, v) {
            rm.update_position(side, v, 0);
        }
        assert!(rm.current_position.abs() <= 1_000);
    }
    assert_eq!(rm.current_position, -999);
}

#[test]
fn position_saturates_at_range_end() {
    let mut rm = RiskManager::new(0, 0);
    rm.current_position = i128::MAX - 1;
    rm.update_position(Side::Bid, 10, 0);
    assert_eq!(rm.current_position, i128::MAX);
    rm.current_position = i128::MIN + 1;
    rm.update_position(Side::Ask, 10, 0);
    assert_eq!(rm.current_position, i128::MIN);
}

#[test]
fn new_simulator_uses_taker_fee() {
    let ex = ExecutionSimulator::new(1_000, 7);
    assert_eq!(ex.quote_balance, 1_000);
    assert_eq!(ex.base_balance, 7);
    assert_eq!(ex.fee_rate, TAKER_FEE_PPM);
    assert_eq!(ex.fee_rate, 500);
    assert_eq!(ex.total_fees_paid, 0);
}

#[test]
fn buy_pays_value_and_fee() {
    let mut ex = ExecutionSimulator::new(10_000_000, 0);
    // value 2000 * 3000 = 6_000_000, fee 3000
    let fill = ex.fill_market_order(Side::Bid, 2_000, 3_000, 77);
    assert_eq!(fill, Some(Fill { side: Side::Bid, volume: 2_000, price: 3_000, timestamp: 77 }));
    assert_eq!(ex.quote_balance, 10_000_000 - 6_000_000 - 3_000);
    assert_eq!(ex.base_balance, 2_000);
    assert_eq!(ex.total_fees_paid, 3_000);
}

#[test]
fn buy_without_cash_is_refused() {
    let mut ex = ExecutionSimulator::new(6_002_999, 0);
    assert_eq!(ex.fill_market_order(Side::Bid, 2_000, 3_000, 1), None);
    assert_eq!(ex.quote_balance, 6_002_999);
    assert_eq!(ex.base_balance, 0);
    assert_eq!(ex.total_fees_paid, 0);
    ex.quote_balance = 6_003_000;
    assert!(ex.fill_market_order(Side::Bid, 2_000, 3_000, 1).is_some());
    assert_eq!(ex.quote_balance, 0);
}

#[test]
fn sell_without_asset_is_refused() {
    let mut ex = ExecutionSimulator::new(0, 5);
    assert_eq!(ex.fill_market_order(Side::Ask, 6, 100, 1), None);
    assert_eq!(ex.base_balance, 5);
    let fill = ex.fill_market_order(Side::Ask, 5, 100_000, 2).unwrap();
    assert_eq!(fill.price, 100_000);
    // value 500_000, fee 250
    assert_eq!(ex.quote_balance, 499_750);
    assert_eq!(ex.base_balance, 0);
    assert_eq!(ex.total_fees_paid, 250);
}

#[test]
fn fee_rounds_down() {
    let mut ex = ExecutionSimulator::new(1_000_000, 0);
    // value 1999, fee 1999 * 500 / 1e6 = 0.9995 -> 0
    ex.fill_market_order(Side::Bid, 1, 1_999, 0);
    assert_eq!(ex.total_fees_paid, 0);
    // value 2000, fee exactly 1
    ex.fill_market_order(Side::Bid, 1, 2_000, 0);
    assert_eq!(ex.total_fees_paid, 1);
}

#[test]
fn round_trip_costs_two_fees() {
    let mut ex = ExecutionSimulator::new(1_000_000_000, 0);
    ex.fill_market_order(Side::Bid, 10_000, 5_000, 0).unwrap();
    ex.fill_market_order(Side::Ask, 10_000, 5_000, 0).unwrap();
    // value 50_000_000, fee 25_000 each way
    assert_eq!(ex.base_balance, 0);
    assert_eq!(ex.quote_balance, 1_000_000_000 - 50_000);
    assert_eq!(ex.total_fees_paid, 50_000);
}

#[test]
fn huge_fee_rate_saturates() {
    let mut ex = ExecutionSimulator::new(0, u128::MAX);
    ex.fee_rate = u64::MAX;
    assert!(ex.fill_market_order(Side::Ask, u64::MAX, u64::MAX as u128, 0).is_some());
    assert_eq!(ex.total_fees_paid, u128::MAX);
    assert_eq!(ex.quote_balance, 0);
}

#[test]
fn matching_finds_nothing() {
    let mut ex = ExecutionSimulator::new(5, 5);
    let book = OrderBook::new();
    assert!(ex.match_orders(&book).is_empty());
    assert_eq!(ex.quote_balance, 5);
}

#[test]
fn trade_value_saturates() {
    let mut ex = ExecutionSimulator::new(0, 10);
    let fill = ex.fill_market_order(Side::Ask, 2, u128::MAX, 0).unwrap();
    assert_eq!(fill.price, u128::MAX);
    // the value is held at the largest u128, and the fee is a 2000th of it
    assert_eq!(ex.total_fees_paid, u128::MAX / 2000);
    assert_eq!(ex.quote_balance, u128::MAX - u128::MAX / 2000);
    assert_eq!(ex.base_balance, 8);
    let mut ex = ExecutionSimulator::new(u128::MAX, 0);
    assert_eq!(ex.fill_market_order(Side::Bid, 2, u128::MAX, 0), None);
}

#[test]
fn loss_limit_beyond_any_loss() {
    let mut rm = RiskManager::new(1, u128::MAX);
    rm.current_pnl = i128::MIN;
    assert!(rm.check_new_order(Side::Bid, 1));
    let mut rm = RiskManager::new(1, 1u128 << 127);
    rm.current_pnl = i128::MIN;
    assert!(!rm.check_new_order(Side::Bid, 1));
    rm.current_pnl = i128::MIN + 1;
    assert!(rm.check_new_order(Side::Bid, 1));
}

#[test]
fn buy_then_sell_restores_position() {
    for start in [0i128, -70, 1 << 100, i128::MIN + 5] {
        let mut rm = RiskManager::new(0, 0);
        rm.current_position = start;
        rm.update_position(Side::Bid, u64::MAX, 0);
        rm.update_position(Side::Ask, u64::MAX, 0);
        assert_eq!(rm.current_position, start);
    }
}
