use trading_engine::common::{Level, OrderBookUpdate};
use trading_engine::features::{calculate_features, PriceFraction, Ratio};
use trading_engine::orderbook::OrderBook;
use trading_engine::signals::{generate_signal, signal_with_threshold, SignalType};

fn book(bids: Vec<(u64, u64)>, asks: Vec<(u64, u64)>, timestamp: u64) -> OrderBook {
    let mut b = OrderBook::new();
    b.apply(OrderBookUpdate::Snapshot {
        bids: bids.into_iter().map(|(price, volume)| Level { price, volume }).collect(),
        asks: asks.into_iter().map(|(price, volume)| Level { price, volume }).collect(),
        timestamp,
    });
    b
}

fn ratio(num: i128, den: u128) -> Ratio {
    Ratio { num, den }
}

#[test]
fn top_of_book_features() {
    let f = calculate_features(&book(vec![(100, 1)], vec![(102, 3)], 11));
    // (1 - 3) / 4
    assert_eq!(f.obi_top_1, ratio(-2, 4));
    // (102 * 1 + 100 * 3) / 4 = 100 + 2 / 4
    assert_eq!(f.microprice, PriceFraction { whole: 100, rem: 2, den: 4 });
    // (100 + 102) / 2 = 101, in half ticks
    assert_eq!(f.mid_price, 202);
    assert_eq!(f.obi_top_5, ratio(-2, 4));
    assert_eq!(f.timestamp, 11);
}

#[test]
fn mid_price_keeps_half_ticks() {
    // bid 100.00 and ask 100.01 have mid 100.005
    let f = calculate_features(&book(vec![(10_000_000_000, 1)], vec![(10_001_000_000, 1)], 0));
    assert_eq!(f.mid_price, 20_001_000_000);
}

#[test]
fn imbalance_is_exact() {
    let f = calculate_features(&book(vec![(100, 1)], vec![(101, 2)], 0));
    assert_eq!(f.obi_top_1, ratio(-1, 3));
    let f = calculate_features(&book(vec![(100, 2)], vec![(101, 1)], 0));
    assert_eq!(f.obi_top_1, ratio(1, 3));
    assert_eq!(f.mid_price, 201);
}

#[test]
fn deep_imbalance_uses_five_levels() {
    let f = calculate_features(&book(
        vec![(100, 10), (99, 10), (98, 10), (97, 10), (96, 10), (95, 1000)],
        vec![(101, 10), (102, 10), (103, 10), (104, 10), (105, 30)],
        0,
    ));
    // bids 50, asks 70: (50 - 70) / 120
    assert_eq!(f.obi_top_5, ratio(-20, 120));
    assert_eq!(f.obi_top_1, ratio(0, 20));
}

#[test]
fn one_sided_book_keeps_top_features_zero() {
    let f = calculate_features(&book(vec![(100, 4)], vec![], 5));
    assert_eq!(f.obi_top_1, ratio(0, 1));
    assert_eq!(f.microprice, PriceFraction { whole: 0, rem: 0, den: 1 });
    assert_eq!(f.mid_price, 0);
    assert_eq!(f.obi_top_5, ratio(4, 4));
}

#[test]
fn zero_volume_top_levels() {
    let f = calculate_features(&book(vec![(100, 0)], vec![(104, 0)], 5));
    assert_eq!(f.obi_top_1, ratio(0, 1));
    assert_eq!(f.microprice, PriceFraction { whole: 0, rem: 0, den: 1 });
    assert_eq!(f.mid_price, 204);
    assert_eq!(f.obi_top_5, ratio(0, 1));
}

#[test]
fn microprice_between_best_prices() {
    let f = calculate_features(&book(vec![(1000, 7)], vec![(1010, 3)], 0));
    // (1010 * 7 + 1000 * 3) / 10 = 1007
    assert_eq!(f.microprice, PriceFraction { whole: 1007, rem: 0, den: 10 });
    let f = calculate_features(&book(vec![(1000, 1)], vec![(1001, 2)], 0));
    // (1001 * 1 + 1000 * 2) / 3 = 1000 + 1 / 3
    assert_eq!(f.microprice, PriceFraction { whole: 1000, rem: 1, den: 3 });
}

#[test]
fn crossed_book_microprice() {
    let f = calculate_features(&book(vec![(1010, 1)], vec![(1000, 3)], 0));
    // (1000 * 1 + 1010 * 3) / 4 = 1007 + 2 / 4
    assert_eq!(f.microprice, PriceFraction { whole: 1007, rem: 2, den: 4 });
    assert_eq!(f.mid_price, 2010);
}

#[test]
fn large_prices_do_not_overflow() {
    let f = calculate_features(&book(vec![(u64::MAX - 1, u64::MAX)], vec![(u64::MAX, u64::MAX)], 0));
    assert_eq!(f.obi_top_1, ratio(0, 2 * u64::MAX as u128));
    assert_eq!(f.mid_price, 2 * u64::MAX as u128 - 1);
    assert_eq!(f.microprice, PriceFraction { whole: u64::MAX - 1, rem: u64::MAX as u128, den: 2 * u64::MAX as u128 });
}

#[test]
fn signal_thresholds() {
    let mut f = calculate_features(&book(vec![], vec![], 0));
    f.obi_top_1 = ratio(3, 5);
    assert_eq!(generate_signal(&f), SignalType::NoSignal);
    f.obi_top_1 = ratio(600_001, 1_000_000);
    assert_eq!(generate_signal(&f), SignalType::EnterLong);
    // 0.6000000001 lies above 0.6
    f.obi_top_1 = ratio(6_000_000_001, 10_000_000_000);
    assert_eq!(generate_signal(&f), SignalType::EnterLong);
    f.obi_top_1 = ratio(-3, 5);
    assert_eq!(generate_signal(&f), SignalType::NoSignal);
    f.obi_top_1 = ratio(-6_000_000_001, 10_000_000_000);
    assert_eq!(generate_signal(&f), SignalType::EnterShort);
}

#[test]
fn signal_mirrors_and_never_exits() {
    for num in [-10i128, -7, -1, 0, 1, 4, 9] {
        let s = signal_with_threshold(ratio(num, 10), 350_000);
        let m = signal_with_threshold(ratio(-num, 10), 350_000);
        assert_ne!(s, SignalType::Exit);
        assert_eq!(s == SignalType::EnterLong, m == SignalType::EnterShort);
        assert_eq!(s == SignalType::NoSignal, m == SignalType::NoSignal);
    }
}

#[test]
fn strong_bid_book_gives_long_signal() {
    let f = calculate_features(&book(vec![(100, 9)], vec![(101, 1)], 0));
    assert_eq!(f.obi_top_1, ratio(8, 10));
    assert_eq!(generate_signal(&f), SignalType::EnterLong);
}

#[test]
fn swapping_sides_negates_imbalance() {
    let f = calculate_features(&book(vec![(100, 7)], vec![(101, 2)], 0));
    let g = calculate_features(&book(vec![(100, 2)], vec![(101, 7)], 0));
    assert_eq!(f.obi_top_1, ratio(5, 9));
    assert_eq!(g.obi_top_1, ratio(-5, 9));
    assert_eq!(f.obi_top_5.num, -g.obi_top_5.num);
}

#[test]
fn negative_threshold_prefers_long() {
    // With a threshold below zero every imbalance signals; the long test is tried first.
    assert_eq!(signal_with_threshold(ratio(0, 1), -10), SignalType::EnterLong);
    assert_eq!(signal_with_threshold(ratio(-1, 2), -10), SignalType::EnterShort);
    assert_eq!(signal_with_threshold(ratio(i128::MIN, 1), i64::MIN), SignalType::EnterShort);
    assert_eq!(signal_with_threshold(ratio(i128::MAX, u128::MAX), i64::MAX), SignalType::NoSignal);
}
