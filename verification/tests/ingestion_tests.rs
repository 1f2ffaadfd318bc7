use rand::rngs::StdRng;
use rand::SeedableRng;
use trading_engine::common::{Level, OrderBookUpdate};
use trading_engine::ingestion::{
    mock_snapshot, moved_price, HistoricalIngestor, MockIngestor, MOCK_LEVEL_GAP, MOCK_MAX_STEP,
    MOCK_MAX_VOLUME, MOCK_MIN_VOLUME, MOCK_START_PRICE,
};

#[test]
fn sell_trade_snapshot() {
    let u = HistoricalIngestor::trade_snapshot(5_000_012, 123_456_789, 77, true);
    match u {
        OrderBookUpdate::Snapshot { bids, asks, timestamp } => {
            assert_eq!(timestamp, 77);
            assert_eq!(asks, vec![Level { price: 5_000_012, volume: 123_456_789 }]);
            assert_eq!(bids, vec![Level { price: 4_000_012, volume: 12_345_678 }]);
        }
        _ => panic!("expected a snapshot"),
    }
}

#[test]
fn buy_trade_snapshot() {
    let u = HistoricalIngestor::trade_snapshot(100, 55, 1, false);
    // the opposite level stands 0.01 (a million ticks) away
    match u {
        OrderBookUpdate::Snapshot { bids, asks, timestamp } => {
            assert_eq!(timestamp, 1);
            assert_eq!(bids, vec![Level { price: 100, volume: 55 }]);
            assert_eq!(asks, vec![Level { price: 1_000_100, volume: 5 }]);
        }
        _ => panic!("expected a snapshot"),
    }
}

#[test]
fn trade_snapshot_prices_stay_in_range() {
    match HistoricalIngestor::trade_snapshot(0, 10, 0, true) {
        OrderBookUpdate::Snapshot { bids, .. } => assert_eq!(bids[0].price, 0),
        _ => panic!("expected a snapshot"),
    }
    match HistoricalIngestor::trade_snapshot(u64::MAX, 10, 0, false) {
        OrderBookUpdate::Snapshot { asks, .. } => assert_eq!(asks[0].price, u64::MAX),
        _ => panic!("expected a snapshot"),
    }
}

fn fields(v: &[&str]) -> Vec<String> {
    v.iter().map(|s| s.to_string()).collect()
}

#[test]
fn parse_aggregated_trade_record() {
    let rec = fields(&["26129", "50000.12", "0.01500000", "26129", "26129", "1690000000000", "True", "true"]);
    let e = HistoricalIngestor::parse_trade_record(&rec);
    assert_eq!(e.price, 5_000_012_000_000);
    assert_eq!(e.qty, 1_500_000);
    assert_eq!(e.timestamp, 1_690_000_000_000);
    assert!(e.is_sell);
}

#[test]
fn unreadable_fields_count_as_zero() {
    let rec = fields(&["x", "abc", "", "", "", "12.5", "no"]);
    let e = HistoricalIngestor::parse_trade_record(&rec);
    assert_eq!(e.price, 0);
    assert_eq!(e.qty, 0);
    assert_eq!(e.timestamp, 0);
    assert!(!e.is_sell);
}

#[test]
fn mock_feed_walks_and_builds_five_levels() {
    let mut feed = MockIngestor::new(StdRng::seed_from_u64(42));
    assert_eq!(feed.current_price, MOCK_START_PRICE);
    let mut volumes = Vec::new();
    let mut last = feed.current_price;
    for _ in 0..50 {
        let u = feed.next_update();
        let p = feed.current_price;
        let step = p as i64 - last as i64;
        assert!(step >= -MOCK_MAX_STEP && step < MOCK_MAX_STEP);
        last = p;
        match u {
            OrderBookUpdate::Snapshot { bids, asks, timestamp } => {
                assert_eq!(timestamp, 0);
                assert_eq!(bids.len(), 5);
                assert_eq!(asks.len(), 5);
                for i in 0..5u64 {
                    assert_eq!(bids[i as usize].price, p - (i + 1) * MOCK_LEVEL_GAP);
                    assert_eq!(asks[i as usize].price, p + (i + 1) * MOCK_LEVEL_GAP);
                    for v in [bids[i as usize].volume, asks[i as usize].volume] {
                        assert!(v >= MOCK_MIN_VOLUME && v < MOCK_MAX_VOLUME);
                        volumes.push(v);
                    }
                }
            }
            _ => panic!("expected a snapshot"),
        }
    }
    volumes.sort();
    volumes.dedup();
    assert!(volumes.len() > 100);
    assert_ne!(feed.current_price, MOCK_START_PRICE);
}

#[test]
fn price_steps_are_held_to_range() {
    assert_eq!(moved_price(5_000_000, -999), 4_999_001);
    assert_eq!(moved_price(5_000_000, 999), 5_000_999);
    assert_eq!(moved_price(300, -1_000), 0);
    assert_eq!(moved_price(u64::MAX - 5, 10), u64::MAX);
    assert_eq!(moved_price(7, i64::MIN), 0);
}

#[test]
fn fine_and_exponent_prices_in_records() {
    let rec = fields(&["1", "0.01633102", "1e3", "1", "1", "1.69E12", "false"]);
    let e = HistoricalIngestor::parse_trade_record(&rec);
    assert_eq!(e.price, 1_633_102);
    assert_eq!(e.qty, 100_000_000_000);
    // the timestamp field is an integer, as the record format has it
    assert_eq!(e.timestamp, 0);
    assert!(!e.is_sell);
}

#[test]
fn mock_snapshot_levels() {
    let gap = MOCK_LEVEL_GAP;
    let u = mock_snapshot(gap + 20, &vec![1, 2, 3, 4, 5], &vec![6, 7, 8, 9, 10]);
    match u {
        OrderBookUpdate::Snapshot { bids, asks, timestamp } => {
            assert_eq!(timestamp, 0);
            assert_eq!(
                bids,
                vec![
                    Level { price: 20, volume: 1 },
                    Level { price: 0, volume: 2 },
                    Level { price: 0, volume: 3 },
                    Level { price: 0, volume: 4 },
                    Level { price: 0, volume: 5 },
                ]
            );
            assert_eq!(
                asks,
                vec![
                    Level { price: 2 * gap + 20, volume: 6 },
                    Level { price: 3 * gap + 20, volume: 7 },
                    Level { price: 4 * gap + 20, volume: 8 },
                    Level { price: 5 * gap + 20, volume: 9 },
                    Level { price: 6 * gap + 20, volume: 10 },
                ]
            );
        }
        _ => panic!("expected a snapshot"),
    }
}
