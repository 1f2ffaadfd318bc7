use trading_engine::common::{Level, OrderBookUpdate};
use trading_engine::orderbook::OrderBook;

fn lv(price: u64, volume: u64) -> Level {
    Level { price, volume }
}

fn snapshot(bids: Vec<Level>, asks: Vec<Level>, timestamp: u64) -> OrderBookUpdate {
    OrderBookUpdate::Snapshot { bids, asks, timestamp }
}

fn incremental(bids: Vec<Level>, asks: Vec<Level>, timestamp: u64) -> OrderBookUpdate {
    OrderBookUpdate::Incremental { bids, asks, timestamp }
}

#[test]
fn snapshot_replaces_book() {
    let mut book = OrderBook::new();
    book.apply(snapshot(vec![lv(100, 5), lv(99, 7)], vec![lv(101, 3)], 42));
    assert_eq!(book.best_bid(), Some(lv(100, 5)));
    assert_eq!(book.best_ask(), Some(lv(101, 3)));
    assert_eq!(book.timestamp, 42);
}

#[test]
fn new_book_is_empty() {
    let book = OrderBook::new();
    assert_eq!(book.best_bid(), None);
    assert_eq!(book.best_ask(), None);
    assert!(book.top_bids(5).is_empty());
    assert!(book.top_asks(5).is_empty());
    assert_eq!(book.timestamp, 0);
}

#[test]
fn snapshot_ignores_prior_state() {
    let mut a = OrderBook::new();
    a.apply(snapshot(vec![lv(50, 1), lv(60, 2)], vec![lv(70, 3)], 1));
    a.apply(snapshot(vec![lv(100, 5)], vec![lv(101, 6)], 2));
    let mut b = OrderBook::new();
    b.apply(snapshot(vec![lv(100, 5)], vec![lv(101, 6)], 2));
    assert_eq!(a.bids, b.bids);
    assert_eq!(a.asks, b.asks);
    assert_eq!(a.timestamp, b.timestamp);
}

#[test]
fn snapshot_twice_same_as_once() {
    let u = snapshot(vec![lv(100, 5), lv(98, 1)], vec![lv(102, 4)], 9);
    let mut once = OrderBook::new();
    once.apply(u.clone());
    let mut twice = OrderBook::new();
    twice.apply(u.clone());
    twice.apply(u);
    assert_eq!(once.bids, twice.bids);
    assert_eq!(once.asks, twice.asks);
}

#[test]
fn snapshot_later_level_wins_and_keeps_zero_volume() {
    let mut book = OrderBook::new();
    book.apply(snapshot(vec![lv(100, 5), lv(100, 8), lv(90, 0)], vec![], 3));
    assert_eq!(book.bids.get(&100), Some(&8));
    assert_eq!(book.bids.get(&90), Some(&0));
    assert_eq!(book.bids.len(), 2);
}

#[test]
fn incremental_zero_volume_removes_level() {
    let mut book = OrderBook::new();
    book.apply(snapshot(vec![lv(100, 5), lv(99, 7)], vec![lv(101, 3), lv(102, 4)], 1));
    book.apply(incremental(vec![lv(100, 0)], vec![lv(102, 0)], 2));
    assert_eq!(book.best_bid(), Some(lv(99, 7)));
    assert_eq!(book.top_asks(10), vec![lv(101, 3)]);
    assert_eq!(book.timestamp, 2);
}

#[test]
fn incremental_sets_and_keeps_unlisted() {
    let mut book = OrderBook::new();
    book.apply(snapshot(vec![lv(100, 5), lv(99, 7)], vec![lv(101, 3)], 1));
    book.apply(incremental(vec![lv(99, 1), lv(98, 2), lv(98, 6)], vec![], 5));
    assert_eq!(book.bids.get(&100), Some(&5));
    assert_eq!(book.bids.get(&99), Some(&1));
    assert_eq!(book.bids.get(&98), Some(&6));
    assert_eq!(book.asks.get(&101), Some(&3));
}

#[test]
fn incremental_last_listing_wins() {
    let mut book = OrderBook::new();
    book.apply(incremental(vec![lv(100, 5), lv(100, 0)], vec![lv(101, 0), lv(101, 9)], 1));
    assert_eq!(book.bids.get(&100), None);
    assert_eq!(book.asks.get(&101), Some(&9));
}

#[test]
fn removing_missing_level_is_harmless() {
    let mut book = OrderBook::new();
    book.apply(incremental(vec![lv(10, 0)], vec![], 1));
    assert!(book.bids.is_empty());
}

#[test]
fn top_levels_best_first() {
    let mut book = OrderBook::new();
    book.apply(snapshot(
        vec![lv(95, 1), lv(100, 2), lv(97, 3), lv(99, 4), lv(96, 5), lv(98, 6)],
        vec![lv(105, 1), lv(101, 2), lv(104, 3), lv(102, 4), lv(103, 5), lv(106, 6)],
        1,
    ));
    assert_eq!(book.top_bids(3), vec![lv(100, 2), lv(99, 4), lv(98, 6)]);
    assert_eq!(book.top_asks(3), vec![lv(101, 2), lv(102, 4), lv(103, 5)]);
    assert_eq!(book.top_bids(10).len(), 6);
    assert_eq!(book.top_asks(0), vec![]);
}

#[test]
fn best_heads_top_and_top_is_prefix() {
    let mut book = OrderBook::new();
    book.apply(snapshot(vec![lv(10, 1), lv(30, 3), lv(20, 2)], vec![lv(40, 4), lv(50, 5)], 1));
    assert_eq!(book.best_bid(), Some(book.top_bids(1)[0]));
    assert_eq!(book.best_ask(), Some(book.top_asks(1)[0]));
    let long = book.top_bids(3);
    assert_eq!(book.top_bids(2), long[..2].to_vec());
    let long = book.top_asks(5);
    assert_eq!(book.top_asks(1), long[..1].to_vec());
}

#[test]
fn timestamp_of_update() {
    assert_eq!(snapshot(vec![], vec![], 7).timestamp(), 7);
    assert_eq!(incremental(vec![], vec![], 8).timestamp(), 8);
}
