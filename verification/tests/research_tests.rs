use trading_engine::research::{
    parameter_grid, sample_events, select_results, simulate_single, MarketEvent, ResearchResult,
    StrategyParams, RESEARCH_INITIAL_QUOTE,
};

fn ev(price: u64, qty: u64, timestamp: u64, is_sell: bool) -> MarketEvent {
    MarketEvent { price, qty, timestamp, is_sell }
}

#[test]
fn grid_covers_all_combinations() {
    let g = parameter_grid();
    assert_eq!(g.len(), 3400);
    assert_eq!(g[0], StrategyParams { obi_threshold: 100_000, cooldown_steps: 10, target_profit_bps: 2 });
    assert_eq!(g[1], StrategyParams { obi_threshold: 100_000, cooldown_steps: 10, target_profit_bps: 4 });
    assert_eq!(g[10], StrategyParams { obi_threshold: 100_000, cooldown_steps: 20, target_profit_bps: 2 });
    assert_eq!(g[200], StrategyParams { obi_threshold: 150_000, cooldown_steps: 10, target_profit_bps: 2 });
    assert_eq!(g[3399], StrategyParams { obi_threshold: 900_000, cooldown_steps: 200, target_profit_bps: 20 });
}

// 100.00 in ticks of 1e-8 and 1.0 in lots of 1e-8.
const P: u64 = 10_000_000_000;
const Q: u64 = 100_000_000;

#[test]
fn single_buy_replay() {
    let params = StrategyParams { obi_threshold: 500_000, cooldown_steps: 1, target_profit_bps: 2 };
    let r = simulate_single(&params, &vec![ev(P, Q, 1, false)]);
    assert_eq!(r.total_trades, 1);
    // bought 0.0001 at the mid 100.005 with a fee of 0.00000500025, valued
    // at the last known mid 100.005: -0.00000500025 in units of 5e-17
    assert_eq!(r.net_pnl, -100_005_000_000);
    assert_eq!(r.max_drawdown_fall, 100_005_000_000);
    assert_eq!(r.max_drawdown_peak, RESEARCH_INITIAL_QUOTE);
}

#[test]
fn sell_buy_sell_replay() {
    let params = StrategyParams { obi_threshold: 500_000, cooldown_steps: 1, target_profit_bps: 2 };
    let data = vec![ev(P, Q, 1, true), ev(P, Q, 2, false), ev(P, Q, 3, true)];
    let r = simulate_single(&params, &data);
    // the first sell finds no asset; the buy fills at 100.005, the last sell at 99.995
    assert_eq!(r.params, params);
    assert_eq!(r.total_trades, 2);
    assert_eq!(r.winning_trades, 0);
    assert_eq!(r.trade_pnls, vec![-219_990_000_000]);
    // -0.000011
    assert_eq!(r.net_pnl, -220_000_000_000);
    // a drawdown of 1.1e-9
    assert_eq!(r.max_drawdown_fall, 220_000_000_000);
    assert_eq!(r.max_drawdown_peak, RESEARCH_INITIAL_QUOTE);
}

#[test]
fn round_trip_replay() {
    let params = StrategyParams { obi_threshold: 500_000, cooldown_steps: 1, target_profit_bps: 0 };
    let data = vec![ev(P, Q, 1, false), ev(P + 100_000_000, Q, 2, true)];
    let r = simulate_single(&params, &data);
    assert_eq!(r.params, params);
    assert_eq!(r.total_trades, 2);
    assert_eq!(r.winning_trades, 1);
    assert_eq!(r.trade_pnls, vec![1_778_010_000_000]);
    assert_eq!(r.net_pnl, 1_779_000_000_000);
    assert_eq!(r.max_drawdown_fall, 100_005_000_000);
}

#[test]
fn empty_replay() {
    let params = StrategyParams { obi_threshold: 500_000, cooldown_steps: 1, target_profit_bps: 0 };
    let r = simulate_single(&params, &vec![]);
    assert_eq!(r.total_trades, 0);
    assert_eq!(r.net_pnl, 0);
    assert_eq!(r.max_drawdown_fall, 0);
    assert_eq!(r.max_drawdown_peak, 1);
    assert!(r.trade_pnls.is_empty());
}

#[test]
fn cooldown_and_target_hold_trades_back() {
    let long = ev(P, Q, 1, false);
    let params = StrategyParams { obi_threshold: 500_000, cooldown_steps: 3, target_profit_bps: 0 };
    let r = simulate_single(&params, &vec![long, long, long, long]);
    // the third event is the first allowed; the next needs three more events
    assert_eq!(r.total_trades, 1);
    let params = StrategyParams { obi_threshold: 500_000, cooldown_steps: 1, target_profit_bps: 90 };
    let r = simulate_single(&params, &vec![long, long]);
    // |imbalance| * 100 is about 81.8, below the target of 90, with no position open
    assert_eq!(r.total_trades, 0);
}

#[test]
fn unreachable_threshold_never_trades() {
    let params = StrategyParams { obi_threshold: 1_000_000, cooldown_steps: 1, target_profit_bps: 0 };
    let data = vec![ev(P, Q, 1, false), ev(P, Q, 2, true), ev(P, 1, 3, false)];
    let r = simulate_single(&params, &data);
    assert_eq!(r.total_trades, 0);
    assert_eq!(r.net_pnl, 0);
    assert_eq!(r.max_drawdown_fall, 0);
}

#[test]
fn drawdown_after_a_falling_price() {
    let params = StrategyParams { obi_threshold: 500_000, cooldown_steps: 1, target_profit_bps: 0 };
    let data = vec![ev(P, Q, 1, false), ev(P / 2, 1, 2, false), ev(P / 2, 1, 3, false)];
    let r = simulate_single(&params, &data);
    assert_eq!(r.total_trades, 3);
    assert_eq!(r.max_drawdown_fall, 100_200_015_000_000);
    assert_eq!(r.max_drawdown_peak, RESEARCH_INITIAL_QUOTE);
    assert_eq!(r.net_pnl, -100_200_015_000_000);
}

#[test]
fn prices_beyond_any_bound_replay() {
    let params = StrategyParams { obi_threshold: 500_000, cooldown_steps: 1, target_profit_bps: 0 };
    let data = vec![ev(u64::MAX, Q, 1, false), ev(u64::MAX, Q, 2, true)];
    let r = simulate_single(&params, &data);
    // one unit at such a price costs far more than the starting cash
    assert_eq!(r.total_trades, 0);
    assert_eq!(r.net_pnl, 0);
}

#[test]
fn sampling_keeps_every_nth() {
    let data: Vec<MarketEvent> = (0..10).map(|i| ev(i, 1, i, false)).collect();
    let s = sample_events(data.clone(), 3);
    assert_eq!(s.iter().map(|e| e.price).collect::<Vec<_>>(), vec![0, 3, 6, 9]);
    let s = sample_events(data.clone(), 5);
    assert_eq!(s.iter().map(|e| e.price).collect::<Vec<_>>(), vec![0, 5]);
    assert_eq!(sample_events(data.clone(), 1), data);
    assert_eq!(sample_events(data.clone(), 0), data);
    assert_eq!(sample_events(data.clone(), 11).len(), 1);
    assert!(sample_events(vec![], 4).is_empty());
}

fn result(net_pnl: i128, total_trades: usize) -> ResearchResult {
    ResearchResult {
        params: StrategyParams { obi_threshold: 0, cooldown_steps: 0, target_profit_bps: 0 },
        net_pnl,
        trade_pnls: vec![],
        max_drawdown_fall: 0,
        max_drawdown_peak: 1,
        winning_trades: 0,
        total_trades,
    }
}

#[test]
fn selection_filters_and_ranks() {
    let r = select_results(vec![result(5, 10), result(50, 9), result(-3, 12), result(7, 30), result(5, 11)]);
    let got: Vec<(i128, usize)> = r.iter().map(|x| (x.net_pnl, x.total_trades)).collect();
    assert_eq!(got, vec![(7, 30), (5, 10), (5, 11), (-3, 12)]);
    assert!(select_results(vec![result(1, 0)]).is_empty());
}

#[test]
fn starting_cash() {
    // 10,000.00 in units of 5e-17
    assert_eq!(RESEARCH_INITIAL_QUOTE, 200_000_000_000_000_000_000);
}

#[test]
fn replay_values_at_last_known_mid() {
    let params = StrategyParams { obi_threshold: 500_000, cooldown_steps: 1, target_profit_bps: 2 };
    // the second event's book has no mid price, so the first one's stays the last known
    let r = simulate_single(&params, &vec![ev(P, Q, 1, false), ev(0, Q, 2, true)]);
    assert_eq!(r.total_trades, 1);
    assert_eq!(r.net_pnl, -100_005_000_000);
}
