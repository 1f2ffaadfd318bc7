//! Historical backtest: its configuration and its final report.
use vstd::prelude::*;
use crate::engine::Engine;
use crate::execution::{ExecutionSimulator, TAKER_FEE_PPM, clamp_u128};
use crate::risk::{RiskManager, clamp_i128};

verus! {

/// Starting cash of a backtest: 10,000.00 in notional units (5e-17 each).
pub const BACKTEST_INITIAL_QUOTE: u128 = 200_000_000_000_000_000_000;

/// Position limit of a backtest: 1,000 units of the asset, in lots.
pub const BACKTEST_MAX_POSITION: u64 = 100_000_000_000;

/// Daily loss limit of a backtest: 5,000.00 in notional units.
pub const BACKTEST_MAX_DAILY_LOSS: u128 = 100_000_000_000_000_000_000;

/// Volume of each backtest order: 0.0001 units of the asset, in lots.
pub const BACKTEST_ORDER_VOLUME: u64 = 10_000;

/// Mid-price move required between backtest executions: 0.10, in ticks.
pub const BACKTEST_COOLDOWN_TICKS: u64 = 10_000_000;

/// The numbers a backtest ends with.
#[derive(Debug, Clone, Copy, PartialEq, Eq, Structural)]
pub struct BacktestReport {
    pub update_count: u64,
    pub trades_executed: u64,
    pub quote_balance: u128,
    pub base_balance: u128,
    pub total_fees_paid: u128,
    /// Cash plus the asset valued at the last mid price, held to `u128`.
    pub net_worth: u128,
    /// Net worth less the starting cash, held to `i128`.
    pub pnl: i128,
}

/// Replays historical data through the engine.
pub struct Backtester;

impl Backtester {
    /// The engine a backtest runs: starting cash, no asset, its limits, its
    /// order volume, its cooldown, fills stamped with market time.
    pub fn engine() -> (e: Engine)
        ensures
            e.book.bids@ == Map::<u64, u64>::empty(),
            e.book.asks@ == Map::<u64, u64>::empty(),
            e.execution.quote_balance == BACKTEST_INITIAL_QUOTE,
            e.execution.base_balance == 0,
            e.execution.fee_rate == TAKER_FEE_PPM,
            e.execution.total_fees_paid == 0,
            e.risk_manager.max_position == BACKTEST_MAX_POSITION,
            e.risk_manager.max_daily_loss == BACKTEST_MAX_DAILY_LOSS,
            e.risk_manager.current_position == 0,
            e.risk_manager.current_pnl == 0,
            e.order_volume == BACKTEST_ORDER_VOLUME,
            e.cooldown_ticks == Some(BACKTEST_COOLDOWN_TICKS),
            e.use_market_time,
            e.update_count == 0,
            e.trades_executed == 0,
            e.last_execution_price == 0,
            e.final_price == 0,
    {
        Engine::new(
            ExecutionSimulator::new(BACKTEST_INITIAL_QUOTE, 0),
            RiskManager::new(BACKTEST_MAX_POSITION, BACKTEST_MAX_DAILY_LOSS),
            BACKTEST_ORDER_VOLUME,
            Some(BACKTEST_COOLDOWN_TICKS),
            true,
        )
    }

    /// The final report of a backtest that ran `engine`.
    pub fn report(engine: &Engine) -> (r: BacktestReport)
        ensures
            ({
                let worth = engine.execution.quote_balance + engine.execution.base_balance * engine.final_price;
                &&& r.update_count == engine.update_count
                &&& r.trades_executed == engine.trades_executed
                &&& r.quote_balance == engine.execution.quote_balance
                &&& r.base_balance == engine.execution.base_balance
                &&& r.total_fees_paid == engine.execution.total_fees_paid
                &&& r.net_worth == clamp_u128(worth)
                &&& r.pnl == clamp_i128(worth - BACKTEST_INITIAL_QUOTE)
            }),
    {
        let quote = engine.execution.quote_balance;
        let base = engine.execution.base_balance;
        let price = engine.final_price;
        let ghost worth = quote + base * price;
        assert(base * price >= 0) by (nonlinear_arith)
            requires
                base >= 0,
                price >= 0,
        ;
        let net_worth: u128 = match base.checked_mul(price) {
            None => u128::MAX,
            Some(value) => quote.saturating_add(value),
        };
        let pnl: i128 = if net_worth == u128::MAX {
            i128::MAX
        } else if net_worth >= BACKTEST_INITIAL_QUOTE {
            let gain = net_worth - BACKTEST_INITIAL_QUOTE;
            if gain > i128::MAX as u128 { i128::MAX } else { gain as i128 }
        } else {
            -((BACKTEST_INITIAL_QUOTE - net_worth) as i128)
        };
        BacktestReport {
            update_count: engine.update_count,
            trades_executed: engine.trades_executed,
            quote_balance: quote,
            base_balance: base,
            total_fees_paid: engine.execution.total_fees_paid,
            net_worth,
            pnl,
        }
    }
}

} // verus!
