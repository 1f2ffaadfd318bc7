//! The decision step shared by the live engine and the backtest: apply an
//! update, compute features, generate a signal, check risk, fill, book.
use vstd::prelude::*;
use crate::common::{Fill, OrderBookUpdate, Side};
use crate::execution::{ExecutionSimulator, fee_for, trade_value};
use crate::features::{Features, calculate_features, features_of};
use crate::orderbook::{OrderBook, asks_after, bids_after};
use crate::risk::{RiskManager, clamp_i128, projected_position};
use crate::signals::{OBI_THRESHOLD, SignalType, generate_signal, signal_for};

verus! {

/// The market order a signal asks for: a buy for a long signal, a sell for a
/// short one, none otherwise.
pub open spec fn order_side(signal: SignalType) -> Option<Side> {
    match signal {
        SignalType::EnterLong => Some(Side::Bid),
        SignalType::EnterShort => Some(Side::Ask),
        _ => None,
    }
}

/// Whether the price, in half ticks, has moved far enough from the last
/// execution to trade again: always without a cooldown, otherwise by
/// strictly more than the cooldown's ticks.
pub open spec fn cooled_down(cooldown: Option<u64>, price: int, last: int) -> bool {
    match cooldown {
        None => true,
        Some(c) => price - last > 2 * c || last - price > 2 * c,
    }
}

/// `x + 1` held to the range of a `u64`.
pub open spec fn incremented(x: u64) -> u64 {
    if x == u64::MAX { x } else { (x + 1) as u64 }
}

/// Starting cash of the live engine: 10,000.00 in notional units.
pub const LIVE_INITIAL_QUOTE: u128 = 200_000_000_000_000_000_000;

/// Position limit of the live engine: 100 units of the asset, in lots.
pub const LIVE_MAX_POSITION: u64 = 10_000_000_000;

/// Daily loss limit of the live engine: 500.00 in notional units.
pub const LIVE_MAX_DAILY_LOSS: u128 = 10_000_000_000_000_000_000;

/// Volume of each live order: one unit of the asset, in lots.
pub const LIVE_ORDER_VOLUME: u64 = 100_000_000;

/// What one update did.
#[derive(Debug, Clone, Copy)]
pub struct StepOutcome {
    pub features: Features,
    pub signal: SignalType,
    /// The signal asked for an order and the risk manager refused it.
    pub risk_rejected: bool,
    pub fill: Option<Fill>,
}

/// The state of a trading loop: book, account, risk, configuration and
/// counters.
pub struct Engine {
    pub book: OrderBook,
    pub execution: ExecutionSimulator,
    pub risk_manager: RiskManager,
    /// Lots traded per signal.
    pub order_volume: u64,
    /// Ticks the mid price must move from the last execution before the next
    /// one, if any.
    pub cooldown_ticks: Option<u64>,
    /// Whether fills carry the update's market time (otherwise time zero).
    pub use_market_time: bool,
    pub update_count: u64,
    pub trades_executed: u64,
    /// Mid price of the last execution, in half ticks.
    pub last_execution_price: u128,
    /// Mid price after the last update, in half ticks.
    pub final_price: u128,
}

impl Engine {
    /// A fresh engine with an empty book and the given account, limits and
    /// configuration.
    pub fn new(
        execution: ExecutionSimulator,
        risk_manager: RiskManager,
        order_volume: u64,
        cooldown_ticks: Option<u64>,
        use_market_time: bool,
    ) -> (e: Self)
        ensures
            e.book.bids@ == Map::<u64, u64>::empty(),
            e.book.asks@ == Map::<u64, u64>::empty(),
            e.book.timestamp == 0,
            e.execution == execution,
            e.risk_manager == risk_manager,
            e.order_volume == order_volume,
            e.cooldown_ticks == cooldown_ticks,
            e.use_market_time == use_market_time,
            e.update_count == 0,
            e.trades_executed == 0,
            e.last_execution_price == 0,
            e.final_price == 0,
    {
        Engine {
            book: OrderBook::new(),
            execution,
            risk_manager,
            order_volume,
            cooldown_ticks,
            use_market_time,
            update_count: 0,
            trades_executed: 0,
            last_execution_price: 0,
            final_price: 0,
        }
    }

    /// The live engine: starting cash, no asset, its limits and order
    /// volume, no cooldown, fills stamped with time zero.
    pub fn live() -> (e: Self)
        ensures
            e.book.bids@ == Map::<u64, u64>::empty(),
            e.book.asks@ == Map::<u64, u64>::empty(),
            e.execution.quote_balance == LIVE_INITIAL_QUOTE,
            e.execution.base_balance == 0,
            e.execution.fee_rate == crate::execution::TAKER_FEE_PPM,
            e.execution.total_fees_paid == 0,
            e.risk_manager.max_position == LIVE_MAX_POSITION,
            e.risk_manager.max_daily_loss == LIVE_MAX_DAILY_LOSS,
            e.risk_manager.current_position == 0,
            e.risk_manager.current_pnl == 0,
            e.order_volume == LIVE_ORDER_VOLUME,
            e.cooldown_ticks is None,
            !e.use_market_time,
            e.update_count == 0,
            e.trades_executed == 0,
            e.last_execution_price == 0,
            e.final_price == 0,
    {
        Engine::new(
            ExecutionSimulator::new(LIVE_INITIAL_QUOTE, 0),
            RiskManager::new(LIVE_MAX_POSITION, LIVE_MAX_DAILY_LOSS),
            LIVE_ORDER_VOLUME,
            None,
            false,
        )
    }

    /// What one update does to the engine: `after` and `out` are the
    /// engine and the outcome after `self` processes `update`.
    pub open spec fn steps_to(self, update: OrderBookUpdate, out: StepOutcome, after: Engine) -> bool {
        ({
            let bids = bids_after(self.book.bids@, update);
            let asks = asks_after(self.book.asks@, update);
            let t = update.timestamp_of();
            let f = features_of(bids, asks, t);
            let signal = signal_for(f.obi_top_1, OBI_THRESHOLD as int);
            let vol = self.order_volume;
            let stamp = if self.use_market_time { t } else { 0 };
            &&& after.book.bids@ == bids
            &&& after.book.asks@ == asks
            &&& after.book.timestamp == t
            &&& out.features == f
            &&& out.signal == signal
            &&& after.update_count == incremented(self.update_count)
            &&& after.final_price == f.mid_price
            &&& after.order_volume == vol
            &&& after.cooldown_ticks == self.cooldown_ticks
            &&& after.use_market_time == self.use_market_time
            &&& match order_side(signal) {
                Some(side) if cooled_down(self.cooldown_ticks, f.mid_price as int, self.last_execution_price as int)
                    && self.risk_manager.allows(side, vol as int)
                    && self.execution.can_fill(side, vol as int, f.mid_price as int) => {
                    &&& out.fill == Some(Fill { side, volume: vol, price: f.mid_price, timestamp: stamp })
                    &&& !out.risk_rejected
                    &&& after.execution == self.execution.filled(side, vol as int, f.mid_price as int)
                    &&& after.risk_manager == (RiskManager {
                        current_position: clamp_i128(projected_position(self.risk_manager.current_position as int, side, vol as int)) as i128,
                        ..self.risk_manager
                    })
                    &&& after.trades_executed == incremented(self.trades_executed)
                    &&& after.last_execution_price == f.mid_price
                },
                _ => {
                    &&& out.fill is None
                    &&& out.risk_rejected == (order_side(signal) matches Some(side)
                        && cooled_down(self.cooldown_ticks, f.mid_price as int, self.last_execution_price as int)
                        && !self.risk_manager.allows(side, vol as int))
                    &&& after.execution == self.execution
                    &&& after.risk_manager == self.risk_manager
                    &&& after.trades_executed == self.trades_executed
                    &&& after.last_execution_price == self.last_execution_price
                },
            }
        })
    }

    /// Processes one update. The book takes the update, the features of the
    /// new book give a signal; a long or short signal, once the mid price has
    /// cooled down from the last execution, becomes a market order of the
    /// configured volume at the mid price, which the risk manager must accept
    /// and the account must be able to fill. A fill is booked into the risk
    /// manager's position and counted.
    pub fn on_update(&mut self, update: OrderBookUpdate) -> (out: StepOutcome)
        ensures
            old(self).steps_to(update, out, *final(self)),
            out.fill is Some ==> -(final(self).risk_manager.max_position as int) <= final(self).risk_manager.current_position
                <= final(self).risk_manager.max_position as int,
            -(old(self).risk_manager.max_position as int) <= old(self).risk_manager.current_position
                <= old(self).risk_manager.max_position as int
                ==> -(final(self).risk_manager.max_position as int) <= final(self).risk_manager.current_position
                <= final(self).risk_manager.max_position as int,
    {
        self.update_count = self.update_count.saturating_add(1);
        let market_timestamp = update.timestamp();
        self.book.apply(update);

        let limit_fills = self.execution.match_orders(&self.book);
        let ghost before_fills = *self;
        let mut i: usize = 0;
        while i < limit_fills.len()
            invariant
                limit_fills@.len() == 0,
                *self == before_fills,
            decreases limit_fills@.len() - i,
        {
            let trade = limit_fills[i];
            self.risk_manager.update_position(trade.side, trade.volume, trade.price as u128 * 2);
            self.trades_executed = self.trades_executed.saturating_add(1);
            i = i + 1;
        }

        let feats = calculate_features(&self.book);
        self.final_price = feats.mid_price;
        let signal = generate_signal(&feats);
        let mut outcome = StepOutcome { features: feats, signal, risk_rejected: false, fill: None };
        let side = match signal {
            SignalType::EnterLong => Side::Bid,
            SignalType::EnterShort => Side::Ask,
            _ => return outcome,
        };
        let volume = self.order_volume;
        let mid = feats.mid_price;
        let cooled = match self.cooldown_ticks {
            None => true,
            Some(c) => (mid > self.last_execution_price && mid - self.last_execution_price > 2 * c as u128)
                || (self.last_execution_price > mid && self.last_execution_price - mid > 2 * c as u128),
        };
        if !cooled {
            return outcome;
        }
        if !self.risk_manager.check_new_order(side, volume) {
            outcome.risk_rejected = true;
            return outcome;
        }
        let stamp = if self.use_market_time { market_timestamp } else { 0 };
        if let Some(fill) = self.execution.fill_market_order(side, volume, mid, stamp) {
            self.trades_executed = self.trades_executed.saturating_add(1);
            self.risk_manager.update_position(fill.side, fill.volume, fill.price);
            self.last_execution_price = mid;
            outcome.fill = Some(fill);
        }
        outcome
    }
}

/// Whether `engines` and `outs` are a run of the engine over `updates`:
/// each engine is the one before it after the matching update, with the
/// matching outcome.
pub open spec fn is_run(engines: Seq<Engine>, updates: Seq<OrderBookUpdate>, outs: Seq<StepOutcome>) -> bool {
    &&& engines.len() == updates.len() + 1
    &&& outs.len() == updates.len()
    &&& forall|i: int| #![trigger updates[i]] 0 <= i < updates.len() ==> engines[i].steps_to(updates[i], outs[i], engines[i + 1])
}

/// The fee of an outcome's fill at the given rate, zero without a fill.
pub open spec fn fill_fee(out: StepOutcome, rate: u64) -> int {
    match out.fill {
        Some(f) => fee_for(trade_value(f.volume as int, f.price as int), rate as int),
        None => 0,
    }
}

/// The fees of all fills of a list of outcomes at the given rate.
pub open spec fn fills_fees(outs: Seq<StepOutcome>, rate: u64) -> int
    decreases outs.len(),
{
    if outs.len() == 0 {
        0
    } else {
        fills_fees(outs.drop_last(), rate) + fill_fee(outs.last(), rate)
    }
}

/// A prefix of a run is a run.
proof fn lemma_run_prefix(engines: Seq<Engine>, updates: Seq<OrderBookUpdate>, outs: Seq<StepOutcome>)
    requires
        is_run(engines, updates, outs),
        updates.len() > 0,
    ensures
        is_run(engines.drop_last(), updates.drop_last(), outs.drop_last()),
{
    let n = updates.len() - 1;
    assert forall|i: int| #![trigger updates.drop_last()[i]] 0 <= i < n implies
        engines.drop_last()[i].steps_to(updates.drop_last()[i], outs.drop_last()[i], engines.drop_last()[i + 1]) by {
        assert(updates.drop_last()[i] == updates[i]);
    }
}

proof fn lemma_fills_fees_nonneg(outs: Seq<StepOutcome>, rate: u64)
    ensures
        fills_fees(outs, rate) >= 0,
    decreases outs.len(),
{
    if outs.len() > 0 {
        lemma_fills_fees_nonneg(outs.drop_last(), rate);
    }
}

/// Over a run, the fee rate and the cooldown stay as they were, and the
/// fees paid grow by exactly the fee of each fill, as long as their total
/// stays within the range of `u128`.
pub proof fn lemma_run_fees(engines: Seq<Engine>, updates: Seq<OrderBookUpdate>, outs: Seq<StepOutcome>)
    requires
        is_run(engines, updates, outs),
        engines[0].execution.total_fees_paid + fills_fees(outs, engines[0].execution.fee_rate) <= u128::MAX,
    ensures
        engines.last().execution.fee_rate == engines[0].execution.fee_rate,
        engines.last().cooldown_ticks == engines[0].cooldown_ticks,
        engines.last().execution.total_fees_paid
            == engines[0].execution.total_fees_paid + fills_fees(outs, engines[0].execution.fee_rate),
    decreases updates.len(),
{
    if updates.len() > 0 {
        let n = updates.len() - 1;
        let rate = engines[0].execution.fee_rate;
        lemma_run_prefix(engines, updates, outs);
        lemma_fills_fees_nonneg(outs.drop_last(), rate);
        assert(fill_fee(outs.last(), rate) >= 0) by {
            if let Some(f) = outs.last().fill {
                assert(trade_value(f.volume as int, f.price as int) >= 0);
            }
        }
        lemma_run_fees(engines.drop_last(), updates.drop_last(), outs.drop_last());
        assert(engines.drop_last().last() == engines[n]);
        assert(engines.drop_last()[0] == engines[0]);
        assert(engines[n].steps_to(updates[n], outs[n], engines[n + 1]));
        assert(outs.last() == outs[n]);
    }
}

/// Over a run, the cooldown stays as it was, and after a fill the last
/// execution price is that fill's price until the next fill.
proof fn lemma_run_last_price(engines: Seq<Engine>, updates: Seq<OrderBookUpdate>, outs: Seq<StepOutcome>, i: int, j: int)
    requires
        is_run(engines, updates, outs),
        0 <= i < j <= updates.len(),
        outs[i].fill is Some,
        forall|k: int| i < k < j ==> (#[trigger] outs[k]).fill is None,
    ensures
        engines[j].last_execution_price == outs[i].fill->0.price,
        engines[j].cooldown_ticks == engines[i].cooldown_ticks,
    decreases j - i,
{
    if j == i + 1 {
        assert(engines[i].steps_to(updates[i], outs[i], engines[i + 1]));
    } else {
        lemma_run_last_price(engines, updates, outs, i, j - 1);
        assert(outs[j - 1].fill is None);
        assert(engines[j - 1].steps_to(updates[j - 1], outs[j - 1], engines[j]));
    }
}

/// Over a run with a cooldown of `c` ticks, two successive fills are more
/// than `c` ticks apart: their prices, in half ticks, differ by more than
/// `2 * c`.
pub proof fn lemma_run_fills_spaced(engines: Seq<Engine>, updates: Seq<OrderBookUpdate>, outs: Seq<StepOutcome>, i: int, j: int, c: u64)
    requires
        is_run(engines, updates, outs),
        0 <= i < j < updates.len(),
        engines[i].cooldown_ticks == Some(c),
        outs[i].fill is Some,
        outs[j].fill is Some,
        forall|k: int| i < k < j ==> (#[trigger] outs[k]).fill is None,
    ensures
        outs[j].fill->0.price - outs[i].fill->0.price > 2 * c
            || outs[i].fill->0.price - outs[j].fill->0.price > 2 * c,
{
    lemma_run_last_price(engines, updates, outs, i, j);
    assert(engines[j].steps_to(updates[j], outs[j], engines[j + 1]));
}

/// The cooldown looks at the distance of the mid price from the last
/// execution in either direction: a step with a cooldown of `c` ticks fills
/// only a mid price more than `2 * c` half ticks above or below the last
/// execution price, and a long or short signal at such a mid price, falling
/// or rising, is filled at it whenever the risk manager accepts the order and
/// the account can pay for it.
pub proof fn lemma_step_cooldown(before: Engine, update: OrderBookUpdate, out: StepOutcome, after: Engine, c: u64)
    requires
        before.steps_to(update, out, after),
        before.cooldown_ticks == Some(c),
    ensures
        ({
            let mid = out.features.mid_price as int;
            let last = before.last_execution_price as int;
            let far = mid - last > 2 * c || last - mid > 2 * c;
            let side = if out.signal == SignalType::EnterLong { Side::Bid } else { Side::Ask };
            let vol = before.order_volume;
            let stamp = if before.use_market_time { update.timestamp_of() } else { 0 };
            &&& out.fill is Some ==> far
            &&& (out.signal == SignalType::EnterLong || out.signal == SignalType::EnterShort) && far
                && before.risk_manager.allows(side, vol as int)
                && before.execution.can_fill(side, vol as int, mid)
                ==> out.fill == Some(Fill { side, volume: vol, price: out.features.mid_price, timestamp: stamp })
        }),
{
}

} // verus!
