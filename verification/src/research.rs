//! Strategy research: replay market events under a set of strategy
//! parameters and measure the outcome, over a grid of parameters.
use vstd::prelude::*;
use crate::common::{Level, Side};
use crate::engine::order_side;
use crate::execution::{TAKER_FEE_PPM, clamp_u128};
use crate::features::{Ratio, calculate_features, features_of, lemma_imbalance_range};
use crate::fraction::{abs_i128, frac_less};
use crate::risk::clamp_i128;
use crate::ingestion::{HistoricalIngestor, clamp_u64, trade_update};
use crate::orderbook::{OrderBook, highest_levels, insert_levels, lists_highest, lists_lowest, lowest_levels, lemma_highest_unique, lemma_lowest_unique};
use crate::signals::{SignalType, signal_for, signal_with_threshold};

verus! {

/// A pre-parsed market trade used for replay: price in ticks, quantity in
/// lots, time, and whether the aggressor sold.
#[derive(Debug, Clone, Copy, PartialEq, Eq, Structural)]
pub struct MarketEvent {
    pub price: u64,
    pub qty: u64,
    pub timestamp: u64,
    pub is_sell: bool,
}

/// The tunable strategy parameters.
#[derive(Debug, Clone, Copy, PartialEq, Eq, Structural)]
pub struct StrategyParams {
    /// Imbalance beyond which a signal fires, in millionths.
    pub obi_threshold: i64,
    /// Events that must pass after a trade before the next one.
    pub cooldown_steps: usize,
    /// Least signal strength, in the proxy unit `|imbalance| * 100`, needed
    /// to open a position.
    pub target_profit_bps: u64,
}

/// What one replay measured.
#[derive(Debug, Clone)]
pub struct ResearchResult {
    pub params: StrategyParams,
    /// Final worth less starting cash, in notional units.
    pub net_pnl: i128,
    /// Profit or loss of each round trip closed, in notional units.
    pub trade_pnls: Vec<i128>,
    /// The largest fall from a peak of the account's worth, as the fall
    /// over the peak it fell from.
    pub max_drawdown_fall: u128,
    pub max_drawdown_peak: u128,
    /// Trades that closed a round trip at a profit.
    pub winning_trades: usize,
    pub total_trades: usize,
}

/// Starting cash of a replay: 10,000.00 in notional units.
pub const RESEARCH_INITIAL_QUOTE: u128 = 200_000_000_000_000_000_000;

/// Volume of every replay trade: 0.0001 units of the asset, in lots.
pub const RESEARCH_TRADE_VOLUME: u64 = 10_000;

/// The fee on a replay trade of the given value, rounded down.
pub open spec fn research_fee(value: int) -> int {
    value * TAKER_FEE_PPM / 1_000_000
}

/// The state of a replay, over unbounded integers.
#[verifier::ext_equal]
pub struct SimModel {
    pub quote: int,
    pub base: int,
    pub bids: Map<u64, u64>,
    pub asks: Map<u64, u64>,
    pub steps: int,
    pub pnls: Seq<int>,
    pub peak: int,
    /// The largest drawdown so far, as a fall over a peak.
    pub dd_fall: int,
    pub dd_peak: int,
    pub winning: int,
    pub total: int,
    /// Price, in half ticks, and side of the last trade, which a trade the
    /// other way closes.
    pub entry: Option<(u128, Side)>,
    /// Mid price, in half ticks, of the last event whose book had one;
    /// zero before any.
    pub last_mid: int,
}

/// The state before the first event.
pub open spec fn sim_start() -> SimModel {
    SimModel {
        quote: RESEARCH_INITIAL_QUOTE as int,
        base: 0,
        bids: Map::empty(),
        asks: Map::empty(),
        steps: 0,
        pnls: Seq::empty(),
        peak: RESEARCH_INITIAL_QUOTE as int,
        dd_fall: 0,
        dd_peak: 1,
        winning: 0,
        total: 0,
        entry: None,
        last_mid: 0,
    }
}

/// The profit of the round trip that a trade on `side` at `mid` closes, if
/// the last trade went the other way: the price move times the volume, less
/// twice the fee on the trade's value.
pub open spec fn closed_pnl(entry: Option<(u128, Side)>, side: Side, mid: int) -> Option<int> {
    let fee = research_fee(RESEARCH_TRADE_VOLUME * mid);
    match (entry, side) {
        (Some((ep, Side::Ask)), Side::Bid) => Some((ep - mid) * RESEARCH_TRADE_VOLUME - 2 * fee),
        (Some((ep, Side::Bid)), Side::Ask) => Some((mid - ep) * RESEARCH_TRADE_VOLUME - 2 * fee),
        _ => None,
    }
}

/// A trade on `side` at `mid` half ticks: a buy needs the value and fee in
/// cash, a sell needs the volume in the asset; without them nothing
/// happens. A trade that closes a round trip records its profit and counts
/// a win when positive. Cash is held to the range of `u128`.
pub open spec fn sim_trade(s: SimModel, side: Side, mid: int) -> SimModel {
    let value = RESEARCH_TRADE_VOLUME * mid;
    let fee = research_fee(value);
    let can = match side {
        Side::Bid => s.quote >= value + fee,
        Side::Ask => s.base >= RESEARCH_TRADE_VOLUME,
    };
    if !can {
        s
    } else {
        let closed = closed_pnl(s.entry, side, mid);
        let pnls = match closed { Some(p) => s.pnls.push(p), None => s.pnls };
        let winning = match closed { Some(p) => if p > 0 { s.winning + 1 } else { s.winning }, None => s.winning };
        SimModel {
            quote: match side { Side::Bid => s.quote - value - fee, Side::Ask => clamp_u128(s.quote + value - fee) },
            base: match side { Side::Bid => s.base + RESEARCH_TRADE_VOLUME, Side::Ask => s.base - RESEARCH_TRADE_VOLUME },
            steps: 0,
            pnls,
            winning,
            total: s.total + 1,
            entry: Some((mid as u128, side)),
            ..s
        }
    }
}

/// The account's worth at `mid` half ticks, held to the range of `u128`.
pub open spec fn worth_at(s: SimModel, mid: int) -> int {
    clamp_u128(s.quote + s.base * mid)
}

/// The peak and the largest drawdown after valuing the account at `mid`:
/// the drawdown `(peak - worth) / peak` replaces the largest so far when
/// it is strictly larger.
pub open spec fn with_drawdown(s: SimModel, mid: int) -> SimModel {
    let current = worth_at(s, mid);
    let peak = if current > s.peak { current } else { s.peak };
    let fall = peak - current;
    if fall * s.dd_peak > s.dd_fall * peak {
        SimModel { peak, dd_fall: fall, dd_peak: peak, ..s }
    } else {
        SimModel { peak, ..s }
    }
}

/// Whether the signal strength, the proxy `|imbalance| * 100`, is below a
/// profit target.
pub open spec fn below_target(obi: Ratio, target: int) -> bool {
    (if obi.num < 0 { -obi.num } else { obi.num as int }) * 100 < target * obi.den
}

/// One event of a replay. The book becomes the event's snapshot; a book
/// without a mid price ends the event there. Otherwise the event counts
/// toward the cooldown, its mid price becomes the last known one, and the
/// imbalance gives a signal. A signal before the
/// cooldown has passed, or one too weak while no position is open, ends the
/// event; any other signal trades at the mid price. The drawdown is then
/// tracked at the mid price.
pub open spec fn sim_step(params: StrategyParams, s: SimModel, e: MarketEvent) -> SimModel {
    let levels = trade_update(e.price, e.qty, e.timestamp, e.is_sell);
    let bids = insert_levels(Map::empty(), seq![levels.0]);
    let asks = insert_levels(Map::empty(), seq![levels.1]);
    let f = features_of(bids, asks, e.timestamp);
    let s1 = SimModel { bids, asks, ..s };
    if f.mid_price == 0 {
        s1
    } else {
        let mid = f.mid_price as int;
        let s2 = SimModel { steps: s1.steps + 1, last_mid: mid, ..s1 };
        match order_side(signal_for(f.obi_top_1, params.obi_threshold as int)) {
            None => with_drawdown(s2, mid),
            Some(side) => if s2.steps < params.cooldown_steps {
                s2
            } else if below_target(f.obi_top_1, params.target_profit_bps as int) && s2.entry is None {
                s2
            } else {
                with_drawdown(sim_trade(s2, side, mid), mid)
            },
        }
    }
}

/// The state after replaying `events` in order.
pub open spec fn sim_run(params: StrategyParams, events: Seq<MarketEvent>) -> SimModel
    decreases events.len(),
{
    if events.len() == 0 {
        sim_start()
    } else {
        sim_step(params, sim_run(params, events.drop_last()), events.last())
    }
}

/// A replay whose threshold no imbalance can pass, or whose profit target
/// no imbalance can reach, never trades and never opens a position.
pub proof fn lemma_unreachable_strategy_never_trades(params: StrategyParams, events: Seq<MarketEvent>)
    requires
        params.obi_threshold >= 1_000_000 || params.target_profit_bps > 100,
    ensures
        sim_run(params, events).total == 0,
        sim_run(params, events).entry is None,
        sim_run(params, events).pnls.len() == 0,
    decreases events.len(),
{
    if events.len() > 0 {
        lemma_unreachable_strategy_never_trades(params, events.drop_last());
        let s = sim_run(params, events.drop_last());
        let e = events.last();
        let levels = trade_update(e.price, e.qty, e.timestamp, e.is_sell);
        let bids = insert_levels(Map::empty(), seq![levels.0]);
        let asks = insert_levels(Map::empty(), seq![levels.1]);
        let f = features_of(bids, asks, e.timestamp);
        let tb = highest_levels(bids, 5);
        let ta = lowest_levels(asks, 5);
        if tb.len() > 0 && ta.len() > 0 {
            lemma_imbalance_range(tb[0].volume as int, ta[0].volume as int);
            let obi = f.obi_top_1;
            let t = params.obi_threshold as int;
            if params.obi_threshold >= 1_000_000 {
                assert(!(obi.num * 1_000_000 > t * obi.den)) by (nonlinear_arith)
                    requires
                        obi.num <= obi.den,
                        obi.den > 0,
                        t >= 1_000_000,
                ;
                assert(!(obi.num * 1_000_000 < -t * obi.den)) by (nonlinear_arith)
                    requires
                        obi.num >= -obi.den,
                        obi.den > 0,
                        t >= 1_000_000,
                ;
            } else {
                assert(below_target(obi, params.target_profit_bps as int)) by (nonlinear_arith)
                    requires
                        -(obi.den as int) <= obi.num <= obi.den,
                        obi.den > 0,
                        params.target_profit_bps > 100,
                ;
            }
        }
    }
}

/// A side of a book holding one level lists that level as its best and
/// only one.
proof fn lemma_single_level(l: Level)
    ensures
        highest_levels(insert_levels(Map::empty(), seq![l]), 5) == seq![l],
        lowest_levels(insert_levels(Map::empty(), seq![l]), 5) == seq![l],
{
    reveal_with_fuel(insert_levels, 2);
    let m = insert_levels(Map::empty(), seq![l]);
    assert(seq![l].drop_last() =~= Seq::<Level>::empty());
    assert(m == Map::<u64, u64>::empty().insert(l.price, l.volume));
    assert(m.dom() =~= set![l.price]);
    assert(m.dom().len() == 1) by {
        assert(set![l.price] =~= Set::<u64>::empty().insert(l.price));
        assert(Set::<u64>::empty().len() == 0);
    }
    let r = seq![l];
    assert forall|k: u64, i: int| #![trigger m.contains_key(k), r[i]]
        m.contains_key(k) && 0 <= i < r.len() && k > r[i].price implies exists|j: int| 0 <= j < r.len() && r[j].price == k by {}
    assert(lists_highest(m, r, 5));
    assert(lists_highest(m, highest_levels(m, 5), 5));
    lemma_highest_unique(m, r, highest_levels(m, 5), 5);
    assert(lists_lowest(m, r, 5));
    assert(lists_lowest(m, lowest_levels(m, 5), 5));
    lemma_lowest_unique(m, r, lowest_levels(m, 5), 5);
}

/// After an event, the replay's last known mid price is the mid of the
/// event's own book, whether or not the event traded: the trade price and
/// the price 0.01 below it for a sell, the trade price and the price 0.01
/// above it for a buy (each held to the `u64` range), summed into half
/// ticks. An event whose book has a zero mid leaves it as it was.
pub proof fn lemma_step_last_mid(params: StrategyParams, s: SimModel, e: MarketEvent)
    ensures
        ({
            let (bid, ask) = if e.is_sell {
                (clamp_u64(e.price - 1_000_000), e.price)
            } else {
                (e.price, clamp_u64(e.price + 1_000_000))
            };
            let mid = bid + ask;
            &&& mid != 0 ==> sim_step(params, s, e).last_mid == mid
            &&& mid == 0 ==> sim_step(params, s, e).last_mid == s.last_mid
        }),
{
    let levels = trade_update(e.price, e.qty, e.timestamp, e.is_sell);
    lemma_single_level(levels.0);
    lemma_single_level(levels.1);
}

/// Closing a round trip books the price move in the position's favour:
/// a buy at `mid` that closes a short entered at `ep` books `(ep - mid)`
/// times the volume, a sell at `mid` that closes a long entered at `ep`
/// books `(mid - ep)` times the volume, less twice the fee on the closing
/// trade's value in each case; the trade counts as a win exactly when
/// what it books is positive.
pub proof fn lemma_round_trip_pnl(s: SimModel, side: Side, mid: int, ep: u128)
    requires
        mid >= 0,
        side == Side::Bid ==> s.entry == Some((ep, Side::Ask)) && s.quote >= RESEARCH_TRADE_VOLUME * mid
            + RESEARCH_TRADE_VOLUME * mid * 500 / 1_000_000,
        side == Side::Ask ==> s.entry == Some((ep, Side::Bid)) && s.base >= RESEARCH_TRADE_VOLUME,
    ensures
        ({
            let fee = RESEARCH_TRADE_VOLUME * mid * 500 / 1_000_000;
            let gain = match side {
                Side::Bid => (ep - mid) * RESEARCH_TRADE_VOLUME - 2 * fee,
                Side::Ask => (mid - ep) * RESEARCH_TRADE_VOLUME - 2 * fee,
            };
            let after = sim_trade(s, side, mid);
            &&& after.pnls == s.pnls.push(gain)
            &&& after.winning == s.winning + (if gain > 0 { 1int } else { 0int })
            &&& after.total == s.total + 1
        }),
{
}

/// Largest mid price in half ticks: twice the largest tick.
pub open spec fn mid_bound() -> int {
    2 * u64::MAX
}

/// The executable state of a replay.
struct Replay {
    quote: u128,
    base: u128,
    book: OrderBook,
    steps: usize,
    pnls: Vec<i128>,
    peak: u128,
    dd_fall: u128,
    dd_peak: u128,
    winning: usize,
    total: usize,
    entry: Option<(u128, Side)>,
    last_mid: u128,
}

impl Replay {
    spec fn model(&self) -> SimModel {
        SimModel {
            quote: self.quote as int,
            base: self.base as int,
            bids: self.book.bids@,
            asks: self.book.asks@,
            steps: self.steps as int,
            pnls: self.pnls@.map_values(|p: i128| p as int),
            peak: self.peak as int,
            dd_fall: self.dd_fall as int,
            dd_peak: self.dd_peak as int,
            winning: self.winning as int,
            total: self.total as int,
            entry: self.entry,
            last_mid: self.last_mid as int,
        }
    }

    /// Bounds on the replay after `k` events, with trades at least
    /// `c` counted events apart.
    spec fn bounded(&self, k: int, c: int) -> bool {
        &&& self.base <= k * RESEARCH_TRADE_VOLUME
        &&& RESEARCH_INITIAL_QUOTE <= self.peak
        &&& 0 < self.dd_peak
        &&& self.dd_fall <= self.dd_peak
        &&& self.winning <= self.total
        &&& self.total * c + self.steps <= k
        &&& self.pnls@.len() <= self.total
        &&& (self.entry matches Some((ep, _)) ==> ep <= mid_bound())
    }

    fn start() -> (r: Self)
        ensures
            r.model() == sim_start(),
            forall|c: int| #[trigger] r.bounded(0, c),
    {
        let r = Replay {
            quote: RESEARCH_INITIAL_QUOTE,
            base: 0,
            book: OrderBook::new(),
            steps: 0,
            pnls: Vec::new(),
            peak: RESEARCH_INITIAL_QUOTE,
            dd_fall: 0,
            dd_peak: 1,
            winning: 0,
            total: 0,
            entry: None,
            last_mid: 0,
        };
        assert(r.model().pnls =~= Seq::<int>::empty());
        assert forall|c: int| #[trigger] r.bounded(0, c) by {
            assert(0 * c == 0);
        }
        r
    }

    /// Values the account at `mid` and tracks the peak and the drawdown.
    fn track(&mut self, mid: u128)
        requires
            RESEARCH_INITIAL_QUOTE <= old(self).peak,
            0 < old(self).dd_peak,
            old(self).dd_fall <= old(self).dd_peak,
        ensures
            final(self).model() == with_drawdown(old(self).model(), mid as int),
            RESEARCH_INITIAL_QUOTE <= final(self).peak,
            0 < final(self).dd_peak,
            final(self).dd_fall <= final(self).dd_peak,
            final(self).quote == old(self).quote,
            final(self).base == old(self).base,
            final(self).steps == old(self).steps,
            final(self).total == old(self).total,
            final(self).winning == old(self).winning,
            final(self).pnls == old(self).pnls,
            final(self).entry == old(self).entry,
    {
        assert(self.base * mid >= 0) by (nonlinear_arith);
        let current: u128 = match self.base.checked_mul(mid) {
            None => u128::MAX,
            Some(held) => self.quote.saturating_add(held),
        };
        if current > self.peak {
            self.peak = current;
        }
        let fall = self.peak - current;
        if frac_less(self.dd_fall, self.dd_peak, fall, self.peak) {
            assert(fall * self.dd_peak > self.dd_fall * self.peak);
            self.dd_fall = fall;
            self.dd_peak = self.peak;
        }
        assert(self.model() =~= with_drawdown(old(self).model(), mid as int));
    }

    /// A replay trade on `side` at `mid` half ticks.
    fn trade(&mut self, side: Side, mid: u128, Ghost(k): Ghost<int>)
        requires
            old(self).base <= k * RESEARCH_TRADE_VOLUME,
            0 <= k < usize::MAX,
            old(self).winning <= old(self).total < usize::MAX,
            old(self).pnls@.len() <= old(self).total,
            mid <= mid_bound(),
            old(self).entry matches Some((ep, _)) ==> ep <= mid_bound(),
        ensures
            final(self).model() == sim_trade(old(self).model(), side, mid as int),
            final(self).base <= (k + 1) * RESEARCH_TRADE_VOLUME,
            final(self).winning <= final(self).total,
            final(self).pnls@.len() <= final(self).total,
            final(self).entry matches Some((ep, _)) ==> ep <= mid_bound(),
            final(self).peak == old(self).peak,
            final(self).dd_fall == old(self).dd_fall,
            final(self).dd_peak == old(self).dd_peak,
            final(self).total == old(self).total || (final(self).total == old(self).total + 1 && final(self).steps == 0),
            final(self).total == old(self).total ==> final(self).steps == old(self).steps,
    {
        assert(10_000 * mid <= 10_000 * 0x1_ffff_ffff_ffff_fffe) by (nonlinear_arith)
            requires
                mid <= 0x1_ffff_ffff_ffff_fffe,
        ;
        let value = RESEARCH_TRADE_VOLUME as u128 * mid;
        assert(value * 500 <= 500 * 10_000 * 0x1_ffff_ffff_ffff_fffe) by (nonlinear_arith)
            requires
                value <= 10_000 * 0x1_ffff_ffff_ffff_fffe,
        ;
        let fee = value * (TAKER_FEE_PPM as u128) / 1_000_000;
        assert(fee <= value) by (nonlinear_arith)
            requires
                fee == value * 500 / 1_000_000,
                value >= 0,
        ;
        let ghost before = self.model();
        let can = match side {
            Side::Bid => self.quote >= value && self.quote - value >= fee,
            Side::Ask => self.base >= RESEARCH_TRADE_VOLUME as u128,
        };
        if !can {
            return;
        }
        let closes = match (self.entry, side) {
            (Some((_, Side::Ask)), Side::Bid) => true,
            (Some((_, Side::Bid)), Side::Ask) => true,
            _ => false,
        };
        if closes {
            let ep = match self.entry { Some((p, _)) => p, None => 0 };
            let moved: i128 = match side {
                Side::Bid => ep as i128 - mid as i128,
                Side::Ask => mid as i128 - ep as i128,
            };
            let pnl: i128 = moved * (RESEARCH_TRADE_VOLUME as i128) - 2 * (fee as i128);
            let ghost old_pnls = self.pnls@;
            self.pnls.push(pnl);
            assert(self.pnls@.map_values(|p: i128| p as int) =~= old_pnls.map_values(|p: i128| p as int).push(pnl as int));
            if pnl > 0 {
                self.winning = self.winning + 1;
            }
        }
        match side {
            Side::Bid => {
                self.quote = self.quote - value - fee;
                self.base = self.base + RESEARCH_TRADE_VOLUME as u128;
            },
            Side::Ask => {
                self.quote = self.quote.saturating_add(value - fee);
                self.base = self.base - RESEARCH_TRADE_VOLUME as u128;
            },
        }
        self.total = self.total + 1;
        self.steps = 0;
        self.entry = Some((mid, side));
        assert(self.model() =~= sim_trade(before, side, mid as int));
    }

    /// Replays one event.
    fn step(&mut self, params: &StrategyParams, e: MarketEvent, Ghost(k): Ghost<int>)
        requires
            old(self).bounded(k, cooldown_weight(params.cooldown_steps)),
            0 <= k < usize::MAX,
        ensures
            final(self).model() == sim_step(*params, old(self).model(), e),
            final(self).bounded(k + 1, cooldown_weight(params.cooldown_steps)),
    {
        let ghost c = cooldown_weight(params.cooldown_steps);
        let ghost before = self.model();
        let update = HistoricalIngestor::trade_snapshot(e.price, e.qty, e.timestamp, e.is_sell);
        self.book.apply(update);
        let feats = calculate_features(&self.book);
        assert(self.base <= (k + 1) * RESEARCH_TRADE_VOLUME) by (nonlinear_arith)
            requires
                self.base <= k * RESEARCH_TRADE_VOLUME,
        ;
        if feats.mid_price == 0 {
            assert(self.model() =~= sim_step(*params, before, e));
            return;
        }
        assert(self.total * c <= k && self.steps <= k && self.total <= k) by (nonlinear_arith)
            requires
                self.total * c + self.steps <= k,
                c >= 1,
        ;
        self.steps = self.steps + 1;
        let mid = feats.mid_price;
        self.last_mid = mid;
        let signal = signal_with_threshold(feats.obi_top_1, params.obi_threshold);
        let side = match signal {
            SignalType::EnterLong => Side::Bid,
            SignalType::EnterShort => Side::Ask,
            _ => {
                self.track(mid);
                return;
            },
        };
        if self.steps < params.cooldown_steps {
            assert(self.model() =~= sim_step(*params, before, e));
            return;
        }
        let strength = abs_i128(feats.obi_top_1.num);
        let weak = frac_less(strength, feats.obi_top_1.den, params.target_profit_bps as u128, 100);
        if weak && self.entry.is_none() {
            assert(self.model() =~= sim_step(*params, before, e));
            return;
        }
        let ghost steps_before = self.steps;
        let ghost total_before = self.total;
        self.trade(side, mid, Ghost(k));
        assert(self.total * c + self.steps <= k + 1) by (nonlinear_arith)
            requires
                total_before * c + steps_before <= k + 1,
                steps_before >= c,
                self.total == total_before || (self.total == total_before + 1 && self.steps == 0),
                self.total == total_before ==> self.steps == steps_before,
                c >= 1,
        ;
        self.track(mid);
    }
}

/// The weight of one trade in the spacing bound: the cooldown, and at
/// least one.
pub open spec fn cooldown_weight(cooldown: usize) -> int {
    if cooldown == 0 { 1 } else { cooldown as int }
}

/// The result a replay of `events` under `params` reports: the final worth
/// of the account, valued at the last known mid price and held to `u128`,
/// less the starting cash and held to `i128`; the recorded round trips;
/// the largest drawdown as a fall over a peak; the winning and total trades.
pub open spec fn reports(r: ResearchResult, params: StrategyParams, events: Seq<MarketEvent>) -> bool {
    let m = sim_run(params, events);
    &&& r.params == params
    &&& r.net_pnl == clamp_i128(worth_at(m, m.last_mid) - RESEARCH_INITIAL_QUOTE)
    &&& r.trade_pnls@.map_values(|p: i128| p as int) == m.pnls
    &&& r.max_drawdown_fall == m.dd_fall
    &&& r.max_drawdown_peak == m.dd_peak
    &&& r.winning_trades == m.winning
    &&& r.total_trades == m.total
}

/// Replays all events under the given parameters and measures the outcome.
pub fn simulate_single(params: &StrategyParams, data: &Vec<MarketEvent>) -> (r: ResearchResult)
    ensures
        reports(r, *params, data@),
        0 < r.max_drawdown_peak,
        r.max_drawdown_fall <= r.max_drawdown_peak,
        r.winning_trades <= r.total_trades,
        r.total_trades * cooldown_weight(params.cooldown_steps) <= data@.len(),
{
    let ghost c = cooldown_weight(params.cooldown_steps);
    let mut replay = Replay::start();
    assert(replay.bounded(0, c));
    let mut i: usize = 0;
    while i < data.len()
        invariant
            i <= data@.len(),
            c == cooldown_weight(params.cooldown_steps),
            replay.model() == sim_run(*params, data@.take(i as int)),
            replay.bounded(i as int, c),
        decreases data@.len() - i,
    {
        let e = data[i];
        replay.step(params, e, Ghost(i as int));
        proof {
            assert(data@.take(i + 1).drop_last() =~= data@.take(i as int));
            assert(data@.take(i + 1).last() == e);
        }
        i = i + 1;
    }
    proof {
        assert(data@.take(data@.len() as int) =~= data@);
        assert(replay.total * c <= data@.len()) by (nonlinear_arith)
            requires
                replay.total * c + replay.steps <= data@.len(),
                replay.steps >= 0,
        ;
    }
    let last_mid = replay.last_mid;
    assert(replay.base * last_mid >= 0) by (nonlinear_arith);
    let worth: u128 = match replay.base.checked_mul(last_mid) {
        None => u128::MAX,
        Some(held) => replay.quote.saturating_add(held),
    };
    let net_pnl: i128 = if worth >= RESEARCH_INITIAL_QUOTE {
        let gain = worth - RESEARCH_INITIAL_QUOTE;
        if gain > i128::MAX as u128 { i128::MAX } else { gain as i128 }
    } else {
        -((RESEARCH_INITIAL_QUOTE - worth) as i128)
    };
    ResearchResult {
        params: *params,
        net_pnl,
        trade_pnls: replay.pnls,
        max_drawdown_fall: replay.dd_fall,
        max_drawdown_peak: replay.dd_peak,
        winning_trades: replay.winning,
        total_trades: replay.total,
    }
}

/// Searches strategy parameters over historical data.
pub struct ResearchAgent;

/// Results from fewer trades than this are left out of the ranking.
pub const MIN_TRADES: usize = 10;

/// Number of imbalance thresholds in the grid: 0.10 to 0.90 by 0.05.
pub const GRID_THRESHOLDS: usize = 17;

/// Number of cooldowns in the grid: 10 to 200 by 10.
pub const GRID_COOLDOWNS: usize = 20;

/// Number of profit targets in the grid: 2 to 20 by 2.
pub const GRID_TARGETS: usize = 10;

/// The grid point for threshold index `a`, cooldown index `b` and target
/// index `c`.
pub open spec fn grid_point(a: int, b: int, c: int) -> StrategyParams {
    StrategyParams {
        obi_threshold: ((10 + 5 * a) * 10_000) as i64,
        cooldown_steps: (10 + 10 * b) as usize,
        target_profit_bps: (2 + 2 * c) as u64,
    }
}

/// The grid position of the parameters at threshold index `a`, cooldown
/// index `b` and target index `c`: thresholds outermost, targets innermost.
pub open spec fn grid_index(a: int, b: int, c: int) -> int {
    (a * 20 + b) * 10 + c
}

/// Every combination of threshold, cooldown and profit target searched.
pub fn parameter_grid() -> (g: Vec<StrategyParams>)
    ensures
        g@.len() == GRID_THRESHOLDS * GRID_COOLDOWNS * GRID_TARGETS,
        forall|a: int, b: int, c: int| 0 <= a < 17 && 0 <= b < 20 && 0 <= c < 10
            ==> #[trigger] g@[grid_index(a, b, c)] == grid_point(a, b, c),
{
    let mut g: Vec<StrategyParams> = Vec::new();
    let mut a: usize = 0;
    while a < GRID_THRESHOLDS
        invariant
            a <= 17,
            g@.len() == a * 200,
            forall|x: int, y: int, z: int| 0 <= x < a && 0 <= y < 20 && 0 <= z < 10
                ==> #[trigger] g@[grid_index(x, y, z)] == grid_point(x, y, z),
        decreases 17 - a,
    {
        let mut b: usize = 0;
        while b < GRID_COOLDOWNS
            invariant
                a < 17,
                b <= 20,
                g@.len() == a * 200 + b * 10,
                forall|x: int, y: int, z: int| 0 <= x < a && 0 <= y < 20 && 0 <= z < 10
                    ==> #[trigger] g@[grid_index(x, y, z)] == grid_point(x, y, z),
                forall|y: int, z: int| 0 <= y < b && 0 <= z < 10
                    ==> #[trigger] g@[grid_index(a as int, y, z)] == grid_point(a as int, y, z),
            decreases 20 - b,
        {
            let mut c: usize = 0;
            while c < GRID_TARGETS
                invariant
                    a < 17,
                    b < 20,
                    c <= 10,
                    g@.len() == a * 200 + b * 10 + c,
                    forall|x: int, y: int, z: int| 0 <= x < a && 0 <= y < 20 && 0 <= z < 10
                        ==> #[trigger] g@[grid_index(x, y, z)] == grid_point(x, y, z),
                    forall|y: int, z: int| 0 <= y < b && 0 <= z < 10
                        ==> #[trigger] g@[grid_index(a as int, y, z)] == grid_point(a as int, y, z),
                    forall|z: int| 0 <= z < c ==> #[trigger] g@[grid_index(a as int, b as int, z)] == grid_point(a as int, b as int, z),
                decreases 10 - c,
            {
                let p = StrategyParams {
                    obi_threshold: ((10 + 5 * a) * 10_000) as i64,
                    cooldown_steps: 10 + 10 * b,
                    target_profit_bps: (2 + 2 * c) as u64,
                };
                g.push(p);
                c = c + 1;
            }
            b = b + 1;
        }
        a = a + 1;
    }
    g
}

/// The results kept for ranking: those with at least [`MIN_TRADES`] trades.
pub open spec fn ranked(r: ResearchResult) -> bool {
    r.total_trades >= MIN_TRADES
}

/// The results of `s` kept for ranking, in their order in `s`.
pub open spec fn ranked_results(s: Seq<ResearchResult>) -> Seq<ResearchResult> {
    s.filter(|x: ResearchResult| ranked(x))
}

/// `r` lists the results of `f` rearranged by `pos` (`r[i]` is `f[pos[i]]`,
/// each position used once), by net profit from highest to lowest, with
/// results of equal profit in their order in `f`.
pub open spec fn stably_ranked(r: Seq<ResearchResult>, f: Seq<ResearchResult>, pos: Seq<int>) -> bool {
    &&& r.len() == f.len()
    &&& pos.len() == r.len()
    &&& forall|i: int| 0 <= i < r.len() ==> 0 <= #[trigger] pos[i] < f.len() && r[i] == f[pos[i]]
    &&& forall|i: int, j: int| 0 <= i < j < r.len() ==> pos[i] != pos[j]
    &&& forall|i: int, j: int| 0 <= i < j < r.len() ==> r[i].net_pnl >= r[j].net_pnl
    &&& forall|i: int, j: int| 0 <= i < j < r.len() && r[i].net_pnl == r[j].net_pnl ==> pos[i] < pos[j]
}

/// Keeps the results with enough trades and orders them by net profit,
/// highest first; results of equal profit keep their order.
pub fn select_results(results: Vec<ResearchResult>) -> (r: Vec<ResearchResult>)
    ensures
        r@.to_multiset() == ranked_results(results@).to_multiset(),
        exists|pos: Seq<int>| #[trigger] stably_ranked(r@, ranked_results(results@), pos),
{
    broadcast use vstd::seq_lib::group_to_multiset_ensures;
    let ghost all = results@;
    let ghost keep = |x: ResearchResult| ranked(x);
    let count: usize = results.len();
    let mut input = results;
    let mut sorted: Vec<ResearchResult> = Vec::new();
    let ghost mut pos: Seq<int> = Seq::empty();
    let mut done: usize = 0;
    while input.len() > 0
        invariant
            keep == (|x: ResearchResult| ranked(x)),
            done + input@.len() == all.len(),
            count == all.len(),
            input@ == all.skip(done as int),
            sorted@.to_multiset() == all.take(done as int).filter(keep).to_multiset(),
            stably_ranked(sorted@, all.take(done as int).filter(keep), pos),
        decreases input@.len(),
    {
        let ghost prev = sorted@;
        let ghost f = all.take(done as int).filter(keep);
        let x = input.remove(0);
        proof {
            assert(all.take(done + 1).drop_last() =~= all.take(done as int));
            assert(all.take(done + 1).last() == x);
            reveal(Seq::filter);
        }
        if x.total_trades >= MIN_TRADES {
            let mut j: usize = 0;
            while j < sorted.len() && sorted[j].net_pnl >= x.net_pnl
                invariant
                    sorted@ == prev,
                    j <= sorted@.len(),
                    forall|i: int| 0 <= i < j ==> sorted@[i].net_pnl >= x.net_pnl,
                decreases sorted@.len() - j,
            {
                j = j + 1;
            }
            sorted.insert(j, x);
            proof {
                let f2 = f.push(x);
                assert(keep(x));
                assert(all.take(done + 1).filter(keep) == f2);
                vstd::seq_lib::to_multiset_insert(prev, j as int, x);
                vstd::seq_lib::to_multiset_build(f, x);
                let old_pos = pos;
                pos = old_pos.insert(j as int, f.len() as int);
                assert forall|i: int| 0 <= i < sorted@.len() implies 0 <= #[trigger] pos[i] < f2.len() && sorted@[i] == f2[pos[i]] by {
                    if i < j {
                        assert(pos[i] == old_pos[i]);
                    } else if i > j {
                        assert(pos[i] == old_pos[i - 1]);
                    }
                }
                assert forall|a: int, b: int| 0 <= a < b < sorted@.len() implies pos[a] != pos[b] by {
                    if b < j {
                    } else if a < j && b == j {
                        assert(old_pos[a] < f.len());
                    } else if a < j {
                        assert(old_pos[a] != old_pos[b - 1]);
                    } else if a == j {
                        assert(old_pos[b - 1] < f.len());
                    } else {
                        assert(old_pos[a - 1] != old_pos[b - 1]);
                    }
                }
                assert forall|a: int, b: int| 0 <= a < b < sorted@.len() implies sorted@[a].net_pnl >= sorted@[b].net_pnl by {
                    if b < j {
                    } else if a < j && b == j {
                    } else if a < j {
                        assert(prev[a].net_pnl >= prev[b - 1].net_pnl || a == b - 1);
                    } else if a == j {
                        assert(prev[j as int].net_pnl < x.net_pnl);
                        if b - 1 > j {
                            assert(prev[j as int].net_pnl >= prev[b - 1].net_pnl);
                        }
                    } else {
                        assert(prev[a - 1].net_pnl >= prev[b - 1].net_pnl);
                    }
                }
                assert forall|a: int, b: int| 0 <= a < b < sorted@.len() && sorted@[a].net_pnl == sorted@[b].net_pnl implies pos[a] < pos[b] by {
                    if b < j {
                    } else if a < j && b == j {
                        assert(old_pos[a] < f.len());
                    } else if a < j {
                        if a == b - 1 {
                        } else {
                            assert(prev[a].net_pnl >= prev[b - 1].net_pnl);
                        }
                    } else if a == j {
                        assert(prev[j as int].net_pnl < x.net_pnl);
                        if b - 1 > j {
                            assert(prev[j as int].net_pnl >= prev[b - 1].net_pnl);
                        }
                    } else {
                        assert(old_pos[a - 1] < old_pos[b - 1]);
                    }
                }
                assert(stably_ranked(sorted@, f2, pos));
            }
        } else {
            proof {
                assert(!keep(x));
                assert(all.take(done + 1).filter(keep) == f);
            }
        }
        proof {
            assert(input@ =~= all.skip(done + 1));
        }
        done = done + 1;
    }
    proof {
        assert(all.take(all.len() as int) =~= all);
        assert(stably_ranked(sorted@, ranked_results(all), pos));
    }
    sorted
}

/// Number of events kept when keeping every `rate`-th of `len` events.
pub open spec fn sample_count(len: int, rate: int) -> int {
    len / rate + if len % rate != 0 { 1int } else { 0int }
}

/// Every `rate`-th event starting with the first, or all events when the
/// rate is at most one.
pub open spec fn sampled(data: Seq<MarketEvent>, rate: usize) -> Seq<MarketEvent> {
    if rate <= 1 {
        data
    } else {
        Seq::new(sample_count(data.len() as int, rate as int) as nat, |i: int| data[i * rate])
    }
}

/// Keeps every `rate`-th event, starting with the first.
pub fn sample_events(data: Vec<MarketEvent>, rate: usize) -> (r: Vec<MarketEvent>)
    ensures
        r@ == sampled(data@, rate),
{
    if rate <= 1 {
        return data;
    }
    let len = data.len();
    proof {
        vstd::arithmetic::div_mod::lemma_div_is_ordered_by_denominator(len as int, 2, rate as int);
    }
    let count = len / rate + if len % rate != 0 { 1 } else { 0 };
    let mut out: Vec<MarketEvent> = Vec::new();
    let mut k: usize = 0;
    while k < count
        invariant
            rate > 1,
            len == data@.len(),
            count == sample_count(len as int, rate as int),
            k <= count,
            out@.len() == k,
            forall|j: int| 0 <= j < k ==> out@[j] == data@[j * rate],
        decreases count - k,
    {
        proof {
            vstd::arithmetic::div_mod::lemma_fundamental_div_mod(len as int, rate as int);
            assert(len == rate * (len / rate) + len % rate);
            assert(k * rate < len) by (nonlinear_arith)
                requires
                    len == rate * (len / rate) + len % rate,
                    0 <= len % rate < rate,
                    k < sample_count(len as int, rate as int),
                    rate > 0,
            ;
        }
        out.push(data[k * rate]);
        k = k + 1;
    }
    assert(out@ =~= sampled(data@, rate));
    out
}

} // verus!