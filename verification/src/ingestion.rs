//! Market-data sources turned into book updates: a random mock feed and
//! historical trades.
use rand::Rng;
use rand::rngs::StdRng;
use vstd::prelude::*;
use crate::common::{Level, OrderBookUpdate};
use crate::decimal::{fixed_or_zero, integer_or_zero, is_true_text, parse_fixed, parse_u64, reads_true};
use crate::research::MarketEvent;

verus! {

#[verifier::external_type_specification]
#[verifier::external_body]
pub struct ExStdRng(StdRng);

/// `rand::Rng::gen_range` on a half-open range of `i64`: a value drawn from
/// `low..high`. The crate panics on an empty range, which `requires` rules
/// out; which value comes back depends on the generator's state.
#[verifier::external_body]
fn draw_i64(rng: &mut StdRng, low: i64, high: i64) -> (r: i64)
    requires
        low < high,
    ensures
        low <= r < high,
{
    rng.gen_range(low..high)
}

/// Starting price of the mock feed: 50000.00.
pub const MOCK_START_PRICE: u64 = 5_000_000_000_000;

/// The mock price moves by less than 10.00 per update, either way.
pub const MOCK_MAX_STEP: i64 = 1_000_000_000;

/// Distance between consecutive mock levels: 0.50.
pub const MOCK_LEVEL_GAP: u64 = 50_000_000;

/// Levels per side in a mock snapshot.
pub const MOCK_LEVELS: u64 = 5;

/// Mock volumes are drawn from 1.0 (inclusive) to 10.0 (exclusive).
pub const MOCK_MIN_VOLUME: u64 = 100_000_000;

/// Upper end (exclusive) of mock volumes.
pub const MOCK_MAX_VOLUME: u64 = 1_000_000_000;

/// Offset, in ticks, of a historical trade's opposite level: 0.01.
pub const TRADE_SPREAD_TICKS: u64 = 1_000_000;

/// `x` held to the range of a `u64`.
pub open spec fn clamp_u64(x: int) -> u64 {
    if x < 0 {
        0
    } else if x > u64::MAX {
        u64::MAX
    } else {
        x as u64
    }
}

/// A mock snapshot around `price`: five bids below it and five asks above
/// it, 0.50 apart starting 0.50 away (prices held to the `u64` range),
/// volumes within the mock range, at time zero.
pub open spec fn is_mock_snapshot(u: OrderBookUpdate, price: u64) -> bool {
    match u {
        OrderBookUpdate::Snapshot { bids, asks, timestamp } => {
            &&& timestamp == 0
            &&& bids@.len() == MOCK_LEVELS
            &&& asks@.len() == MOCK_LEVELS
            &&& forall|i: int| 0 <= i < MOCK_LEVELS ==> {
                &&& #[trigger] bids@[i].price == clamp_u64(price - (i + 1) * MOCK_LEVEL_GAP)
                &&& MOCK_MIN_VOLUME <= bids@[i].volume < MOCK_MAX_VOLUME
            }
            &&& forall|i: int| 0 <= i < MOCK_LEVELS ==> {
                &&& #[trigger] asks@[i].price == clamp_u64(price + (i + 1) * MOCK_LEVEL_GAP)
                &&& MOCK_MIN_VOLUME <= asks@[i].volume < MOCK_MAX_VOLUME
            }
        },
        _ => false,
    }
}

/// A random feed of snapshots around a randomly walking price.
pub struct MockIngestor {
    pub rng: StdRng,
    pub current_price: u64,
    /// Every value drawn from the generator so far, in order.
    pub draws: Ghost<Seq<i64>>,
}

impl MockIngestor {
    /// A feed drawing from `rng`, starting at the mock start price.
    pub fn new(rng: StdRng) -> (r: Self)
        ensures
            r.current_price == MOCK_START_PRICE,
            r.draws@ == Seq::<i64>::empty(),
    {
        MockIngestor { rng, current_price: MOCK_START_PRICE, draws: Ghost(Seq::empty()) }
    }

    /// Draws a value from `low..high` and records it.
    fn draw(&mut self, low: i64, high: i64) -> (r: i64)
        requires
            low < high,
        ensures
            low <= r < high,
            final(self).draws@ == old(self).draws@.push(r),
            final(self).current_price == old(self).current_price,
    {
        let r = draw_i64(&mut self.rng, low, high);
        self.draws = Ghost(self.draws@.push(r));
        r
    }

    /// Moves the price by a random step and returns a snapshot around the
    /// new price with random volumes: the step is drawn first, then the bid
    /// and the ask volume of each level in turn, nearest level first.
    /// Each of these eleven values is a draw of its own, recorded in
    /// `draws` in that order.
    pub fn next_update(&mut self) -> (u: OrderBookUpdate)
        ensures
            exists|step: int| #![trigger clamp_u64(old(self).current_price + step)]
                -MOCK_MAX_STEP <= step < MOCK_MAX_STEP
                && final(self).current_price == clamp_u64(old(self).current_price + step),
            is_mock_snapshot(u, final(self).current_price),
            ({
                let n = old(self).draws@.len();
                let d = final(self).draws@;
                &&& d.len() == n + 1 + 2 * MOCK_LEVELS
                &&& d.take(n as int) == old(self).draws@
                &&& final(self).current_price == clamp_u64(old(self).current_price + d[n as int])
                &&& u matches OrderBookUpdate::Snapshot { bids, asks, .. }
                    && (forall|i: int| 0 <= i < MOCK_LEVELS ==> #[trigger] bids@[i].volume == d[n + 1 + 2 * i])
                    && (forall|i: int| 0 <= i < MOCK_LEVELS ==> #[trigger] asks@[i].volume == d[n + 2 + 2 * i])
            }),
    {
        let ghost start = self.draws@;
        let change = self.draw(-MOCK_MAX_STEP, MOCK_MAX_STEP);
        let price = moved_price(self.current_price, change);
        self.current_price = price;
        let mut bid_volumes: Vec<u64> = Vec::new();
        let mut ask_volumes: Vec<u64> = Vec::new();
        let mut i: u64 = 0;
        while i < MOCK_LEVELS
            invariant
                self.current_price == price,
                i <= MOCK_LEVELS,
                self.draws@.len() == start.len() + 1 + 2 * i,
                self.draws@.take(start.len() as int) == start,
                self.draws@[start.len() as int] == change,
                forall|j: int| 0 <= j < i ==> #[trigger] bid_volumes@[j] == self.draws@[start.len() + 1 + 2 * j],
                forall|j: int| 0 <= j < i ==> #[trigger] ask_volumes@[j] == self.draws@[start.len() + 2 + 2 * j],
                bid_volumes@.len() == i,
                ask_volumes@.len() == i,
                forall|j: int| 0 <= j < i ==> MOCK_MIN_VOLUME <= #[trigger] bid_volumes@[j] < MOCK_MAX_VOLUME,
                forall|j: int| 0 <= j < i ==> MOCK_MIN_VOLUME <= #[trigger] ask_volumes@[j] < MOCK_MAX_VOLUME,
            decreases MOCK_LEVELS - i,
        {
            let bid_volume = self.draw(MOCK_MIN_VOLUME as i64, MOCK_MAX_VOLUME as i64) as u64;
            let ask_volume = self.draw(MOCK_MIN_VOLUME as i64, MOCK_MAX_VOLUME as i64) as u64;
            bid_volumes.push(bid_volume);
            ask_volumes.push(ask_volume);
            i = i + 1;
        }
        let u = mock_snapshot(price, &bid_volumes, &ask_volumes);
        proof {
            assert(-MOCK_MAX_STEP <= change < MOCK_MAX_STEP && price == clamp_u64(old(self).current_price + change));
            if let OrderBookUpdate::Snapshot { bids, asks, timestamp } = &u {
                assert forall|j: int| 0 <= j < MOCK_LEVELS implies {
                    &&& #[trigger] bids@[j].price == clamp_u64(price - (j + 1) * MOCK_LEVEL_GAP)
                    &&& MOCK_MIN_VOLUME <= bids@[j].volume < MOCK_MAX_VOLUME
                } by {
                    assert(bids@[j] == mock_level(price, j, bid_volumes@[j], true));
                }
                assert forall|j: int| 0 <= j < MOCK_LEVELS implies {
                    &&& #[trigger] asks@[j].price == clamp_u64(price + (j + 1) * MOCK_LEVEL_GAP)
                    &&& MOCK_MIN_VOLUME <= asks@[j].volume < MOCK_MAX_VOLUME
                } by {
                    assert(asks@[j] == mock_level(price, j, ask_volumes@[j], false));
                }
                assert forall|j: int| 0 <= j < MOCK_LEVELS implies #[trigger] bids@[j].volume == self.draws@[start.len() + 1 + 2 * j] by {
                    assert(bids@[j] == mock_level(price, j, bid_volumes@[j], true));
                }
                assert forall|j: int| 0 <= j < MOCK_LEVELS implies #[trigger] asks@[j].volume == self.draws@[start.len() + 2 + 2 * j] by {
                    assert(asks@[j] == mock_level(price, j, ask_volumes@[j], false));
                }
            }
        }
        u
    }
}

/// The mock price after a step of `change` ticks, held to the `u64` range.
pub fn moved_price(price: u64, change: i64) -> (r: u64)
    ensures
        r == clamp_u64(price + change),
{
    if change < 0 {
        let down = (-(change as i128)) as u64;
        if price >= down { price - down } else { 0 }
    } else {
        price.saturating_add(change as u64)
    }
}

/// Level `i` (from 0, nearest first) of a mock snapshot around `price`: a
/// bid `(i + 1) * 0.50` below the price or an ask as far above it (held to
/// the `u64` range), with the given volume.
pub open spec fn mock_level(price: u64, i: int, volume: u64, bid: bool) -> Level {
    Level {
        price: if bid {
            clamp_u64(price - (i + 1) * MOCK_LEVEL_GAP)
        } else {
            clamp_u64(price + (i + 1) * MOCK_LEVEL_GAP)
        },
        volume,
    }
}

/// The mock snapshot around `price` whose levels carry the given volumes,
/// nearest level first, at time zero.
pub fn mock_snapshot(price: u64, bid_volumes: &Vec<u64>, ask_volumes: &Vec<u64>) -> (u: OrderBookUpdate)
    requires
        bid_volumes@.len() == MOCK_LEVELS,
        ask_volumes@.len() == MOCK_LEVELS,
    ensures
        u matches OrderBookUpdate::Snapshot { bids, asks, timestamp }
            && timestamp == 0
            && bids@.len() == MOCK_LEVELS
            && asks@.len() == MOCK_LEVELS
            && (forall|i: int| 0 <= i < MOCK_LEVELS ==> #[trigger] bids@[i] == mock_level(price, i, bid_volumes@[i], true))
            && (forall|i: int| 0 <= i < MOCK_LEVELS ==> #[trigger] asks@[i] == mock_level(price, i, ask_volumes@[i], false)),
{
    let mut bids: Vec<Level> = Vec::new();
    let mut asks: Vec<Level> = Vec::new();
    let mut i: u64 = 0;
    while i < MOCK_LEVELS
        invariant
            i <= MOCK_LEVELS,
            bid_volumes@.len() == MOCK_LEVELS,
            ask_volumes@.len() == MOCK_LEVELS,
            bids@.len() == i,
            asks@.len() == i,
            forall|j: int| 0 <= j < i ==> #[trigger] bids@[j] == mock_level(price, j, bid_volumes@[j], true),
            forall|j: int| 0 <= j < i ==> #[trigger] asks@[j] == mock_level(price, j, ask_volumes@[j], false),
        decreases MOCK_LEVELS - i,
    {
        let offset = (i + 1) * MOCK_LEVEL_GAP;
        bids.push(Level { price: price.saturating_sub(offset), volume: bid_volumes[i as usize] });
        asks.push(Level { price: price.saturating_add(offset), volume: ask_volumes[i as usize] });
        i = i + 1;
    }
    OrderBookUpdate::Snapshot { bids, asks, timestamp: 0 }
}

/// The snapshot that a historical trade stands for. A sell puts the trade's
/// volume on the ask at its price and a tenth of it (rounded down) on a bid
/// one tick below; a buy puts the volume on the bid and a tenth on an ask
/// one tick above. Prices are held to the `u64` range.
pub open spec fn trade_update(price: u64, qty: u64, timestamp: u64, is_sell: bool) -> (Level, Level) {
    if is_sell {
        (Level { price: clamp_u64(price - TRADE_SPREAD_TICKS), volume: qty / 10 }, Level { price, volume: qty })
    } else {
        (Level { price, volume: qty }, Level { price: clamp_u64(price + TRADE_SPREAD_TICKS), volume: qty / 10 })
    }
}

/// Decimal places of prices in trade records: a tick is 1e-8.
pub const PRICE_DECIMALS: u32 = 8;

/// Decimal places of quantities in trade records: a lot is 1e-8.
pub const VOLUME_DECIMALS: u32 = 8;

/// Replays historical trades as book updates.
pub struct HistoricalIngestor;

impl HistoricalIngestor {
    /// Reads an aggregated-trade record: the price from the second field,
    /// the quantity from the third, the time from the sixth, and whether the
    /// buyer was the maker (the trade a sell) from the seventh. A field that
    /// does not read as a number counts as zero.
    pub fn parse_trade_record(fields: &Vec<String>) -> (e: MarketEvent)
        requires
            fields@.len() >= 7,
        ensures
            e.price == fixed_or_zero(fields@[1]@, PRICE_DECIMALS as nat),
            e.qty == fixed_or_zero(fields@[2]@, VOLUME_DECIMALS as nat),
            e.timestamp == integer_or_zero(fields@[5]@),
            e.is_sell == reads_true(fields@[6]@),
    {
        let price = match parse_fixed(fields[1].as_str(), PRICE_DECIMALS) {
            Some(p) => p,
            None => 0,
        };
        let qty = match parse_fixed(fields[2].as_str(), VOLUME_DECIMALS) {
            Some(q) => q,
            None => 0,
        };
        let timestamp = match parse_u64(fields[5].as_str()) {
            Some(t) => t,
            None => 0,
        };
        let is_sell = is_true_text(fields[6].as_str());
        MarketEvent { price, qty, timestamp, is_sell }
    }

    /// The one-level snapshot standing for a trade at `price` ticks of `qty`
    /// lots: the pair of [`trade_update`] as the single bid and single ask.
    pub fn trade_snapshot(price: u64, qty: u64, timestamp: u64, is_sell: bool) -> (u: OrderBookUpdate)
        ensures
            u matches OrderBookUpdate::Snapshot { bids, asks, timestamp: t }
                && t == timestamp
                && bids@ == seq![trade_update(price, qty, timestamp, is_sell).0]
                && asks@ == seq![trade_update(price, qty, timestamp, is_sell).1],
    {
        let mut bids: Vec<Level> = Vec::new();
        let mut asks: Vec<Level> = Vec::new();
        if is_sell {
            asks.push(Level { price, volume: qty });
            bids.push(Level { price: price.saturating_sub(TRADE_SPREAD_TICKS), volume: qty / 10 });
        } else {
            bids.push(Level { price, volume: qty });
            asks.push(Level { price: price.saturating_add(TRADE_SPREAD_TICKS), volume: qty / 10 });
        }
        OrderBookUpdate::Snapshot { bids, asks, timestamp }
    }
}

} // verus!
