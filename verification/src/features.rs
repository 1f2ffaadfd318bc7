//! Book features: order-book imbalance at the top level and over five
//! levels, the microprice and the mid price.
use vstd::prelude::*;
use crate::common::Level;
use crate::orderbook::{OrderBook, highest_levels, lowest_levels, lists_highest, lists_lowest};

verus! {

/// Number of levels on each side that the deep imbalance looks at.
pub const DEPTH_LEVELS: usize = 5;

/// Total volume of a list of levels.
pub open spec fn volume_sum(levels: Seq<Level>) -> int
    decreases levels.len(),
{
    if levels.len() == 0 {
        0
    } else {
        volume_sum(levels.drop_last()) + levels.last().volume
    }
}

/// An exact fraction `num / den`.
#[derive(Debug, Clone, Copy, PartialEq, Eq, Structural)]
pub struct Ratio {
    pub num: i128,
    pub den: u128,
}

/// A price of `whole + rem / den` ticks, with `rem < den`.
#[derive(Debug, Clone, Copy, PartialEq, Eq, Structural)]
pub struct PriceFraction {
    pub whole: u64,
    pub rem: u128,
    pub den: u128,
}

/// Largest total volume an imbalance is formed from: twice the volume of
/// five full levels fits below it.
pub open spec fn volume_bound() -> int {
    0x10_0000_0000_0000_0000
}

/// Whether `r` is an imbalance: a positive denominator bounded by
/// [`volume_bound`] and a numerator no larger than it in absolute value,
/// so that the value lies between minus one and one.
pub open spec fn is_imbalance(r: Ratio) -> bool {
    &&& 0 < r.den <= volume_bound()
    &&& -(r.den as int) <= r.num <= r.den
}

/// The imbalance `(bid - ask) / (bid + ask)` as an exact fraction, and
/// `0 / 1` when there is no volume at all.
pub open spec fn imbalance(bid: int, ask: int) -> Ratio {
    if bid + ask <= 0 {
        Ratio { num: 0, den: 1 }
    } else {
        Ratio { num: (bid - ask) as i128, den: (bid + ask) as u128 }
    }
}

/// The volume-weighted price `(ask_price * bid_volume + bid_price *
/// ask_volume) / (bid_volume + ask_volume)` as a whole number of ticks and
/// a remainder over the total volume, and zero when the two levels hold no
/// volume.
pub open spec fn microprice_of(bid: Level, ask: Level) -> PriceFraction {
    let t = bid.volume + ask.volume;
    let n = ask.price * bid.volume + bid.price * ask.volume;
    if t == 0 {
        PriceFraction { whole: 0, rem: 0, den: 1 }
    } else {
        PriceFraction { whole: (n / t) as u64, rem: (n % t) as u128, den: t as u128 }
    }
}

/// The mid price `(bid + ask) / 2` in half ticks, that is `bid + ask`.
pub open spec fn mid_of(bid: Level, ask: Level) -> int {
    bid.price + ask.price
}

/// Features computed from one state of the book.
#[derive(Debug, Clone, Copy, PartialEq, Eq, Structural)]
pub struct Features {
    /// Imbalance of the best bid and best ask volumes.
    pub obi_top_1: Ratio,
    /// Imbalance of the volumes of the five best levels on each side.
    pub obi_top_5: Ratio,
    /// Volume-weighted price of the best bid and ask.
    pub microprice: PriceFraction,
    /// Mid price of the best bid and ask, in half ticks.
    pub mid_price: u128,
    pub timestamp: u64,
}

impl Default for Features {
    fn default() -> (f: Self)
        ensures
            f.obi_top_1 == (Ratio { num: 0, den: 1 }),
            f.obi_top_5 == (Ratio { num: 0, den: 1 }),
            f.microprice == (PriceFraction { whole: 0, rem: 0, den: 1 }),
            f.mid_price == 0,
            f.timestamp == 0,
    {
        Features {
            obi_top_1: Ratio { num: 0, den: 1 },
            obi_top_5: Ratio { num: 0, den: 1 },
            microprice: PriceFraction { whole: 0, rem: 0, den: 1 },
            mid_price: 0,
            timestamp: 0,
        }
    }
}

/// What [`calculate_features`] computes from the two sides of a book.
pub open spec fn features_of(bids: Map<u64, u64>, asks: Map<u64, u64>, timestamp: u64) -> Features {
    let top_bids = highest_levels(bids, 5);
    let top_asks = lowest_levels(asks, 5);
    let deep = imbalance(volume_sum(top_bids), volume_sum(top_asks));
    if top_bids.len() > 0 && top_asks.len() > 0 {
        Features {
            obi_top_1: imbalance(top_bids[0].volume as int, top_asks[0].volume as int),
            obi_top_5: deep,
            microprice: microprice_of(top_bids[0], top_asks[0]),
            mid_price: mid_of(top_bids[0], top_asks[0]) as u128,
            timestamp,
        }
    } else {
        Features {
            obi_top_1: Ratio { num: 0, den: 1 },
            obi_top_5: deep,
            microprice: PriceFraction { whole: 0, rem: 0, den: 1 },
            mid_price: 0,
            timestamp,
        }
    }
}

/// The imbalance of two volumes.
fn imbalance_ratio(bid: u128, ask: u128) -> (r: Ratio)
    requires
        bid <= 0x8_0000_0000_0000_0000,
        ask <= 0x8_0000_0000_0000_0000,
    ensures
        r == imbalance(bid as int, ask as int),
        is_imbalance(r),
{
    let total = bid + ask;
    if total == 0 {
        Ratio { num: 0, den: 1 }
    } else {
        Ratio { num: bid as i128 - ask as i128, den: total }
    }
}

/// For a weighted average of two prices `lo <= hi`: the floor of
/// `(hi * w_lo + lo * w_hi) / (w_lo + w_hi)` is `lo + floor((hi - lo) * w_lo / total)`.
proof fn lemma_weighted_floor(lo: int, hi: int, w_lo: int, w_hi: int)
    requires
        0 <= lo <= hi,
        0 <= w_lo,
        0 <= w_hi,
        w_lo + w_hi > 0,
    ensures
        (hi * w_lo + lo * w_hi) / (w_lo + w_hi) == lo + (hi - lo) * w_lo / (w_lo + w_hi),
        (hi - lo) * w_lo / (w_lo + w_hi) <= hi - lo,
{
    let t = w_lo + w_hi;
    assert(hi * w_lo + lo * w_hi == (hi - lo) * w_lo + lo * t) by (nonlinear_arith)
        requires
            t == w_lo + w_hi,
    ;
    vstd::arithmetic::div_mod::lemma_hoist_over_denominator((hi - lo) * w_lo, lo, t as nat);
    assert((hi - lo) * w_lo <= (hi - lo) * t) by (nonlinear_arith)
        requires
            0 <= hi - lo,
            w_lo <= t,
    ;
    vstd::arithmetic::div_mod::lemma_div_is_ordered((hi - lo) * w_lo, (hi - lo) * t, t);
    vstd::arithmetic::div_mod::lemma_div_by_multiple(hi - lo, t);
}

/// The remainder of the same weighted average over the total weight is
/// that of `(hi - lo) * w_lo`.
proof fn lemma_weighted_rem(lo: int, hi: int, w_lo: int, w_hi: int)
    requires
        0 <= lo <= hi,
        0 <= w_lo,
        0 <= w_hi,
        w_lo + w_hi > 0,
    ensures
        (hi * w_lo + lo * w_hi) % (w_lo + w_hi) == (hi - lo) * w_lo % (w_lo + w_hi),
{
    let t = w_lo + w_hi;
    assert(hi * w_lo + lo * w_hi == t * lo + (hi - lo) * w_lo) by (nonlinear_arith)
        requires
            t == w_lo + w_hi,
    ;
    vstd::arithmetic::div_mod::lemma_mod_multiples_vanish(lo, (hi - lo) * w_lo, t);
}

/// The microprice of the best bid and best ask.
fn microprice(bid: Level, ask: Level) -> (r: PriceFraction)
    requires
        bid.volume + ask.volume > 0,
    ensures
        r == microprice_of(bid, ask),
{
    let total = bid.volume as u128 + ask.volume as u128;
    if ask.price >= bid.price {
        let d = (ask.price - bid.price) as u128;
        proof {
            lemma_weighted_floor(bid.price as int, ask.price as int, bid.volume as int, ask.volume as int);
        }
        assert(d * (bid.volume as u128) <= 0xffff_ffff_ffff_ffff * 0xffff_ffff_ffff_ffff) by (nonlinear_arith)
            requires
                d <= 0xffff_ffff_ffff_ffff,
                bid.volume <= 0xffff_ffff_ffff_ffff,
        ;
        let w = d * (bid.volume as u128);
        let q = w / total;
        let rem = w % total;
        proof {
            lemma_weighted_rem(bid.price as int, ask.price as int, bid.volume as int, ask.volume as int);
        }
        PriceFraction { whole: bid.price + q as u64, rem, den: total }
    } else {
        let d = (bid.price - ask.price) as u128;
        proof {
            lemma_weighted_floor(ask.price as int, bid.price as int, ask.volume as int, bid.volume as int);
            lemma_weighted_rem(ask.price as int, bid.price as int, ask.volume as int, bid.volume as int);
            assert(ask.price * bid.volume + bid.price * ask.volume == bid.price * ask.volume + ask.price * bid.volume);
            assert(ask.volume + bid.volume == bid.volume + ask.volume);
        }
        assert(d * (ask.volume as u128) <= 0xffff_ffff_ffff_ffff * 0xffff_ffff_ffff_ffff) by (nonlinear_arith)
            requires
                d <= 0xffff_ffff_ffff_ffff,
                ask.volume <= 0xffff_ffff_ffff_ffff,
        ;
        let w = d * (ask.volume as u128);
        let q = w / total;
        let rem = w % total;
        PriceFraction { whole: ask.price + q as u64, rem, den: total }
    }
}

/// The total volume of a list of levels.
fn sum_volumes(levels: &Vec<Level>) -> (s: u128)
    ensures
        s == volume_sum(levels@),
        s <= levels@.len() * 0xffff_ffff_ffff_ffff,
{
    let mut s: u128 = 0;
    let mut i: usize = 0;
    while i < levels.len()
        invariant
            i <= levels@.len(),
            s == volume_sum(levels@.take(i as int)),
            s <= i * 0xffff_ffff_ffff_ffff,
        decreases levels@.len() - i,
    {
        proof {
            assert(levels@.take(i + 1).drop_last() == levels@.take(i as int));
        }
        s = s + levels[i].volume as u128;
        i = i + 1;
    }
    proof {
        assert(levels@.take(levels@.len() as int) == levels@);
    }
    s
}

/// Computes the features of a book. The top-of-book features stay zero
/// unless both sides hold a level; the microprice also stays zero when the
/// best levels hold no volume.
pub fn calculate_features(book: &OrderBook) -> (f: Features)
    ensures
        f == features_of(book.bids@, book.asks@, book.timestamp),
        lists_highest(book.bids@, highest_levels(book.bids@, 5), 5),
        lists_lowest(book.asks@, lowest_levels(book.asks@, 5), 5),
{
    let mut features = Features::default();
    features.timestamp = book.timestamp;
    let top_bids = book.top_bids(DEPTH_LEVELS);
    let top_asks = book.top_asks(DEPTH_LEVELS);
    if top_bids.len() > 0 && top_asks.len() > 0 {
        let bid = top_bids[0];
        let ask = top_asks[0];
        features.obi_top_1 = imbalance_ratio(bid.volume as u128, ask.volume as u128);
        if bid.volume as u128 + ask.volume as u128 > 0 {
            features.microprice = microprice(bid, ask);
        }
        features.mid_price = bid.price as u128 + ask.price as u128;
    }
    let bids_5 = sum_volumes(&top_bids);
    let asks_5 = sum_volumes(&top_asks);
    features.obi_top_5 = imbalance_ratio(bids_5, asks_5);
    features
}

/// An imbalance of volumes within the bound is a well-formed fraction
/// between minus one and one, swapping the two sides negates it, and its
/// sign follows the larger side.
pub proof fn lemma_imbalance_range(bid: int, ask: int)
    requires
        0 <= bid <= 0x8_0000_0000_0000_0000,
        0 <= ask <= 0x8_0000_0000_0000_0000,
    ensures
        is_imbalance(imbalance(bid, ask)),
        imbalance(ask, bid).num == -imbalance(bid, ask).num,
        imbalance(ask, bid).den == imbalance(bid, ask).den,
        bid > ask ==> imbalance(bid, ask).num > 0,
        bid < ask ==> imbalance(bid, ask).num < 0,
        bid == ask ==> imbalance(bid, ask).num == 0,
{
}

/// The microprice lies between the best bid price and the best ask price.
pub proof fn lemma_microprice_between(bid: Level, ask: Level)
    requires
        bid.volume + ask.volume > 0,
    ensures
        ({
            let m = microprice_of(bid, ask);
            &&& m.rem < m.den
            &&& bid.price <= ask.price ==> bid.price * m.den <= m.whole * m.den + m.rem <= ask.price * m.den
            &&& ask.price < bid.price ==> ask.price * m.den <= m.whole * m.den + m.rem <= bid.price * m.den
        }),
{
    let t = bid.volume + ask.volume;
    let n = ask.price * bid.volume + bid.price * ask.volume;
    let (lo, hi, wl, wh) = if bid.price <= ask.price {
        (bid.price as int, ask.price as int, bid.volume as int, ask.volume as int)
    } else {
        (ask.price as int, bid.price as int, ask.volume as int, bid.volume as int)
    };
    assert(hi * wl + lo * wh == n && wl + wh == t) by (nonlinear_arith)
        requires
            (lo == bid.price && hi == ask.price && wl == bid.volume && wh == ask.volume)
                || (lo == ask.price && hi == bid.price && wl == ask.volume && wh == bid.volume),
            n == ask.price * bid.volume + bid.price * ask.volume,
            t == bid.volume + ask.volume,
    ;
    lemma_weighted_floor(lo, hi, wl, wh);
    lemma_weighted_rem(lo, hi, wl, wh);
    vstd::arithmetic::div_mod::lemma_mod_bound(n, t);
    let q = (hi - lo) * wl / t;
    let r = (hi - lo) * wl % t;
    assert(q >= 0) by (nonlinear_arith)
        requires
            hi >= lo,
            wl >= 0,
            t > 0,
            q == (hi - lo) * wl / t,
    ;
    if lo + q == hi {
        lemma_top_no_rem(lo, hi, wl, wh);
    }
    assert(lo * t <= (lo + q) * t + r <= hi * t) by (nonlinear_arith)
        requires
            q >= 0,
            lo + q <= hi,
            0 <= r < t,
            lo + q == hi ==> r == 0,
    ;
}

/// When the weighted average reaches the higher price, nothing remains.
proof fn lemma_top_no_rem(lo: int, hi: int, w_lo: int, w_hi: int)
    requires
        0 <= lo <= hi,
        0 <= w_lo,
        0 <= w_hi,
        w_lo + w_hi > 0,
        lo + (hi - lo) * w_lo / (w_lo + w_hi) == hi,
    ensures
        (hi - lo) * w_lo % (w_lo + w_hi) == 0,
{
    let t = w_lo + w_hi;
    let a = (hi - lo) * w_lo;
    vstd::arithmetic::div_mod::lemma_fundamental_div_mod(a, t);
    assert(a <= (hi - lo) * t) by (nonlinear_arith)
        requires
            a == (hi - lo) * w_lo,
            0 <= hi - lo,
            w_lo <= t,
    ;
    assert(a % t == 0) by (nonlinear_arith)
        requires
            a == t * (a / t) + a % t,
            a / t == hi - lo,
            a <= (hi - lo) * t,
            a % t >= 0,
    ;
}

/// The mid price, in half ticks, lies between twice the best bid price and
/// twice the best ask price.
pub proof fn lemma_mid_between(bid: Level, ask: Level)
    ensures
        bid.price <= ask.price ==> 2 * bid.price <= mid_of(bid, ask) <= 2 * ask.price,
        ask.price < bid.price ==> 2 * ask.price <= mid_of(bid, ask) <= 2 * bid.price,
{
}

} // verus!
