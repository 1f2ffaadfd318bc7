//! A two-sided limit order book keyed by integer price.
use std::collections::BTreeMap;
use vstd::prelude::*;
use crate::common::{Level, OrderBookUpdate};
use vstd::std_specs::iter::IteratorSpec;
use vstd::std_specs::cmp::OrdSpec;

verus! {

broadcast use vstd::std_specs::btree::group_btree_axioms;

/// The levels of a side listed by strictly increasing price, each with the
/// volume that the side holds at that price, covering every price of the side.
pub open spec fn lists_ascending(m: Map<u64, u64>, r: Seq<Level>) -> bool {
    &&& r.len() == m.dom().len()
    &&& forall|i: int| 0 <= i < r.len() ==> #[trigger] m.contains_key(r[i].price) && m[r[i].price] == r[i].volume
    &&& forall|i: int, j: int| 0 <= i < j < r.len() ==> r[i].price < r[j].price
    &&& forall|k: u64| #[trigger] m.contains_key(k) ==> exists|i: int| 0 <= i < r.len() && r[i].price == k
}

/// All levels of one side, by increasing price.
fn ascending_levels(m: &BTreeMap<u64, u64>) -> (r: Vec<Level>)
    ensures
        lists_ascending(m@, r@),
{
    broadcast use vstd::laws_cmp::group_laws_cmp;
    let mut out: Vec<Level> = Vec::new();
    let iter = m.iter();
    let ghost entries = iter.remaining();
    let ghost keys = entries.map_values(|kv: (&u64, &u64)| *kv.0);
    assert(vstd::std_specs::btree::increasing_seq(keys));
    for (p, v) in it: iter
        invariant
            it.seq() == entries,
            out@.len() == it.index(),
            forall|i: int| 0 <= i < it.index() ==> out@[i].price == *entries[i].0 && out@[i].volume == *entries[i].1,
    {
        out.push(Level { price: *p, volume: *v });
    }
    proof {
        assert forall|i: int, j: int| 0 <= i < j < out@.len() implies out@[i].price < out@[j].price by {
            assert(keys[i] == out@[i].price);
            assert(keys[j] == out@[j].price);
            assert(keys[i].cmp_spec(&keys[j]) is Less);
        }
        assert forall|i: int| 0 <= i < out@.len() implies #[trigger] m@.contains_key(out@[i].price) && m@[out@[i].price] == out@[i].volume by {
            assert(m@.contains_key(*entries[i].0));
        }
        assert forall|k: u64| #[trigger] m@.contains_key(k) implies exists|i: int| 0 <= i < out@.len() && out@[i].price == k by {
            assert(entries.contains((&k, &m@[k])));
            let i = choose|i: int| 0 <= i < entries.len() && entries[i] == (&k, &m@[k]);
            assert(out@[i].price == k);
        }
    }
    out
}

/// The map from price to volume obtained by writing each level in turn
/// (a later level at the same price replaces an earlier one).
pub open spec fn insert_levels(m: Map<u64, u64>, levels: Seq<Level>) -> Map<u64, u64>
    decreases levels.len(),
{
    if levels.len() == 0 {
        m
    } else {
        insert_levels(m, levels.drop_last()).insert(levels.last().price, levels.last().volume)
    }
}

/// The map obtained by applying each level in turn as a change: a zero volume
/// deletes the price, any other volume sets it.
pub open spec fn merge_levels(m: Map<u64, u64>, levels: Seq<Level>) -> Map<u64, u64>
    decreases levels.len(),
{
    if levels.len() == 0 {
        m
    } else {
        let prev = merge_levels(m, levels.drop_last());
        let l = levels.last();
        if l.volume == 0 {
            prev.remove(l.price)
        } else {
            prev.insert(l.price, l.volume)
        }
    }
}

/// The bid side after an update: a snapshot's bids replace it, an
/// incremental update's bids are merged into it.
pub open spec fn bids_after(bids: Map<u64, u64>, update: OrderBookUpdate) -> Map<u64, u64> {
    match update {
        OrderBookUpdate::Snapshot { bids: levels, .. } => insert_levels(Map::empty(), levels@),
        OrderBookUpdate::Incremental { bids: levels, .. } => merge_levels(bids, levels@),
    }
}

/// The ask side after an update, as for [`bids_after`].
pub open spec fn asks_after(asks: Map<u64, u64>, update: OrderBookUpdate) -> Map<u64, u64> {
    match update {
        OrderBookUpdate::Snapshot { asks: levels, .. } => insert_levels(Map::empty(), levels@),
        OrderBookUpdate::Incremental { asks: levels, .. } => merge_levels(asks, levels@),
    }
}

/// The number of levels a request for `n` levels returns from a side of `m`.
pub open spec fn depth(m: Map<u64, u64>, n: usize) -> nat {
    if n < m.dom().len() {
        n as nat
    } else {
        m.dom().len()
    }
}

/// `r` lists the `n` highest-priced levels of `m` (all of them when fewer),
/// from the highest price down, each with its volume.
pub open spec fn lists_highest(m: Map<u64, u64>, r: Seq<Level>, n: usize) -> bool {
    &&& r.len() == depth(m, n)
    &&& forall|i: int| 0 <= i < r.len() ==> #[trigger] m.contains_key(r[i].price) && m[r[i].price] == r[i].volume
    &&& forall|i: int, j: int| 0 <= i < j < r.len() ==> r[i].price > r[j].price
    &&& forall|k: u64, i: int| #![trigger m.contains_key(k), r[i]]
        m.contains_key(k) && 0 <= i < r.len() && k > r[i].price ==> exists|j: int| 0 <= j < r.len() && r[j].price == k
}

/// `r` lists the `n` lowest-priced levels of `m` (all of them when fewer),
/// from the lowest price up, each with its volume.
pub open spec fn lists_lowest(m: Map<u64, u64>, r: Seq<Level>, n: usize) -> bool {
    &&& r.len() == depth(m, n)
    &&& forall|i: int| 0 <= i < r.len() ==> #[trigger] m.contains_key(r[i].price) && m[r[i].price] == r[i].volume
    &&& forall|i: int, j: int| 0 <= i < j < r.len() ==> r[i].price < r[j].price
    &&& forall|k: u64, i: int| #![trigger m.contains_key(k), r[i]]
        m.contains_key(k) && 0 <= i < r.len() && k < r[i].price ==> exists|j: int| 0 <= j < r.len() && r[j].price == k
}

/// `l` is the level at the highest price of `m`, or `None` when `m` is empty.
pub open spec fn is_highest(m: Map<u64, u64>, l: Option<Level>) -> bool {
    match l {
        None => m.dom().len() == 0,
        Some(l) => m.contains_key(l.price) && m[l.price] == l.volume
            && forall|k: u64| #[trigger] m.contains_key(k) ==> k <= l.price,
    }
}

/// `l` is the level at the lowest price of `m`, or `None` when `m` is empty.
pub open spec fn is_lowest(m: Map<u64, u64>, l: Option<Level>) -> bool {
    match l {
        None => m.dom().len() == 0,
        Some(l) => m.contains_key(l.price) && m[l.price] == l.volume
            && forall|k: u64| #[trigger] m.contains_key(k) ==> k >= l.price,
    }
}

/// The `n` highest-priced levels of `m`, best first.
pub open spec fn highest_levels(m: Map<u64, u64>, n: usize) -> Seq<Level> {
    choose|r: Seq<Level>| lists_highest(m, r, n)
}

/// The `n` lowest-priced levels of `m`, best first.
pub open spec fn lowest_levels(m: Map<u64, u64>, n: usize) -> Seq<Level> {
    choose|r: Seq<Level>| lists_lowest(m, r, n)
}

proof fn lemma_highest_prefix(m: Map<u64, u64>, r1: Seq<Level>, r2: Seq<Level>, n: usize, i: int)
    requires
        lists_highest(m, r1, n),
        lists_highest(m, r2, n),
        0 <= i < r1.len(),
    ensures
        forall|j: int| 0 <= j <= i ==> r1[j].price == r2[j].price,
    decreases i,
{
    if i > 0 {
        lemma_highest_prefix(m, r1, r2, n, i - 1);
    }
    if r1[i].price > r2[i].price {
        let k = r1[i].price;
        assert(m.contains_key(k));
        assert(m.contains_key(k) && 0 <= i < r2.len() && k > r2[i].price);
        let j = choose|j: int| 0 <= j < r2.len() && r2[j].price == k;
        if j < i {
            assert(r1[j].price > r1[i].price);
        } else if j > i {
            assert(r2[i].price > r2[j].price);
        }
    } else if r2[i].price > r1[i].price {
        let k = r2[i].price;
        assert(m.contains_key(k));
        assert(m.contains_key(k) && 0 <= i < r1.len() && k > r1[i].price);
        let j = choose|j: int| 0 <= j < r1.len() && r1[j].price == k;
        if j < i {
            assert(r2[j].price > r2[i].price);
        } else if j > i {
            assert(r1[i].price > r1[j].price);
        }
    }
}

proof fn lemma_lowest_prefix(m: Map<u64, u64>, r1: Seq<Level>, r2: Seq<Level>, n: usize, i: int)
    requires
        lists_lowest(m, r1, n),
        lists_lowest(m, r2, n),
        0 <= i < r1.len(),
    ensures
        forall|j: int| 0 <= j <= i ==> r1[j].price == r2[j].price,
    decreases i,
{
    if i > 0 {
        lemma_lowest_prefix(m, r1, r2, n, i - 1);
    }
    if r1[i].price < r2[i].price {
        let k = r1[i].price;
        assert(m.contains_key(k));
        assert(m.contains_key(k) && 0 <= i < r2.len() && k < r2[i].price);
        let j = choose|j: int| 0 <= j < r2.len() && r2[j].price == k;
        if j < i {
            assert(r1[j].price < r1[i].price);
        } else if j > i {
            assert(r2[i].price < r2[j].price);
        }
    } else if r2[i].price < r1[i].price {
        let k = r2[i].price;
        assert(m.contains_key(k));
        assert(m.contains_key(k) && 0 <= i < r1.len() && k < r1[i].price);
        let j = choose|j: int| 0 <= j < r1.len() && r1[j].price == k;
        if j < i {
            assert(r2[j].price < r2[i].price);
        } else if j > i {
            assert(r1[i].price < r1[j].price);
        }
    }
}

/// The top levels of a side are determined by the side alone: two listings
/// of the `n` highest bids are the same listing.
pub proof fn lemma_highest_unique(m: Map<u64, u64>, r1: Seq<Level>, r2: Seq<Level>, n: usize)
    requires
        lists_highest(m, r1, n),
        lists_highest(m, r2, n),
    ensures
        r1 == r2,
{
    if r1.len() > 0 {
        lemma_highest_prefix(m, r1, r2, n, r1.len() - 1);
    }
    assert forall|i: int| 0 <= i < r1.len() implies r1[i] == r2[i] by {
        assert(m.contains_key(r1[i].price));
        assert(m.contains_key(r2[i].price));
    }
    assert(r1 =~= r2);
}

/// Two listings of the `n` lowest asks are the same listing.
pub proof fn lemma_lowest_unique(m: Map<u64, u64>, r1: Seq<Level>, r2: Seq<Level>, n: usize)
    requires
        lists_lowest(m, r1, n),
        lists_lowest(m, r2, n),
    ensures
        r1 == r2,
{
    if r1.len() > 0 {
        lemma_lowest_prefix(m, r1, r2, n, r1.len() - 1);
    }
    assert forall|i: int| 0 <= i < r1.len() implies r1[i] == r2[i] by {
        assert(m.contains_key(r1[i].price));
        assert(m.contains_key(r2[i].price));
    }
    assert(r1 =~= r2);
}

/// The order book: volume resting at each price on each side, and the time
/// of the last update applied.
#[derive(Debug, Clone)]
pub struct OrderBook {
    pub bids: BTreeMap<u64, u64>,
    pub asks: BTreeMap<u64, u64>,
    pub timestamp: u64,
}

impl Default for OrderBook {
    fn default() -> (b: Self)
        ensures
            b.bids@ == Map::<u64, u64>::empty(),
            b.asks@ == Map::<u64, u64>::empty(),
            b.timestamp == 0,
    {
        OrderBook { bids: BTreeMap::new(), asks: BTreeMap::new(), timestamp: 0 }
    }
}

impl OrderBook {
    /// An empty book at time zero.
    pub fn new() -> (b: Self)
        ensures
            b.bids@ == Map::<u64, u64>::empty(),
            b.asks@ == Map::<u64, u64>::empty(),
            b.timestamp == 0,
    {
        OrderBook { bids: BTreeMap::new(), asks: BTreeMap::new(), timestamp: 0 }
    }

    /// Applies an update. A snapshot replaces both sides by its levels; an
    /// incremental update changes the listed prices only, deleting those
    /// whose volume is zero. Either way the book takes the update's time.
    pub fn apply(&mut self, update: OrderBookUpdate)
        ensures
            final(self).bids@ == bids_after(old(self).bids@, update),
            final(self).asks@ == asks_after(old(self).asks@, update),
            final(self).timestamp == update.timestamp_of(),
    {
        match update {
            OrderBookUpdate::Snapshot { bids, asks, timestamp } => {
                self.bids.clear();
                self.asks.clear();
                insert_all(&mut self.bids, &bids);
                insert_all(&mut self.asks, &asks);
                self.timestamp = timestamp;
            },
            OrderBookUpdate::Incremental { bids, asks, timestamp } => {
                merge_all(&mut self.bids, &bids);
                merge_all(&mut self.asks, &asks);
                self.timestamp = timestamp;
            },
        }
    }

    /// The highest bid, if any.
    pub fn best_bid(&self) -> (r: Option<Level>)
        ensures
            is_highest(self.bids@, r),
    {
        let all = ascending_levels(&self.bids);
        let len = all.len();
        if len == 0 {
            None
        } else {
            let l = all[len - 1];
            proof {
                assert(self.bids@.contains_key(all@[len - 1].price));
                assert forall|k: u64| #[trigger] self.bids@.contains_key(k) implies k <= l.price by {
                    let j = choose|j: int| 0 <= j < all@.len() && all@[j].price == k;
                    if j < len - 1 {
                        assert(all@[j].price < all@[len - 1].price);
                    }
                }
            }
            Some(l)
        }
    }

    /// The lowest ask, if any.
    pub fn best_ask(&self) -> (r: Option<Level>)
        ensures
            is_lowest(self.asks@, r),
    {
        let all = ascending_levels(&self.asks);
        let len = all.len();
        if len == 0 {
            None
        } else {
            let l = all[0];
            proof {
                assert forall|k: u64| #[trigger] self.asks@.contains_key(k) implies k >= l.price by {
                    let j = choose|j: int| 0 <= j < all@.len() && all@[j].price == k;
                    if j > 0 {
                        assert(all@[0].price < all@[j].price);
                    }
                }
            }
            Some(l)
        }
    }

    /// The `n` highest bids, best first.
    pub fn top_bids(&self, n: usize) -> (r: Vec<Level>)
        ensures
            lists_highest(self.bids@, r@, n),
            r@ == highest_levels(self.bids@, n),
    {
        let all = ascending_levels(&self.bids);
        let len = all.len();
        let count = if n < len { n } else { len };
        let mut out: Vec<Level> = Vec::new();
        let mut i: usize = 0;
        while i < count
            invariant
                len == all@.len(),
                count <= len,
                i <= count,
                out@.len() == i,
                forall|j: int| 0 <= j < i ==> out@[j] == all@[len - 1 - j],
            decreases count - i,
        {
            out.push(all[len - 1 - i]);
            i = i + 1;
        }
        proof {
            let m = self.bids@;
            assert forall|a: int, b: int| 0 <= a < b < out@.len() implies out@[a].price > out@[b].price by {
                assert(all@[len - 1 - b].price < all@[len - 1 - a].price);
            }
            assert forall|a: int| 0 <= a < out@.len() implies #[trigger] m.contains_key(out@[a].price) && m[out@[a].price] == out@[a].volume by {
                assert(m.contains_key(all@[len - 1 - a].price));
            }
            assert forall|k: u64, a: int| #![trigger m.contains_key(k), out@[a]]
                m.contains_key(k) && 0 <= a < out@.len() && k > out@[a].price implies exists|j: int| 0 <= j < out@.len() && out@[j].price == k by {
                let j = choose|j: int| 0 <= j < all@.len() && all@[j].price == k;
                if j < len - count {
                    assert(all@[j].price < all@[len - 1 - a].price);
                } else {
                    assert(out@[len - 1 - j].price == k);
                }
            }
            lemma_highest_unique(m, out@, highest_levels(m, n), n);
        }
        out
    }

    /// The `n` lowest asks, best first.
    pub fn top_asks(&self, n: usize) -> (r: Vec<Level>)
        ensures
            lists_lowest(self.asks@, r@, n),
            r@ == lowest_levels(self.asks@, n),
    {
        let all = ascending_levels(&self.asks);
        let len = all.len();
        let count = if n < len { n } else { len };
        let mut out: Vec<Level> = Vec::new();
        let mut i: usize = 0;
        while i < count
            invariant
                len == all@.len(),
                count <= len,
                i <= count,
                out@.len() == i,
                forall|j: int| 0 <= j < i ==> out@[j] == all@[j],
            decreases count - i,
        {
            out.push(all[i]);
            i = i + 1;
        }
        proof {
            let m = self.asks@;
            assert forall|a: int, b: int| 0 <= a < b < out@.len() implies out@[a].price < out@[b].price by {
                assert(all@[a].price < all@[b].price);
            }
            assert forall|a: int| 0 <= a < out@.len() implies #[trigger] m.contains_key(out@[a].price) && m[out@[a].price] == out@[a].volume by {
                assert(m.contains_key(all@[a].price));
            }
            assert forall|k: u64, a: int| #![trigger m.contains_key(k), out@[a]]
                m.contains_key(k) && 0 <= a < out@.len() && k < out@[a].price implies exists|j: int| 0 <= j < out@.len() && out@[j].price == k by {
                let j = choose|j: int| 0 <= j < all@.len() && all@[j].price == k;
                if j >= count {
                    assert(all@[a].price < all@[j].price);
                } else {
                    assert(out@[j].price == k);
                }
            }
            lemma_lowest_unique(m, out@, lowest_levels(m, n), n);
        }
        out
    }
}

/// Writes every level into the side, in order.
fn insert_all(side: &mut BTreeMap<u64, u64>, levels: &Vec<Level>)
    ensures
        final(side)@ == insert_levels(old(side)@, levels@),
{
    let mut i: usize = 0;
    while i < levels.len()
        invariant
            i <= levels@.len(),
            side@ == insert_levels(old(side)@, levels@.take(i as int)),
        decreases levels@.len() - i,
    {
        let l = levels[i];
        side.insert(l.price, l.volume);
        proof {
            assert(levels@.take(i + 1).drop_last() == levels@.take(i as int));
        }
        i = i + 1;
    }
    proof {
        assert(levels@.take(levels@.len() as int) == levels@);
    }
}

/// Applies every level to the side as a change, in order.
fn merge_all(side: &mut BTreeMap<u64, u64>, levels: &Vec<Level>)
    ensures
        final(side)@ == merge_levels(old(side)@, levels@),
{
    let mut i: usize = 0;
    while i < levels.len()
        invariant
            i <= levels@.len(),
            side@ == merge_levels(old(side)@, levels@.take(i as int)),
        decreases levels@.len() - i,
    {
        let l = levels[i];
        if l.volume == 0 {
            side.remove(&l.price);
        } else {
            side.insert(l.price, l.volume);
        }
        proof {
            assert(levels@.take(i + 1).drop_last() == levels@.take(i as int));
        }
        i = i + 1;
    }
    proof {
        assert(levels@.take(levels@.len() as int) == levels@);
    }
}

/// The last level listed at price `p`, if any.
pub open spec fn last_level_at(levels: Seq<Level>, p: u64) -> Option<Level>
    decreases levels.len(),
{
    if levels.len() == 0 {
        None
    } else if levels.last().price == p {
        Some(levels.last())
    } else {
        last_level_at(levels.drop_last(), p)
    }
}

/// A snapshot replaces a side whatever the side held before.
pub proof fn lemma_snapshot_ignores_prior(m1: Map<u64, u64>, m2: Map<u64, u64>, update: OrderBookUpdate)
    requires
        update is Snapshot,
    ensures
        bids_after(m1, update) == bids_after(m2, update),
        asks_after(m1, update) == asks_after(m2, update),
{
}

/// Applying the same snapshot twice leaves the book as applying it once.
pub proof fn lemma_snapshot_idempotent(m: Map<u64, u64>, update: OrderBookUpdate)
    requires
        update is Snapshot,
    ensures
        bids_after(bids_after(m, update), update) == bids_after(m, update),
        asks_after(asks_after(m, update), update) == asks_after(m, update),
{
}

/// After an incremental update, a listed price holds the volume of its last
/// listing, or is gone when that volume is zero; an unlisted price keeps
/// what it held.
pub proof fn lemma_incremental_last_wins(m: Map<u64, u64>, levels: Seq<Level>, p: u64)
    ensures
        merge_levels(m, levels).contains_key(p) == match last_level_at(levels, p) {
            Some(l) => l.volume != 0,
            None => m.contains_key(p),
        },
        merge_levels(m, levels).contains_key(p) ==> merge_levels(m, levels)[p] == match last_level_at(levels, p) {
            Some(l) => l.volume,
            None => m[p],
        },
    decreases levels.len(),
{
    if levels.len() > 0 {
        lemma_incremental_last_wins(m, levels.drop_last(), p);
    }
}

/// After a snapshot, a side holds exactly the listed prices, each with the
/// volume of its last listing.
pub proof fn lemma_snapshot_last_wins(levels: Seq<Level>, p: u64)
    ensures
        insert_levels(Map::empty(), levels).contains_key(p) == last_level_at(levels, p) is Some,
        last_level_at(levels, p) matches Some(l) ==> insert_levels(Map::empty(), levels)[p] == l.volume,
    decreases levels.len(),
{
    if levels.len() > 0 {
        lemma_snapshot_last_wins(levels.drop_last(), p);
    }
}

/// The best bid heads every listing of the top bids, and there is a best
/// bid exactly when the listing is not empty.
pub proof fn lemma_best_bid_heads_top(m: Map<u64, u64>, r: Seq<Level>, n: usize, best: Option<Level>)
    requires
        lists_highest(m, r, n),
        n >= 1,
        is_highest(m, best),
        m.dom().finite(),
    ensures
        best is None <==> r.len() == 0,
        best matches Some(l) ==> r[0] == l,
{
    match best {
        None => {},
        Some(l) => {
            vstd::set::axiom_set_contains_len(m.dom(), l.price);
            assert(r.len() > 0);
            assert(m.contains_key(r[0].price));
            if r[0].price < l.price {
                assert(m.contains_key(l.price) && 0 <= 0 < r.len() && l.price > r[0].price);
                let j = choose|j: int| 0 <= j < r.len() && r[j].price == l.price;
                if j > 0 {
                    assert(r[0].price > r[j].price);
                }
            }
        },
    }
}

/// The best ask heads every listing of the top asks.
pub proof fn lemma_best_ask_heads_top(m: Map<u64, u64>, r: Seq<Level>, n: usize, best: Option<Level>)
    requires
        lists_lowest(m, r, n),
        n >= 1,
        is_lowest(m, best),
        m.dom().finite(),
    ensures
        best is None <==> r.len() == 0,
        best matches Some(l) ==> r[0] == l,
{
    match best {
        None => {},
        Some(l) => {
            vstd::set::axiom_set_contains_len(m.dom(), l.price);
            assert(r.len() > 0);
            assert(m.contains_key(r[0].price));
            if r[0].price > l.price {
                assert(m.contains_key(l.price) && 0 <= 0 < r.len() && l.price < r[0].price);
                let j = choose|j: int| 0 <= j < r.len() && r[j].price == l.price;
                if j > 0 {
                    assert(r[0].price < r[j].price);
                }
            }
        },
    }
}

/// Asking for fewer top bids gives a prefix of asking for more.
pub proof fn lemma_top_bids_prefix(m: Map<u64, u64>, short: Seq<Level>, long: Seq<Level>, n1: usize, n2: usize)
    requires
        lists_highest(m, short, n1),
        lists_highest(m, long, n2),
        n1 <= n2,
    ensures
        short == long.take(short.len() as int),
{
    let t = long.take(short.len() as int);
    assert forall|k: u64, i: int| #![trigger m.contains_key(k), t[i]]
        m.contains_key(k) && 0 <= i < t.len() && k > t[i].price implies exists|j: int| 0 <= j < t.len() && t[j].price == k by {
        assert(long[i] == t[i]);
        assert(m.contains_key(k) && 0 <= i < long.len() && k > long[i].price);
        let j = choose|j: int| 0 <= j < long.len() && long[j].price == k;
        if j >= i {
            if j > i {
                assert(long[i].price > long[j].price);
            }
        }
        assert(t[j] == long[j]);
    }
    assert forall|i: int| 0 <= i < t.len() implies #[trigger] m.contains_key(t[i].price) && m[t[i].price] == t[i].volume by {
        assert(t[i] == long[i]);
        assert(m.contains_key(long[i].price));
    }
    assert(lists_highest(m, t, n1));
    lemma_highest_unique(m, short, t, n1);
}

/// Asking for fewer top asks gives a prefix of asking for more.
pub proof fn lemma_top_asks_prefix(m: Map<u64, u64>, short: Seq<Level>, long: Seq<Level>, n1: usize, n2: usize)
    requires
        lists_lowest(m, short, n1),
        lists_lowest(m, long, n2),
        n1 <= n2,
    ensures
        short == long.take(short.len() as int),
{
    let t = long.take(short.len() as int);
    assert forall|k: u64, i: int| #![trigger m.contains_key(k), t[i]]
        m.contains_key(k) && 0 <= i < t.len() && k < t[i].price implies exists|j: int| 0 <= j < t.len() && t[j].price == k by {
        assert(long[i] == t[i]);
        assert(m.contains_key(k) && 0 <= i < long.len() && k < long[i].price);
        let j = choose|j: int| 0 <= j < long.len() && long[j].price == k;
        if j >= i {
            if j > i {
                assert(long[i].price < long[j].price);
            }
        }
        assert(t[j] == long[j]);
    }
    assert forall|i: int| 0 <= i < t.len() implies #[trigger] m.contains_key(t[i].price) && m[t[i].price] == t[i].volume by {
        assert(t[i] == long[i]);
        assert(m.contains_key(long[i].price));
    }
    assert(lists_lowest(m, t, n1));
    lemma_lowest_unique(m, short, t, n1);
}

} // verus!