//! A simulator that fills market orders against cash and asset balances.
use vstd::prelude::*;
use crate::common::{Fill, Side, Trade};
use crate::orderbook::OrderBook;

verus! {

/// Taker fee in millionths of the traded value: 0.05%.
pub const TAKER_FEE_PPM: u64 = 500;

/// `x` held to the range of a `u128`.
pub open spec fn clamp_u128(x: int) -> int {
    if x > u128::MAX {
        u128::MAX as int
    } else if x < 0 {
        0
    } else {
        x
    }
}

/// The fee on a trade of the given value at a rate in millionths, rounded
/// down, and held at the largest `u128`.
pub open spec fn fee_for(value: int, rate_ppm: int) -> int {
    clamp_u128(value * rate_ppm / 1_000_000)
}

/// The value of `volume` lots at `price` half ticks in notional units (one
/// lot at one half tick), held at the largest `u128`.
pub open spec fn trade_value(volume: int, price: int) -> int {
    clamp_u128(volume * price)
}

/// Cash and asset balances of the simulated account. Cash is counted in
/// notional units (one lot at one half tick), the asset in lots.
pub struct ExecutionSimulator {
    pub quote_balance: u128,
    pub base_balance: u128,
    /// Fee rate in millionths of the traded value.
    pub fee_rate: u64,
    pub total_fees_paid: u128,
}

impl ExecutionSimulator {
    /// Whether a market order of `volume` lots at `price` half ticks can be
    /// filled: a buy needs cash for its value and its fee, a sell needs the
    /// asset.
    pub open spec fn can_fill(&self, side: Side, volume: int, price: int) -> bool {
        let value = trade_value(volume, price);
        match side {
            Side::Bid => self.quote_balance >= value + fee_for(value, self.fee_rate as int),
            Side::Ask => self.base_balance >= volume,
        }
    }

    /// The account after filling the order: a buy pays value and fee in cash
    /// and receives the asset, a sell delivers the asset and receives the
    /// value less the fee; the fee is added to the fees paid. Balances are
    /// held to the range of `u128`.
    pub open spec fn filled(&self, side: Side, volume: int, price: int) -> ExecutionSimulator {
        let value = trade_value(volume, price);
        let fee = fee_for(value, self.fee_rate as int);
        match side {
            Side::Bid => ExecutionSimulator {
                quote_balance: (self.quote_balance - value - fee) as u128,
                base_balance: clamp_u128(self.base_balance + volume) as u128,
                fee_rate: self.fee_rate,
                total_fees_paid: clamp_u128(self.total_fees_paid + fee) as u128,
            },
            Side::Ask => ExecutionSimulator {
                quote_balance: clamp_u128(self.quote_balance + value - fee) as u128,
                base_balance: (self.base_balance - volume) as u128,
                fee_rate: self.fee_rate,
                total_fees_paid: clamp_u128(self.total_fees_paid + fee) as u128,
            },
        }
    }

    /// An account with the given balances, the taker fee and no fees paid.
    pub fn new(initial_quote: u128, initial_base: u128) -> (r: Self)
        ensures
            r.quote_balance == initial_quote,
            r.base_balance == initial_base,
            r.fee_rate == TAKER_FEE_PPM,
            r.total_fees_paid == 0,
    {
        ExecutionSimulator {
            quote_balance: initial_quote,
            base_balance: initial_base,
            fee_rate: TAKER_FEE_PPM,
            total_fees_paid: 0,
        }
    }

    /// Fills a market order at the given price in half ticks when the balances allow it,
    /// returning the fill; otherwise returns `None` and changes nothing.
    pub fn fill_market_order(&mut self, side: Side, volume: u64, price: u128, ts: u64) -> (r: Option<Fill>)
        ensures
            old(self).can_fill(side, volume as int, price as int) ==> {
                &&& r == Some(Fill { side, volume, price, timestamp: ts })
                &&& *final(self) == old(self).filled(side, volume as int, price as int)
            },
            !old(self).can_fill(side, volume as int, price as int) ==> {
                &&& r is None
                &&& *final(self) == *old(self)
            },
    {
        assert(volume * price >= 0) by (nonlinear_arith);
        let trade_value: u128 = match (volume as u128).checked_mul(price) {
            None => u128::MAX,
            Some(v) => v,
        };
        let fee = fee_of(trade_value, self.fee_rate);
        match side {
            Side::Bid => {
                if self.quote_balance >= trade_value && self.quote_balance - trade_value >= fee {
                    self.quote_balance = self.quote_balance - trade_value - fee;
                    self.base_balance = self.base_balance.saturating_add(volume as u128);
                    self.total_fees_paid = self.total_fees_paid.saturating_add(fee);
                } else {
                    return None;
                }
            },
            Side::Ask => {
                if self.base_balance >= volume as u128 {
                    self.quote_balance = if fee <= self.quote_balance {
                        (self.quote_balance - fee).saturating_add(trade_value)
                    } else {
                        trade_value.saturating_sub(fee - self.quote_balance)
                    };
                    self.base_balance = self.base_balance - volume as u128;
                    self.total_fees_paid = self.total_fees_paid.saturating_add(fee);
                } else {
                    return None;
                }
            },
        }
        Some(Fill { side, volume, price, timestamp: ts })
    }

    /// Matches resting limit orders against the book. The simulator holds no
    /// resting orders, so nothing trades.
    pub fn match_orders(&mut self, _book: &OrderBook) -> (r: Vec<Trade>)
        ensures
            r@.len() == 0,
            *final(self) == *old(self),
    {
        Vec::new()
    }
}

/// The fee on `value` at `rate_ppm` millionths, computed without overflow.
fn fee_of(value: u128, rate_ppm: u64) -> (fee: u128)
    ensures
        fee == fee_for(value as int, rate_ppm as int),
{
    let q = value / 1_000_000;
    let r = value % 1_000_000;
    let rate = rate_ppm as u128;
    assert(r * rate < 1_000_000 * 0x1_0000_0000_0000_0000) by (nonlinear_arith)
        requires
            r < 1_000_000,
            rate < 0x1_0000_0000_0000_0000,
    ;
    let low = r * rate / 1_000_000;
    proof {
        vstd::arithmetic::div_mod::lemma_fundamental_div_mod(value as int, 1_000_000);
        assert(value * rate == (q * rate) * 1_000_000 + r * rate) by (nonlinear_arith)
            requires
                value == 1_000_000 * q + r,
        ;
        vstd::arithmetic::div_mod::lemma_hoist_over_denominator((r * rate) as int, (q * rate) as int, 1_000_000);
        assert(r * rate / 1_000_000 >= 0) by (nonlinear_arith)
            requires
                r >= 0,
                rate >= 0,
        ;
    }
    match q.checked_mul(rate) {
        None => u128::MAX,
        Some(high) => match high.checked_add(low) {
            None => u128::MAX,
            Some(f) => f,
        },
    }
}

/// Cash is accounted for: a fill moves exactly the trade's value between
/// cash and the asset, and the fee from cash into the fees paid, as long as
/// no balance reaches the end of its range.
pub proof fn lemma_fill_accounting(acct: ExecutionSimulator, side: Side, volume: int, price: int)
    requires
        acct.can_fill(side, volume, price),
        volume >= 0,
        price >= 0,
        volume * price <= u128::MAX,
        acct.total_fees_paid + fee_for(volume * price, acct.fee_rate as int) <= u128::MAX,
        side == Side::Bid ==> acct.base_balance + volume <= u128::MAX,
        side == Side::Ask ==> acct.quote_balance + volume * price <= u128::MAX,
        fee_for(volume * price, acct.fee_rate as int) <= volume * price,
    ensures
        ({
            let after = acct.filled(side, volume, price);
            let fee = fee_for(volume * price, acct.fee_rate as int);
            &&& after.total_fees_paid == acct.total_fees_paid + fee
            &&& side == Side::Bid ==> {
                &&& after.quote_balance + fee + volume * price == acct.quote_balance
                &&& after.base_balance == acct.base_balance + volume
            }
            &&& side == Side::Ask ==> {
                &&& after.quote_balance + fee == acct.quote_balance + volume * price
                &&& after.base_balance + volume == acct.base_balance
            }
        }),
{
    assert(volume * price >= 0) by (nonlinear_arith)
        requires
            volume >= 0,
            price >= 0,
    ;
}

/// Buying and then selling the same volume at the same price gives the
/// asset back and costs twice the fee in cash, as long as no balance
/// reaches the end of its range.
pub proof fn lemma_round_trip(acct: ExecutionSimulator, volume: int, price: int)
    requires
        acct.can_fill(Side::Bid, volume, price),
        volume >= 0,
        price >= 0,
        volume * price <= u128::MAX,
        acct.total_fees_paid + 2 * fee_for(volume * price, acct.fee_rate as int) <= u128::MAX,
        acct.base_balance + volume <= u128::MAX,
        fee_for(volume * price, acct.fee_rate as int) <= volume * price,
    ensures
        ({
            let bought = acct.filled(Side::Bid, volume, price);
            let sold = bought.filled(Side::Ask, volume, price);
            let fee = fee_for(volume * price, acct.fee_rate as int);
            &&& bought.can_fill(Side::Ask, volume, price)
            &&& sold.base_balance == acct.base_balance
            &&& sold.quote_balance == acct.quote_balance - 2 * fee
            &&& sold.total_fees_paid == acct.total_fees_paid + 2 * fee
        }),
{
    assert(volume * price >= 0) by (nonlinear_arith)
        requires
            volume >= 0,
            price >= 0,
    ;
}

/// At a fee rate of at most one, the fee never exceeds the traded value.
pub proof fn lemma_fee_at_most_value(value: int, rate_ppm: int)
    requires
        0 <= value <= u128::MAX,
        0 <= rate_ppm <= 1_000_000,
    ensures
        0 <= fee_for(value, rate_ppm) <= value,
{
    assert(value * rate_ppm / 1_000_000 <= value) by (nonlinear_arith)
        requires
            0 <= value,
            0 <= rate_ppm <= 1_000_000,
    {
        vstd::arithmetic::div_mod::lemma_div_is_ordered(value * rate_ppm, value * 1_000_000, 1_000_000);
        vstd::arithmetic::div_mod::lemma_div_by_multiple(value, 1_000_000);
    }
    assert(value * rate_ppm / 1_000_000 >= 0) by (nonlinear_arith)
        requires
            0 <= value,
            0 <= rate_ppm,
    ;
}

} // verus!