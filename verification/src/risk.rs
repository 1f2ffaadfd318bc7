//! Pre-trade risk checks: a position limit and a daily loss limit.
use vstd::prelude::*;
use crate::common::Side;
use crate::fraction::abs_i128;

verus! {

/// The position after trading `volume` lots on `side` from `position`:
/// buying adds, selling subtracts.
pub open spec fn projected_position(position: int, side: Side, volume: int) -> int {
    match side {
        Side::Bid => position + volume,
        Side::Ask => position - volume,
    }
}

/// `x` held to the range of an `i128`.
pub open spec fn clamp_i128(x: int) -> int {
    if x > i128::MAX {
        i128::MAX as int
    } else if x < i128::MIN {
        i128::MIN as int
    } else {
        x
    }
}

/// Risk limits and the state they are checked against. The position is
/// signed, in lots: positive long, negative short.
#[derive(Debug)]
pub struct RiskManager {
    pub max_position: u64,
    /// Loss limit in notional units.
    pub max_daily_loss: u128,
    pub current_position: i128,
    pub current_pnl: i128,
}

impl RiskManager {
    /// Whether the manager accepts an order of `volume` lots on `side`: the
    /// day's loss has not reached the limit, and the position after the
    /// order stays within the position limit in absolute value.
    pub open spec fn allows(&self, side: Side, volume: int) -> bool {
        let p = projected_position(self.current_position as int, side, volume);
        &&& self.current_pnl > -(self.max_daily_loss as int)
        &&& -(self.max_position as int) <= p <= self.max_position as int
    }

    /// A manager with the given limits, flat and with no profit or loss.
    pub fn new(max_pos: u64, max_loss: u128) -> (r: Self)
        ensures
            r.max_position == max_pos,
            r.max_daily_loss == max_loss,
            r.current_position == 0,
            r.current_pnl == 0,
    {
        RiskManager { max_position: max_pos, max_daily_loss: max_loss, current_position: 0, current_pnl: 0 }
    }

    /// Checks a new order against the limits.
    pub fn check_new_order(&self, side: Side, volume: u64) -> (ok: bool)
        ensures
            ok == self.allows(side, volume as int),
    {
        let loss_reached = if self.current_pnl > 0 {
            false
        } else {
            abs_i128(self.current_pnl) >= self.max_daily_loss
        };
        if loss_reached {
            return false;
        }
        let max = self.max_position as i128;
        let v = volume as i128;
        let pos = self.current_position;
        // Compare without forming the projected position, which could overflow.
        let within = match side {
            Side::Bid => pos <= max - v && pos >= -max - v,
            Side::Ask => pos <= max + v && pos >= -max + v,
        };
        within
    }

    /// Books a fill of `volume` lots on `side` into the position. The price
    /// does not enter the position. A position beyond the range of `i128`
    /// is held at the bound.
    pub fn update_position(&mut self, side: Side, volume: u64, _price: u128)
        ensures
            final(self).current_position == clamp_i128(projected_position(old(self).current_position as int, side, volume as int)),
            final(self).max_position == old(self).max_position,
            final(self).max_daily_loss == old(self).max_daily_loss,
            final(self).current_pnl == old(self).current_pnl,
    {
        let v = volume as i128;
        match side {
            Side::Bid => {
                if self.current_position > i128::MAX - v {
                    self.current_position = i128::MAX;
                } else {
                    self.current_position = self.current_position + v;
                }
            },
            Side::Ask => {
                if self.current_position < i128::MIN + v {
                    self.current_position = i128::MIN;
                } else {
                    self.current_position = self.current_position - v;
                }
            },
        }
    }
}

/// An order that the risk manager accepts, once filled and booked, leaves
/// the position within the position limit.
pub proof fn lemma_accepted_order_within_limit(before: RiskManager, after: RiskManager, side: Side, volume: u64)
    requires
        before.allows(side, volume as int),
        after.current_position == clamp_i128(projected_position(before.current_position as int, side, volume as int)),
        after.max_position == before.max_position,
    ensures
        -(after.max_position as int) <= after.current_position <= after.max_position as int,
{
}

/// Once the day's loss reaches the limit, every order is refused.
pub proof fn lemma_loss_limit_blocks(rm: RiskManager, side: Side, volume: int)
    requires
        rm.current_pnl <= -(rm.max_daily_loss as int),
    ensures
        !rm.allows(side, volume),
{
}

/// Booking a buy and then a sell of the same volume gives the position
/// back, as long as the buy does not take it past the range of `i128`.
pub proof fn lemma_position_round_trip(position: i128, volume: u64)
    requires
        position + volume <= i128::MAX,
    ensures
        clamp_i128(projected_position(
            clamp_i128(projected_position(position as int, Side::Bid, volume as int)),
            Side::Ask,
            volume as int,
        )) == position,
{
}

/// The risk manager accepts an order exactly when the day's loss has not
/// reached the limit and the position after the order, bought volume added
/// and sold volume taken away, lies within the position limit either way,
/// whatever the current position.
pub proof fn lemma_allows_exactly(rm: RiskManager, side: Side, volume: int)
    ensures
        rm.allows(side, volume) <==> {
            let after = match side {
                Side::Bid => rm.current_position + volume,
                Side::Ask => rm.current_position - volume,
            };
            &&& rm.current_pnl > -(rm.max_daily_loss as int)
            &&& -(rm.max_position as int) <= after <= rm.max_position as int
        },
{
}

} // verus!