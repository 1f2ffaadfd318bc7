//! Rule-based signals from the order-book imbalance.
use vstd::prelude::*;
use crate::features::{Features, Ratio};
use crate::fraction::lt_products;

verus! {

/// Imbalance above which the engine goes long (and below whose negation it
/// goes short), in millionths: 0.6.
pub const OBI_THRESHOLD: i64 = 600_000;

/// What the strategy wants to do.
#[derive(Debug, Clone, Copy, PartialEq, Eq, Structural)]
pub enum SignalType {
    EnterLong,
    EnterShort,
    Exit,
    NoSignal,
}

/// Thresholds on the imbalance are given in millionths.
pub const THRESHOLD_SCALE: i64 = 1_000_000;

/// The signal for an imbalance and a threshold in millionths: long strictly
/// above the threshold, short strictly below its negation, nothing in
/// between.
pub open spec fn signal_for(obi: Ratio, threshold: int) -> SignalType {
    if obi.num * 1_000_000 > threshold * obi.den {
        SignalType::EnterLong
    } else if obi.num * 1_000_000 < -threshold * obi.den {
        SignalType::EnterShort
    } else {
        SignalType::NoSignal
    }
}

/// The signal for an imbalance against a given threshold in millionths.
pub fn signal_with_threshold(obi: Ratio, threshold: i64) -> (s: SignalType)
    ensures
        s == signal_for(obi, threshold as int),
{
    if lt_products(threshold as i128, obi.den, obi.num, 1_000_000) {
        SignalType::EnterLong
    } else if lt_products(obi.num, 1_000_000, -(threshold as i128), obi.den) {
        SignalType::EnterShort
    } else {
        SignalType::NoSignal
    }
}

/// The signal of the top-of-book imbalance against the fixed 0.6 threshold.
pub fn generate_signal(features: &Features) -> (s: SignalType)
    ensures
        s == signal_for(features.obi_top_1, OBI_THRESHOLD as int),
{
    signal_with_threshold(features.obi_top_1, OBI_THRESHOLD)
}

/// Signals never ask to exit, and mirror with the imbalance: negating the
/// imbalance turns a long signal into a short one and back.
pub proof fn lemma_signal_mirror(obi: Ratio, threshold: int)
    requires
        threshold >= 0,
        obi.num > i128::MIN,
    ensures
        signal_for(obi, threshold) != SignalType::Exit,
        signal_for(obi, threshold) == SignalType::EnterLong
            <==> signal_for(Ratio { num: (-obi.num) as i128, den: obi.den }, threshold) == SignalType::EnterShort,
        signal_for(obi, threshold) == SignalType::NoSignal
            <==> signal_for(Ratio { num: (-obi.num) as i128, den: obi.den }, threshold) == SignalType::NoSignal,
{
    let m = Ratio { num: (-obi.num) as i128, den: obi.den };
    let l = obi.num * 1_000_000;
    let r = threshold * obi.den;
    assert(m.num as int == -obi.num);
    assert(m.num * 1_000_000 == -l) by (nonlinear_arith)
        requires
            m.num == -obi.num,
            l == obi.num * 1_000_000,
    ;
    assert(-threshold * obi.den == -r) by (nonlinear_arith)
        requires
            r == threshold * obi.den,
    ;
    assert(r >= 0) by (nonlinear_arith)
        requires
            threshold >= 0,
            obi.den >= 0,
            r == threshold * obi.den,
    ;
}

} // verus!
