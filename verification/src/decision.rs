//! BULL regime by one-hour momentum mean reversion: when BTC has fallen by
//! more than the threshold over the last hour, expect a bounce up; leave the
//! regime once momentum recovers above the threshold.
use vstd::prelude::*;
use crate::candle::{all_wf, Candle};
use crate::fixed::{in_range, Ratio};

verus! {

/// Momentum lookback: 12 bars of five minutes, one hour.
pub const MOM_LOOKBACK: usize = 12;

pub struct Thresholds {
    /// Lookback bars for the momentum.
    pub lookback: usize,
    /// Momentum threshold, in percent, that marks the BULL zone.
    pub mom_threshold: Ratio,
}

impl Thresholds {
    pub open spec fn wf(&self) -> bool {
        self.mom_threshold.wf()
    }

    /// The strategy's defaults: a twelve-bar lookback and a 0.8% threshold.
    pub fn default() -> (th: Thresholds)
        ensures
            th.lookback == MOM_LOOKBACK,
            th.mom_threshold == (Ratio { num: 8, den: 10 }),
            th.wf(),
    {
        Thresholds { lookback: MOM_LOOKBACK, mom_threshold: Ratio { num: 8, den: 10 } }
    }
}

/// Percent change from the open `lookback` bars back to the close of bar `t`;
/// zero where there are not enough bars or the starting price is not positive.
pub open spec fn spec_momentum(candles: Seq<Candle>, t: int, lookback: int) -> Ratio {
    if t < lookback {
        Ratio { num: 0, den: 1 }
    } else {
        let start = candles[t - lookback].open;
        let end = candles[t].close;
        if start <= 0 {
            Ratio { num: 0, den: 1 }
        } else {
            Ratio { num: ((end - start) * 100) as i64, den: start }
        }
    }
}

pub fn momentum_pct(candles: &[Candle], t: usize, lookback: usize) -> (r: Ratio)
    requires
        t < candles@.len(),
        all_wf(candles@),
    ensures
        r == spec_momentum(candles@, t as int, lookback as int),
        r.wf(),
{
    if t < lookback {
        return Ratio { num: 0, den: 1 };
    }
    let start = candles[t - lookback].open;
    let end = candles[t].close;
    proof {
        assert(candles@[t - lookback].wf());
        assert(candles@[t as int].wf());
    }
    if start <= 0 {
        return Ratio { num: 0, den: 1 };
    }
    Ratio { num: (end - start) * 100, den: start }
}

/// The momentum is below minus the threshold.
pub open spec fn below(mom: Ratio, th: Ratio) -> bool {
    mom.num * th.den < -th.num * mom.den
}

/// The momentum is above minus the threshold.
pub open spec fn above(mom: Ratio, th: Ratio) -> bool {
    -th.num * mom.den < mom.num * th.den
}

/// One step of the regime on bar `t`, from whether the previous bar was in
/// BULL and the two run counters.
/// Returns whether bar `t` is in BULL, the momentum, and the new counters.
pub fn evaluate(
    candles: &[Candle],
    t: usize,
    in_bull: bool,
    consec_bull: u32,
    consec_exit: u32,
    th: &Thresholds,
) -> (r: (bool, Ratio, u32, u32))
    requires
        t < candles@.len(),
        all_wf(candles@),
        th.wf(),
        th.mom_threshold.num > i64::MIN,
        below(spec_momentum(candles@, t as int, th.lookback as int), th.mom_threshold)
            ==> consec_bull < u32::MAX,
        above(spec_momentum(candles@, t as int, th.lookback as int), th.mom_threshold)
            ==> consec_exit < u32::MAX,
    ensures
        ({
            let mom = spec_momentum(candles@, t as int, th.lookback as int);
            let (now_bull, m, cb, ce) = r;
            &&& m == mom
            &&& cb == (if below(mom, th.mom_threshold) { consec_bull + 1 } else { 0 })
            &&& ce == (if above(mom, th.mom_threshold) { consec_exit + 1 } else { 0 })
            &&& now_bull == (if in_bull { ce < 1 } else { cb >= 1 })
            // from outside the regime, enter exactly when momentum is below
            // minus the threshold; inside, stay exactly while it is not above
            &&& !in_bull ==> (now_bull <==> below(mom, th.mom_threshold))
            &&& in_bull ==> (now_bull <==> !above(mom, th.mom_threshold))
        }),
{
    let mom = momentum_pct(candles, t, th.lookback);
    let neg = Ratio { num: -th.mom_threshold.num, den: th.mom_threshold.den };
    let is_below = mom.less_than(&neg);
    let is_above = neg.less_than(&mom);
    let cb = if is_below {
        consec_bull + 1
    } else {
        0
    };
    let ce = if is_above {
        consec_exit + 1
    } else {
        0
    };
    let now_bull = if in_bull {
        ce < 1
    } else {
        cb >= 1
    };
    (now_bull, mom, cb, ce)
}

/// The momentum of bar `t` is the percent change from the open `lookback`
/// bars back to bar `t`'s close: where that open is positive, the momentum
/// times the open is `100 * (close - open)` (over its denominator), it is
/// negative exactly when the close is below the open, and a higher close of
/// bar `t`, all else equal, gives a strictly higher momentum.
pub proof fn lemma_momentum_follows_close(candles: Seq<Candle>, t: int, lookback: int, close2: i64)
    requires
        0 <= lookback <= t < candles.len(),
        all_wf(candles),
        candles[t - lookback].open > 0,
        in_range(close2 as int),
        candles[t].close < close2,
    ensures
        ({
            let start = candles[t - lookback].open as int;
            let end = candles[t].close as int;
            let m1 = spec_momentum(candles, t, lookback);
            let moved = candles.update(t, Candle { close: close2, ..candles[t] });
            let m2 = spec_momentum(moved, t, lookback);
            &&& m1.den > 0
            &&& m1.num * start == 100 * (end - start) * m1.den
            &&& (m1.num < 0 <==> end < start)
            &&& m1.lt(m2)
        }),
{
    let start = candles[t - lookback].open as int;
    let end = candles[t].close as int;
    assert(candles[t].wf());
    assert(candles[t - lookback].wf());
    let moved = candles.update(t, Candle { close: close2, ..candles[t] });
    assert(moved[t - lookback].open == start);
    assert(moved[t].close == close2);
    let m1 = spec_momentum(candles, t, lookback);
    let m2 = spec_momentum(moved, t, lookback);
    assert(m1.num == (end - start) * 100);
    assert(m2.num == (close2 - start) * 100);
    assert(m1.den == start && m2.den == start);
    assert((end - start) * 100 * start < (close2 - start) * 100 * start) by (nonlinear_arith)
        requires end < close2, start > 0;
}

/// With the default thresholds, a bar with an hour of history and a
/// positive opening price enters BULL exactly when its close is more than
/// 0.8% below the open twelve bars back (`1000 * (close - open) < -8 * open`)
/// and leaves it exactly when the close is more than 0.8% above
/// (`1000 * (close - open) > -8 * open`); without the history the momentum is
/// zero, which is not below minus the threshold but above it.
pub proof fn lemma_default_thresholds_in_prices(candles: Seq<Candle>, t: int)
    requires
        0 <= t < candles.len(),
        all_wf(candles),
    ensures
        ({
            let mom = spec_momentum(candles, t, 12);
            let th = Ratio { num: 8, den: 10 };
            &&& t >= 12 && candles[t - 12].open > 0 ==> {
                let start = candles[t - 12].open as int;
                let end = candles[t].close as int;
                &&& below(mom, th) <==> 1000 * (end - start) < -8 * start
                &&& above(mom, th) <==> -8 * start < 1000 * (end - start)
            }
            &&& t < 12 ==> !below(mom, th) && above(mom, th)
        }),
{
    if t >= 12 && candles[t - 12].open > 0 {
        assert(candles[t].wf());
        assert(candles[t - 12].wf());
    }
}

} // verus!
