//! Per-bar features: moving averages, the average true range and the
//! ATR-normalized spreads, slopes and candle geometry.
use vstd::prelude::*;
use crate::candle::{all_wf, Candle};
use crate::fixed::{div_wide, in_range, max_int, tdiv, Ratio, MAX_UNITS, SCALE};

verus! {

/// Features of one bar; spreads, slopes and distances are divided by the ATR
/// (by one where the ATR is not positive).
#[derive(Clone, Copy, Debug, PartialEq, Eq, Structural)]
pub struct Features {
    pub sma7: i64,
    pub sma25: i64,
    pub sma99: i64,
    pub atr: Ratio,
    /// (sma7 - sma25) / atr
    pub spread_7_25: Ratio,
    /// (sma25[t] - sma25[t-4]) / atr
    pub slope_25: Ratio,
    /// (sma99[t] - sma99[t-8]) / atr
    pub slope_99: Ratio,
    /// (close - sma25) / atr
    pub dist_close_25: Ratio,
    pub range: i64,
    pub upper_wick: i64,
    pub lower_wick: i64,
    pub close_pos: Ratio,
    /// green candles among the last eight
    pub green_8: u32,
    /// red candles among the last eight
    pub red_8: u32,
}

/// Sum of the closes of bars `lo..hi`.
pub open spec fn sum_close(candles: Seq<Candle>, lo: int, hi: int) -> int
    decreases hi - lo,
{
    if hi <= lo {
        0
    } else {
        sum_close(candles, lo, hi - 1) + candles[hi - 1].close
    }
}

/// First bar of the window of `period` bars that ends at `t`.
pub open spec fn window_start(t: int, period: int) -> int {
    if t >= period - 1 {
        t - (period - 1)
    } else {
        0
    }
}

/// Simple moving average of the closes of the `period` bars up to `t` (of
/// fewer at the start of the data), rounded toward zero.
pub open spec fn spec_sma(candles: Seq<Candle>, t: int, period: int) -> int {
    let start = window_start(t, period);
    tdiv(sum_close(candles, start, t + 1), t + 1 - start)
}

/// True range of a bar after `prev`: the largest of its range and the
/// distances of its high and low from the previous close.
pub open spec fn true_range(c: Candle, prev: Candle) -> int {
    let dh = if c.high >= prev.close { c.high - prev.close } else { prev.close - c.high };
    let dl = if c.low >= prev.close { c.low - prev.close } else { prev.close - c.low };
    max_int(max_int(c.high - c.low, dh), dl)
}

/// Sum of the true ranges of bars `lo..hi` (each after its predecessor).
pub open spec fn sum_tr(candles: Seq<Candle>, lo: int, hi: int) -> int
    decreases hi - lo,
{
    if hi <= lo {
        0
    } else {
        sum_tr(candles, lo, hi - 1) + true_range(candles[hi - 1], candles[hi - 2])
    }
}

/// Average true range over the fourteen bars up to `t`, as a quotient: the
/// first bar's range at `t == 0`.
pub open spec fn spec_atr(candles: Seq<Candle>, t: int) -> Ratio {
    if t == 0 {
        Ratio { num: candles[0].spec_range() as i64, den: 1 }
    } else {
        let period = if t + 1 < 14 { t + 1 } else { 14 };
        Ratio { num: sum_tr(candles, t + 1 - period, t + 1) as i64, den: period as i64 }
    }
}

/// `x / atr`, dividing by one (in units) where the ATR is not positive.
pub open spec fn per_atr(x: int, atr: Ratio) -> Ratio {
    if atr.num <= 0 {
        Ratio { num: x as i64, den: SCALE }
    } else {
        Ratio { num: (x * atr.den) as i64, den: atr.num }
    }
}

/// Green bars among `lo..hi`.
pub open spec fn count_green(candles: Seq<Candle>, lo: int, hi: int) -> int
    decreases hi - lo,
{
    if hi <= lo {
        0
    } else {
        count_green(candles, lo, hi - 1) + (if candles[hi - 1].close > candles[hi - 1].open { 1int } else { 0int })
    }
}

/// Red bars among `lo..hi`.
pub open spec fn count_red(candles: Seq<Candle>, lo: int, hi: int) -> int
    decreases hi - lo,
{
    if hi <= lo {
        0
    } else {
        count_red(candles, lo, hi - 1) + (if candles[hi - 1].close < candles[hi - 1].open { 1int } else { 0int })
    }
}

/// The features of bar `t`.
pub open spec fn spec_features(candles: Seq<Candle>, t: int) -> Features {
    let c = candles[t];
    let sma7 = spec_sma(candles, t, 7);
    let sma25 = spec_sma(candles, t, 25);
    let sma99 = spec_sma(candles, t, 99);
    let atr = spec_atr(candles, t);
    let sma25_4 = if t >= 4 { spec_sma(candles, t - 4, 25) } else { sma25 };
    let sma99_8 = if t >= 8 { spec_sma(candles, t - 8, 99) } else { sma99 };
    let lo8 = if t >= 7 { t - 7 } else { 0 };
    Features {
        sma7: sma7 as i64,
        sma25: sma25 as i64,
        sma99: sma99 as i64,
        atr,
        spread_7_25: per_atr(sma7 - sma25, atr),
        slope_25: per_atr(sma25 - sma25_4, atr),
        slope_99: per_atr(sma99 - sma99_8, atr),
        dist_close_25: per_atr(c.close - sma25, atr),
        range: c.spec_range() as i64,
        upper_wick: c.spec_upper_wick() as i64,
        lower_wick: c.spec_lower_wick() as i64,
        close_pos: c.spec_close_pos(),
        green_8: count_green(candles, lo8, t + 1) as u32,
        red_8: count_red(candles, lo8, t + 1) as u32,
    }
}

proof fn lemma_sum_close_bound(candles: Seq<Candle>, lo: int, hi: int)
    requires
        0 <= lo <= hi <= candles.len(),
        all_wf(candles),
    ensures
        -(hi - lo) * MAX_UNITS <= sum_close(candles, lo, hi) <= (hi - lo) * MAX_UNITS,
    decreases hi - lo,
{
    if hi > lo {
        lemma_sum_close_bound(candles, lo, hi - 1);
        assert(candles[hi - 1].wf());
    }
}

proof fn lemma_sma_in_range(candles: Seq<Candle>, t: int, period: int)
    requires
        0 <= t < candles.len(),
        period >= 1,
        all_wf(candles),
    ensures
        in_range(spec_sma(candles, t, period)),
{
    let start = window_start(t, period);
    lemma_sum_close_bound(candles, start, t + 1);
    let s = sum_close(candles, start, t + 1);
    let k = t + 1 - start;
    if s >= 0 {
        assert(s / k <= MAX_UNITS && s / k >= 0) by (nonlinear_arith)
            requires 0 <= s <= k * MAX_UNITS, k >= 1;
    } else {
        assert((-s) / k <= MAX_UNITS && (-s) / k >= 0) by (nonlinear_arith)
            requires 0 <= -s <= k * MAX_UNITS, k >= 1;
    }
}

/// The ATR-normalised distances are measured between the features'
/// own averages and the bar's close: `spread_7_25` is `(sma7 - sma25) / atr`,
/// `dist_close_25` is `(close - sma25) / atr`, each as the exact quotient
/// `(x * atr.den) / atr.num` where the ATR is positive and as `x / 1` (one
/// whole in units) where it is not.
pub proof fn lemma_features_measure_from_their_averages(candles: Seq<Candle>, t: int)
    requires
        0 <= t < candles.len(),
        all_wf(candles),
    ensures
        ({
            let f = spec_features(candles, t);
            let close = candles[t].close as int;
            &&& 1 <= f.atr.den <= 14
            &&& f.atr.num > 0 ==> {
                &&& f.dist_close_25.den == f.atr.num
                &&& f.dist_close_25.num == (close - f.sma25) * f.atr.den
                &&& f.spread_7_25.den == f.atr.num
                &&& f.spread_7_25.num == (f.sma7 - f.sma25) * f.atr.den
            }
            &&& f.atr.num <= 0 ==> {
                &&& f.dist_close_25 == (Ratio { num: (close - f.sma25) as i64, den: SCALE })
                &&& f.spread_7_25 == (Ratio { num: (f.sma7 - f.sma25) as i64, den: SCALE })
            }
        }),
{
    lemma_sma_in_range(candles, t, 7);
    lemma_sma_in_range(candles, t, 25);
    assert(candles[t].wf());
    let f = spec_features(candles, t);
    let d1 = candles[t].close as int - spec_sma(candles, t, 25);
    let d2 = spec_sma(candles, t, 7) - spec_sma(candles, t, 25);
    let den = f.atr.den as int;
    assert(-28_000_000_000_000_000 <= d1 * den <= 28_000_000_000_000_000) by (nonlinear_arith)
        requires -2_000_000_000_000_000 <= d1 <= 2_000_000_000_000_000, 1 <= den <= 14;
    assert(-28_000_000_000_000_000 <= d2 * den <= 28_000_000_000_000_000) by (nonlinear_arith)
        requires -2_000_000_000_000_000 <= d2 <= 2_000_000_000_000_000, 1 <= den <= 14;
}

/// Over a window of equal closes the moving average is that close.
pub proof fn lemma_sma_of_equal_closes(candles: Seq<Candle>, t: int, period: int, x: i64)
    requires
        0 <= t < candles.len(),
        period >= 1,
        forall|i: int| window_start(t, period) <= i <= t ==> (#[trigger] candles[i]).close == x,
    ensures
        spec_sma(candles, t, period) == x,
{
    let start = window_start(t, period);
    lemma_sum_close_equal(candles, start, t + 1, x);
    let k = t + 1 - start;
    assert(k >= 1);
    assert(sum_close(candles, start, t + 1) == k * x);
    if x >= 0 {
        assert(k * x >= 0) by (nonlinear_arith)
            requires k >= 1, x >= 0;
        assert((k * x) / k == x) by (nonlinear_arith)
            requires k >= 1, x >= 0;
        assert(tdiv(k * x, k) == x);
    } else {
        assert(k * x < 0) by (nonlinear_arith)
            requires k >= 1, x < 0;
        assert((-(k * x)) / k == -x) by (nonlinear_arith)
            requires k >= 1, x < 0;
        assert(tdiv(k * x, k) == x);
    }
}

proof fn lemma_sum_close_equal(candles: Seq<Candle>, lo: int, hi: int, x: i64)
    requires
        lo <= hi,
        forall|i: int| lo <= i < hi ==> (#[trigger] candles[i]).close == x,
    ensures
        sum_close(candles, lo, hi) == (hi - lo) * x,
    decreases hi - lo,
{
    if hi > lo {
        lemma_sum_close_equal(candles, lo, hi - 1, x);
        assert(candles[hi - 1].close == x);
        assert((hi - 1 - lo) * x + x == (hi - lo) * x) by (nonlinear_arith);
        assert(sum_close(candles, lo, hi) == sum_close(candles, lo, hi - 1) + candles[hi - 1].close);
    } else {
        assert((hi - lo) * x == 0) by (nonlinear_arith)
            requires hi == lo;
    }
}

proof fn lemma_sum_close_one_off(candles: Seq<Candle>, lo: int, hi: int, x: i64, d: int)
    requires
        lo < hi,
        candles[lo].close == x + d,
        forall|i: int| lo < i < hi ==> (#[trigger] candles[i]).close == x,
    ensures
        sum_close(candles, lo, hi) == (hi - lo) * x + d,
    decreases hi - lo,
{
    if hi - 1 > lo {
        lemma_sum_close_one_off(candles, lo, hi - 1, x, d);
        assert(candles[hi - 1].close == x);
        assert((hi - 1 - lo) * x + x == (hi - lo) * x) by (nonlinear_arith);
    } else {
        assert(sum_close(candles, lo, lo) == 0);
        assert(1 * x == x);
    }
}

proof fn lemma_sum_close_same(a: Seq<Candle>, b: Seq<Candle>, lo: int, hi: int)
    requires
        forall|i: int| lo <= i < hi ==> (#[trigger] a[i]).close == b[i].close,
    ensures
        sum_close(a, lo, hi) == sum_close(b, lo, hi),
    decreases hi - lo,
{
    if hi > lo {
        lemma_sum_close_same(a, b, lo, hi - 1);
    }
}

/// The moving average of `period` bars at `t` (from bar `period - 1` on)
/// depends on the closes of bars `t - period + 1 ..= t` alone, and counts
/// each of them once: where they all close at `x`, except the first, which
/// closes at `x + period`, the average is `x + 1`.
pub proof fn lemma_sma_window(a: Seq<Candle>, b: Seq<Candle>, t: int, period: int, x: i64)
    requires
        1 <= period,
        period - 1 <= t < a.len(),
        t < b.len(),
        -MAX_UNITS <= x <= MAX_UNITS,
    ensures
        (forall|i: int| t - period + 1 <= i <= t ==> (#[trigger] a[i]).close == b[i].close) ==> spec_sma(a, t, period)
            == spec_sma(b, t, period),
        (a[t - period + 1].close == x + period && forall|i: int| t - period + 1 < i <= t ==> (#[trigger] a[i]).close
            == x) ==> spec_sma(a, t, period) == x + 1,
{
    let lo = t - period + 1;
    assert(window_start(t, period) == lo);
    if forall|i: int| lo <= i <= t ==> (#[trigger] a[i]).close == b[i].close {
        lemma_sum_close_same(a, b, lo, t + 1);
    }
    if a[lo].close == x + period && forall|i: int| lo < i <= t ==> (#[trigger] a[i]).close == x {
        lemma_sum_close_one_off(a, lo, t + 1, x, period);
        let sum = period * x + period;
        assert(sum == period * (x + 1)) by (nonlinear_arith)
            requires sum == period * x + period;
        if x + 1 >= 0 {
            assert(period * (x + 1) >= 0) by (nonlinear_arith)
                requires period >= 1, x + 1 >= 0;
            assert((period * (x + 1)) / period == x + 1) by (nonlinear_arith)
                requires period >= 1, x + 1 >= 0;
        } else {
            assert(period * (x + 1) < 0) by (nonlinear_arith)
                requires period >= 1, x + 1 < 0;
            assert((-(period * (x + 1))) / period == -(x + 1)) by (nonlinear_arith)
                requires period >= 1, x + 1 < 0;
        }
    }
}

/// The true range of a bar is at least its range and at least the distance of
/// its high and of its low from the previous close, and is one of these.
pub proof fn lemma_true_range_is_the_largest_move(c: Candle, prev: Candle)
    ensures
        ({
            let tr = true_range(c, prev);
            let dh = if c.high >= prev.close { c.high - prev.close } else { prev.close - c.high };
            let dl = if c.low >= prev.close { c.low - prev.close } else { prev.close - c.low };
            &&& tr >= c.high - c.low
            &&& tr >= c.high - prev.close && tr >= prev.close - c.high
            &&& tr >= c.low - prev.close && tr >= prev.close - c.low
            &&& (tr == c.high - c.low || tr == dh || tr == dl)
        }),
{
}

proof fn lemma_sum_tr_same(a: Seq<Candle>, b: Seq<Candle>, lo: int, hi: int)
    requires
        forall|i: int| lo - 1 <= i < hi ==> (#[trigger] a[i]) == b[i],
    ensures
        sum_tr(a, lo, hi) == sum_tr(b, lo, hi),
    decreases hi - lo,
{
    if hi > lo {
        lemma_sum_tr_same(a, b, lo, hi - 1);
        assert(a[hi - 1] == b[hi - 1]);
        assert(a[hi - 2] == b[hi - 2]);
    }
}

proof fn lemma_sum_tr_equal(candles: Seq<Candle>, lo: int, hi: int, x: int)
    requires
        lo <= hi,
        forall|i: int| lo <= i < hi ==> #[trigger] true_range(candles[i], candles[i - 1]) == x,
    ensures
        sum_tr(candles, lo, hi) == (hi - lo) * x,
    decreases hi - lo,
{
    if hi > lo {
        lemma_sum_tr_equal(candles, lo, hi - 1, x);
        assert(true_range(candles[hi - 1], candles[hi - 2]) == x);
        assert((hi - 1 - lo) * x + x == (hi - lo) * x) by (nonlinear_arith);
    } else {
        assert((hi - lo) * x == 0) by (nonlinear_arith)
            requires hi == lo;
    }
}

/// From bar 14 on, the ATR is the mean of the true ranges of the fourteen
/// bars up to `t`: it depends on bars `t - 14 ..= t` alone (each true range
/// needing the bar before), and where those fourteen true ranges all equal
/// `x` it is `14 * x / 14`.
pub proof fn lemma_atr_window(a: Seq<Candle>, b: Seq<Candle>, t: int, x: int)
    requires
        14 <= t < a.len(),
        t < b.len(),
        0 <= x <= 2 * MAX_UNITS,
    ensures
        (forall|i: int| t - 14 <= i <= t ==> (#[trigger] a[i]) == b[i]) ==> spec_atr(a, t) == spec_atr(b, t),
        (forall|i: int| t - 13 <= i <= t ==> #[trigger] true_range(a[i], a[i - 1]) == x) ==> spec_atr(a, t) == (
        Ratio { num: (14 * x) as i64, den: 14 }),
{
    if forall|i: int| t - 14 <= i <= t ==> (#[trigger] a[i]) == b[i] {
        lemma_sum_tr_same(a, b, t - 13, t + 1);
    }
    if forall|i: int| t - 13 <= i <= t ==> #[trigger] true_range(a[i], a[i - 1]) == x {
        lemma_sum_tr_equal(a, t - 13, t + 1, x);
    }
}

proof fn lemma_count_colors(candles: Seq<Candle>, lo: int, hi: int)
    requires
        lo <= hi,
    ensures
        (forall|i: int| lo <= i < hi ==> (#[trigger] candles[i]).close > candles[i].open) ==> count_green(candles, lo, hi)
            == hi - lo && count_red(candles, lo, hi) == 0,
        (forall|i: int| lo <= i < hi ==> (#[trigger] candles[i]).close < candles[i].open) ==> count_red(candles, lo, hi)
            == hi - lo && count_green(candles, lo, hi) == 0,
        0 <= count_green(candles, lo, hi) && 0 <= count_red(candles, lo, hi),
        count_green(candles, lo, hi) + count_red(candles, lo, hi) <= hi - lo,
    decreases hi - lo,
{
    if hi > lo {
        lemma_count_colors(candles, lo, hi - 1);
    }
}

proof fn lemma_count_colors_same(a: Seq<Candle>, b: Seq<Candle>, lo: int, hi: int)
    requires
        forall|i: int| lo <= i < hi ==> (#[trigger] a[i]) == b[i],
    ensures
        count_green(a, lo, hi) == count_green(b, lo, hi),
        count_red(a, lo, hi) == count_red(b, lo, hi),
    decreases hi - lo,
{
    if hi > lo {
        lemma_count_colors_same(a, b, lo, hi - 1);
    }
}

/// From bar 7 on, `green_8` and `red_8` count the green (close above open)
/// and red (close below open) bars among the eight up to `t`: eight green
/// bars give eight and no red, eight red bars eight and no green, together
/// they are at most eight, and bars outside those eight do not matter.
pub proof fn lemma_colors_of_last_eight(a: Seq<Candle>, b: Seq<Candle>, t: int)
    requires
        7 <= t < a.len(),
        t < b.len(),
    ensures
        ({
            let f = spec_features(a, t);
            &&& (forall|i: int| t - 7 <= i <= t ==> (#[trigger] a[i]).close > a[i].open) ==> f.green_8 == 8 && f.red_8
                == 0
            &&& (forall|i: int| t - 7 <= i <= t ==> (#[trigger] a[i]).close < a[i].open) ==> f.red_8 == 8 && f.green_8
                == 0
            &&& f.green_8 + f.red_8 <= 8
            &&& (forall|i: int| t - 7 <= i <= t ==> (#[trigger] a[i]) == b[i]) ==> f.green_8 == spec_features(b, t).green_8
                && f.red_8 == spec_features(b, t).red_8
        }),
{
    lemma_count_colors(a, t - 7, t + 1);
    if forall|i: int| t - 7 <= i <= t ==> (#[trigger] a[i]) == b[i] {
        lemma_count_colors_same(a, b, t - 7, t + 1);
    }
}

/// The slopes compare the averages with those a few bars back: from bar 8 on,
/// `slope_25` is `(sma25 - sma25 four bars back) / atr` and `slope_99` is
/// `(sma99 - sma99 eight bars back) / atr`.
pub proof fn lemma_slopes(candles: Seq<Candle>, t: int)
    requires
        8 <= t < candles.len(),
    ensures
        ({
            let f = spec_features(candles, t);
            &&& f.slope_25 == per_atr(spec_sma(candles, t, 25) - spec_sma(candles, t - 4, 25), f.atr)
            &&& f.slope_99 == per_atr(spec_sma(candles, t, 99) - spec_sma(candles, t - 8, 99), f.atr)
            &&& f.atr == spec_atr(candles, t)
        }),
{
}

/// Simple moving average of the closes of the `period` bars up to `t`.
pub fn sma(candles: &[Candle], t: usize, period: usize) -> (r: i64)
    requires
        t < candles@.len(),
        1 <= period <= 1000,
        all_wf(candles@),
    ensures
        r == spec_sma(candles@, t as int, period as int),
        in_range(r as int),
{
    let start: usize = if t >= period - 1 {
        t - (period - 1)
    } else {
        0
    };
    let mut sum: i64 = 0;
    let mut i: usize = start;
    while i <= t
        invariant
            start <= i <= t + 1,
            t < candles@.len(),
            t + 1 - start <= 1000,
            all_wf(candles@),
            sum == sum_close(candles@, start as int, i as int),
        decreases t + 1 - i,
    {
        proof {
            lemma_sum_close_bound(candles@, start as int, i as int + 1);
            assert((i + 1 - start) * MAX_UNITS <= 1000 * MAX_UNITS) by (nonlinear_arith)
                requires i + 1 - start <= 1000;
        }
        sum = sum + candles[i].close;
        i = i + 1;
    }
    let n = (t + 1 - start) as i64;
    proof {
        lemma_sum_close_bound(candles@, start as int, t as int + 1);
        let s = sum as int;
        let k = n as int;
        if s >= 0 {
            assert(s / k <= MAX_UNITS && s / k >= 0) by (nonlinear_arith)
                requires 0 <= s <= k * MAX_UNITS, k >= 1;
        } else {
            assert((-s) / k <= MAX_UNITS && (-s) / k >= 0) by (nonlinear_arith)
                requires 0 <= -s <= k * MAX_UNITS, k >= 1;
        }
    }
    div_wide(sum as i128, n as i128) as i64
}

fn true_range_exec(c: &Candle, prev: &Candle) -> (r: i64)
    requires
        c.wf(),
        prev.wf(),
    ensures
        r == true_range(*c, *prev),
        0 <= r <= 2 * MAX_UNITS,
{
    let dh = if c.high >= prev.close {
        c.high - prev.close
    } else {
        prev.close - c.high
    };
    let dl = if c.low >= prev.close {
        c.low - prev.close
    } else {
        prev.close - c.low
    };
    let mut m = c.high - c.low;
    if dh > m {
        m = dh;
    }
    if dl > m {
        m = dl;
    }
    m
}

/// Average true range at bar `t`, as a quotient of the summed true ranges
/// and the number of bars.
pub fn atr14(candles: &[Candle], t: usize) -> (r: Ratio)
    requires
        t < candles@.len(),
        t == 0 || t >= 14,
        all_wf(candles@),
    ensures
        r == spec_atr(candles@, t as int),
        r.wf(),
        t >= 14 ==> 0 <= r.num,
{
    if t == 0 {
        proof {
            assert(candles@[0].wf());
        }
        return Ratio { num: candles[0].range(), den: 1 };
    }
    let n = candles.len();
    let start = t - 13;
    let mut sum: i64 = 0;
    let mut i: usize = start;
    while i <= t
        invariant
            1 <= start <= i <= t + 1,
            start == t - 13,
            t < n == candles@.len(),
            all_wf(candles@),
            sum == sum_tr(candles@, start as int, i as int),
            0 <= sum <= 2_000_000_000_000_000 * (i - start),
        decreases t + 1 - i,
    {
        proof {
            assert(candles@[i as int].wf());
            assert(candles@[i - 1].wf());
        }
        let tr = true_range_exec(&candles[i], &candles[i - 1]);
        proof {
            assert(i - start <= 13);
            assert(2_000_000_000_000_000 * (i - start) <= 26_000_000_000_000_000) by (nonlinear_arith)
                requires i - start <= 13, i >= start;
            assert(2_000_000_000_000_000 * (i + 1 - start) == 2_000_000_000_000_000 * (i - start) + 2_000_000_000_000_000) by (nonlinear_arith);
        }
        sum = sum + tr;
        i = i + 1;
    }
    Ratio { num: sum, den: 14 }
}

fn per_atr_exec(x: i64, atr: Ratio) -> (r: Ratio)
    requires
        -4 * MAX_UNITS <= x <= 4 * MAX_UNITS,
        1 <= atr.den <= 14,
    ensures
        r == per_atr(x as int, atr),
        r.wf(),
{
    if atr.num <= 0 {
        Ratio { num: x, den: SCALE }
    } else {
        proof {
            assert(-56_000_000_000_000_000 <= x * atr.den <= 56_000_000_000_000_000) by (nonlinear_arith)
                requires -4_000_000_000_000_000 <= x <= 4_000_000_000_000_000, 1 <= atr.den <= 14;
        }
        Ratio { num: x * atr.den, den: atr.num }
    }
}

/// Bounds that the features of well-formed bars keep.
pub open spec fn features_bounded(f: Features) -> bool {
    &&& in_range(f.sma7 as int)
    &&& in_range(f.sma25 as int)
    &&& in_range(f.sma99 as int)
    &&& -4_000_000_000_000_000 <= f.range <= 4_000_000_000_000_000
    &&& 1 <= f.atr.den <= 14
}

/// The features of bar `t`.
pub fn compute(candles: &[Candle], t: usize) -> (f: Features)
    requires
        t < candles@.len(),
        t == 0 || t >= 14,
        all_wf(candles@),
    ensures
        f == spec_features(candles@, t as int),
        features_bounded(f),
{
    let c = &candles[t];
    proof {
        assert(candles@[t as int].wf());
    }
    let sma7 = sma(candles, t, 7);
    let sma25 = sma(candles, t, 25);
    let sma99 = sma(candles, t, 99);
    let atr = atr14(candles, t);
    let sma25_4 = if t >= 4 {
        sma(candles, t - 4, 25)
    } else {
        sma25
    };
    let sma99_8 = if t >= 8 {
        sma(candles, t - 8, 99)
    } else {
        sma99
    };
    let lo8: usize = if t >= 7 {
        t - 7
    } else {
        0
    };
    let mut green_8: u32 = 0;
    let mut red_8: u32 = 0;
    let mut i: usize = lo8;
    while i <= t
        invariant
            lo8 <= i <= t + 1,
            t + 1 - lo8 <= 8,
            t < candles@.len(),
            green_8 == count_green(candles@, lo8 as int, i as int),
            red_8 == count_red(candles@, lo8 as int, i as int),
            green_8 <= i - lo8,
            red_8 <= i - lo8,
        decreases t + 1 - i,
    {
        if candles[i].is_green() {
            green_8 = green_8 + 1;
        }
        if candles[i].is_red() {
            red_8 = red_8 + 1;
        }
        i = i + 1;
    }
    Features {
        sma7,
        sma25,
        sma99,
        atr,
        spread_7_25: per_atr_exec(sma7 - sma25, atr),
        slope_25: per_atr_exec(sma25 - sma25_4, atr),
        slope_99: per_atr_exec(sma99 - sma99_8, atr),
        dist_close_25: per_atr_exec(c.close - sma25, atr),
        range: c.range(),
        upper_wick: c.upper_wick(),
        lower_wick: c.lower_wick(),
        close_pos: c.close_pos(),
        green_8,
        red_8,
    }
}

} // verus!
