//! The three-state regime rules of the strategy design (BULL entry with
//! score and YES filter, BEAR entry with score and NO filter) and the
//! diagnostic pass that counts how many bars each stage of them lets through.
use vstd::prelude::*;
use crate::candle::{all_wf, Candle};
use crate::features::{compute, features_bounded, spec_features, Features};
use crate::fixed::{mul_wide, Ratio, SCALE};

verus! {

/// Thresholds of the regime rules that the diagnostic pass reports on.
#[derive(Clone, Copy, Debug, PartialEq, Eq, Structural)]
pub struct RegimeThresholds {
    /// Least spread_7_25 of a BULL candidate.
    pub bull_spread: Ratio,
    /// Least slope_25 of a BULL candidate.
    pub bull_slope: Ratio,
    /// Least BULL score that counts.
    pub bull_score_min: u32,
    /// Least BEAR score that counts.
    pub bear_score_min: u32,
}

impl RegimeThresholds {
    pub open spec fn wf(&self) -> bool {
        self.bull_spread.wf() && self.bull_slope.wf()
    }

    /// The design's values: spread 0.10, slope 0.08, both scores at least 4.
    pub fn default() -> (th: RegimeThresholds)
        ensures
            th.bull_spread == (Ratio { num: 10, den: 100 }),
            th.bull_slope == (Ratio { num: 8, den: 100 }),
            th.bull_score_min == 4,
            th.bear_score_min == 4,
            th.wf(),
    {
        RegimeThresholds {
            bull_spread: Ratio { num: 10, den: 100 },
            bull_slope: Ratio { num: 8, den: 100 },
            bull_score_min: 4,
            bear_score_min: 4,
        }
    }
}

pub open spec fn r(num: int, den: int) -> Ratio {
    Ratio { num: num as i64, den: den as i64 }
}

/// The moving averages are stacked upward: SMA7 > SMA25 > SMA99.
pub open spec fn bull_stack(f: Features) -> bool {
    f.sma7 > f.sma25 && f.sma25 > f.sma99
}

/// The moving averages are stacked downward: SMA7 < SMA25 < SMA99.
pub open spec fn bear_stack(f: Features) -> bool {
    f.sma7 < f.sma25 && f.sma25 < f.sma99
}

/// Mandatory BULL conditions on one bar.
pub open spec fn spec_bull_candidate(c: Candle, f: Features, th: RegimeThresholds) -> bool {
    &&& bull_stack(f)
    &&& th.bull_spread.le(f.spread_7_25)
    &&& th.bull_slope.le(f.slope_25)
    &&& r(-3, 100).le(f.slope_99)
    &&& c.close > f.sma25
}

/// Mandatory BEAR conditions on one bar.
pub open spec fn spec_bear_candidate(c: Candle, f: Features) -> bool {
    &&& bear_stack(f)
    &&& f.spread_7_25.le(r(-10, 100))
    &&& f.slope_25.le(r(-8, 100))
    &&& c.close < f.sma25
    &&& c.close < f.sma99
}

pub open spec fn b2i(b: bool) -> int {
    if b { 1 } else { 0 }
}

/// BULL score of bar `t` (0 to 6).
pub open spec fn spec_bull_score(candles: Seq<Candle>, t: int, f: Features) -> int {
    let c = candles[t];
    b2i(c.close >= f.sma7) + b2i(r(55, 100).le(f.close_pos)) + b2i(f.green_8 >= 5) + b2i(
        t >= 2 && c.low > candles[t - 2].low,
    ) + b2i(t >= 2 && c.high > candles[t - 2].high) + b2i(f.dist_close_25.le(r(140, 100)))
}

/// BEAR score of bar `t` (0 to 6).
pub open spec fn spec_bear_score(candles: Seq<Candle>, t: int, f: Features) -> int {
    let c = candles[t];
    b2i(c.close <= f.sma7) + b2i(f.close_pos.le(r(45, 100))) + b2i(f.red_8 >= 4) + b2i(
        t >= 2 && c.low < candles[t - 2].low,
    ) + b2i(t >= 2 && c.high < candles[t - 2].high) + b2i(r(-120, 100).le(f.dist_close_25))
}

/// `x / atr` is at most `n / d`, the ATR counting as one where not positive.
pub open spec fn per_atr_at_most(x: int, atr: Ratio, n: int, d: int) -> bool {
    if atr.num <= 0 {
        x * d <= n * SCALE
    } else {
        x * atr.den * d <= n * atr.num
    }
}

/// `a / b` is at most `n / d` for a positive `b`; false otherwise.
pub open spec fn share_at_most(a: int, b: int, n: int, d: int) -> bool {
    b > 0 && a * d <= n * b
}

/// `a / b` is at least `n / d` for a positive `b`; false otherwise.
pub open spec fn share_at_least(a: int, b: int, n: int, d: int) -> bool {
    b > 0 && a * d >= n * b
}

/// The YES filter of the BULL regime on a bar.
pub open spec fn spec_bull_yes_filter(c: Candle, f: Features) -> bool {
    &&& c.close >= f.sma7
    &&& r(50, 100).le(f.close_pos)
    &&& f.dist_close_25.le(r(140, 100))
    &&& per_atr_at_most(f.range as int, f.atr, 180, 100)
    &&& share_at_most(f.upper_wick as int, f.range as int, 35, 100)
}

/// The NO filter (continuation setup) of the BEAR regime on bar `t`.
pub open spec fn spec_bear_no_filter(candles: Seq<Candle>, t: int, f: Features) -> bool {
    let c = candles[t];
    &&& per_atr_at_most(f.sma7 - c.high, f.atr, 10, 100)
    &&& c.close < c.open
    &&& f.close_pos.le(r(35, 100))
    &&& share_at_least(f.upper_wick as int, f.range as int, 20, 100)
    &&& t >= 1 && c.low < candles[t - 1].low
    &&& r(-120, 100).le(f.dist_close_25)
    &&& share_at_most(f.lower_wick as int, f.range as int, 30, 100)
}

pub fn bull_candidate(c: &Candle, f: &Features, th: &RegimeThresholds) -> (b: bool)
    ensures
        b == spec_bull_candidate(*c, *f, *th),
{
    f.sma7 > f.sma25 && f.sma25 > f.sma99 && th.bull_spread.at_most(&f.spread_7_25) && th.bull_slope.at_most(
        &f.slope_25,
    ) && (Ratio { num: -3, den: 100 }).at_most(&f.slope_99) && c.close > f.sma25
}

pub fn bear_candidate(c: &Candle, f: &Features) -> (b: bool)
    ensures
        b == spec_bear_candidate(*c, *f),
{
    f.sma7 < f.sma25 && f.sma25 < f.sma99 && f.spread_7_25.at_most(&Ratio { num: -10, den: 100 })
        && f.slope_25.at_most(&Ratio { num: -8, den: 100 }) && c.close < f.sma25 && c.close < f.sma99
}

fn count_if(b: bool) -> (r: u32)
    ensures
        r == b2i(b),
{
    if b {
        1
    } else {
        0
    }
}

pub fn bull_score(candles: &[Candle], t: usize, f: &Features) -> (s: u32)
    requires
        t < candles@.len(),
    ensures
        s == spec_bull_score(candles@, t as int, *f),
        s <= 6,
{
    let c = &candles[t];
    count_if(c.close >= f.sma7) + count_if((Ratio { num: 55, den: 100 }).at_most(&f.close_pos)) + count_if(
        f.green_8 >= 5,
    ) + count_if(t >= 2 && c.low > candles[t - 2].low) + count_if(t >= 2 && c.high > candles[t - 2].high)
        + count_if(f.dist_close_25.at_most(&Ratio { num: 140, den: 100 }))
}

pub fn bear_score(candles: &[Candle], t: usize, f: &Features) -> (s: u32)
    requires
        t < candles@.len(),
    ensures
        s == spec_bear_score(candles@, t as int, *f),
        s <= 6,
{
    let c = &candles[t];
    count_if(c.close <= f.sma7) + count_if(f.close_pos.at_most(&Ratio { num: 45, den: 100 })) + count_if(
        f.red_8 >= 4,
    ) + count_if(t >= 2 && c.low < candles[t - 2].low) + count_if(t >= 2 && c.high < candles[t - 2].high)
        + count_if((Ratio { num: -120, den: 100 }).at_most(&f.dist_close_25))
}

fn per_atr_at_most_exec(x: i64, atr: Ratio, n: i64, d: i64) -> (b: bool)
    requires
        -4_000_000_000_000_000 <= x <= 4_000_000_000_000_000,
        1 <= atr.den <= 14,
        1 <= d <= 100,
        -1000 <= n <= 1000,
    ensures
        b == per_atr_at_most(x as int, atr, n as int, d as int),
{
    if atr.num <= 0 {
        mul_wide(x, d) <= mul_wide(n, SCALE)
    } else {
        proof {
            assert(-56_000_000_000_000_000 <= x * atr.den <= 56_000_000_000_000_000) by (nonlinear_arith)
                requires -4_000_000_000_000_000 <= x <= 4_000_000_000_000_000, 1 <= atr.den <= 14;
        }
        mul_wide(x * atr.den, d) <= mul_wide(n, atr.num)
    }
}

fn share_at_most_exec(a: i64, b: i64, n: i64, d: i64) -> (r: bool)
    ensures
        r == share_at_most(a as int, b as int, n as int, d as int),
{
    b > 0 && mul_wide(a, d) <= mul_wide(n, b)
}

fn share_at_least_exec(a: i64, b: i64, n: i64, d: i64) -> (r: bool)
    ensures
        r == share_at_least(a as int, b as int, n as int, d as int),
{
    b > 0 && mul_wide(a, d) >= mul_wide(n, b)
}

pub fn bull_yes_filter(c: &Candle, f: &Features) -> (b: bool)
    requires
        features_bounded(*f),
    ensures
        b == spec_bull_yes_filter(*c, *f),
{
    c.close >= f.sma7 && (Ratio { num: 50, den: 100 }).at_most(&f.close_pos) && f.dist_close_25.at_most(
        &Ratio { num: 140, den: 100 },
    ) && per_atr_at_most_exec(f.range, f.atr, 180, 100) && share_at_most_exec(f.upper_wick, f.range, 35, 100)
}

pub fn bear_no_filter(candles: &[Candle], t: usize, f: &Features) -> (b: bool)
    requires
        t < candles@.len(),
        candles@[t as int].wf(),
        features_bounded(*f),
    ensures
        b == spec_bear_no_filter(candles@, t as int, *f),
{
    let c = &candles[t];
    per_atr_at_most_exec(f.sma7 - c.high, f.atr, 10, 100) && c.close < c.open && f.close_pos.at_most(
        &Ratio { num: 35, den: 100 },
    ) && share_at_least_exec(f.upper_wick, f.range, 20, 100) && t >= 1 && c.low < candles[t - 1].low
        && (Ratio { num: -120, den: 100 }).at_most(&f.dist_close_25) && share_at_most_exec(
        f.lower_wick,
        f.range,
        30,
        100,
    )
}

/// First bar that the diagnostic pass evaluates.
pub const DIAG_START: usize = 100;

/// Fewest bars the diagnostic pass needs.
pub const DIAG_MIN_BARS: usize = 110;

/// Number of bars `lo..hi` that satisfy `p`.
pub open spec fn count_bars(lo: int, hi: int, p: spec_fn(int) -> bool) -> int
    decreases hi - lo,
{
    if hi <= lo {
        0
    } else {
        count_bars(lo, hi - 1, p) + b2i(p(hi - 1))
    }
}

/// Bar `t` passes the BULL candidate conditions and the score.
pub open spec fn bull_ok(candles: Seq<Candle>, th: RegimeThresholds, t: int) -> bool {
    let f = spec_features(candles, t);
    spec_bull_candidate(candles[t], f, th) && spec_bull_score(candles, t, f) >= th.bull_score_min
}

/// Bar `t` passes the BEAR candidate conditions and the score.
pub open spec fn bear_ok(candles: Seq<Candle>, th: RegimeThresholds, t: int) -> bool {
    let f = spec_features(candles, t);
    spec_bear_candidate(candles[t], f) && spec_bear_score(candles, t, f) >= th.bear_score_min
}

/// The stages of the pipelines that bar `t` passes, in the order of
/// `Diagnostics`' counters.
pub open spec fn stage(candles: Seq<Candle>, th: RegimeThresholds, t: int, k: int) -> bool {
    let f = spec_features(candles, t);
    let c = candles[t];
    let stack = bull_stack(f);
    let spread = stack && th.bull_spread.le(f.spread_7_25);
    let slope = spread && th.bull_slope.le(f.slope_25);
    let consec_bull = bull_ok(candles, th, t) && t > DIAG_START && bull_ok(candles, th, t - 1);
    let consec_bear = bear_ok(candles, th, t) && t > DIAG_START && bear_ok(candles, th, t - 1);
    if k == 0 {
        stack
    } else if k == 1 {
        spread
    } else if k == 2 {
        slope
    } else if k == 3 {
        slope && c.close > f.sma25
    } else if k == 4 {
        spec_bull_candidate(c, f, th)
    } else if k == 5 {
        bull_ok(candles, th, t)
    } else if k == 6 {
        consec_bull
    } else if k == 7 {
        consec_bull && spec_bull_yes_filter(c, f)
    } else if k == 8 {
        bear_stack(f)
    } else if k == 9 {
        spec_bear_candidate(c, f)
    } else if k == 10 {
        bear_ok(candles, th, t)
    } else if k == 11 {
        consec_bear
    } else {
        consec_bear && spec_bear_no_filter(candles, t, f)
    }
}

/// The V1 rules on a bar's features, written out in the features' own
/// numbers (a ratio `n / d` compared as `n * d' <= n' * d`):
/// - a BULL candidate has SMA7 > SMA25 > SMA99, spread and slope_25 at least
///   the thresholds, slope_99 at least -0.03 and the close above SMA25;
/// - a BEAR candidate has SMA7 < SMA25 < SMA99, spread at most -0.10,
///   slope_25 at most -0.08 and the close below SMA25 and SMA99;
/// - each score counts six signs, so lies between 0 and 6, and a bar cannot
///   be both a BULL and a BEAR candidate.
pub proof fn lemma_candidate_rules(candles: Seq<Candle>, t: int, f: Features, th: RegimeThresholds)
    requires
        0 <= t < candles.len(),
    ensures
        ({
            let c = candles[t];
            &&& spec_bull_candidate(c, f, th) <==> (f.sma7 > f.sma25 && f.sma25 > f.sma99
                && th.bull_spread.num * f.spread_7_25.den <= f.spread_7_25.num * th.bull_spread.den
                && th.bull_slope.num * f.slope_25.den <= f.slope_25.num * th.bull_slope.den
                && -3 * f.slope_99.den <= f.slope_99.num * 100 && c.close > f.sma25)
            &&& spec_bear_candidate(c, f) <==> (f.sma7 < f.sma25 && f.sma25 < f.sma99
                && f.spread_7_25.num * 100 <= -10 * f.spread_7_25.den
                && f.slope_25.num * 100 <= -8 * f.slope_25.den && c.close < f.sma25 && c.close < f.sma99)
            &&& !(spec_bull_candidate(c, f, th) && spec_bear_candidate(c, f))
            &&& 0 <= spec_bull_score(candles, t, f) <= 6
            &&& 0 <= spec_bear_score(candles, t, f) <= 6
            &&& (c.close >= f.sma7 && f.green_8 >= 5 && t >= 2 && c.low > candles[t - 2].low && c.high
                > candles[t - 2].high && 55 * f.close_pos.den <= f.close_pos.num * 100 && f.dist_close_25.num * 100
                <= 140 * f.dist_close_25.den) ==> spec_bull_score(candles, t, f) == 6
            &&& (c.close <= f.sma7 && f.red_8 >= 4 && t >= 2 && c.low < candles[t - 2].low && c.high
                < candles[t - 2].high && f.close_pos.num * 100 <= 45 * f.close_pos.den && -120 * f.dist_close_25.den
                <= f.dist_close_25.num * 100) ==> spec_bear_score(candles, t, f) == 6
        }),
{
}

/// The V1 trade filters written out in the features' own numbers (the ATR
/// counting as one whole where it is not positive):
/// - the BULL YES filter wants the close at or above SMA7, the close position
///   at least 0.50, the distance from SMA25 at most 1.40 ATR, the range at
///   most 1.80 ATR and an upper wick of at most 35% of a positive range;
/// - the BEAR NO filter wants SMA7 at most 0.10 ATR above the high, a red
///   bar, the close position at most 0.35, an upper wick of at least 20% and
///   a lower wick of at most 30% of a positive range, a low below the
///   previous bar's low and the distance from SMA25 at least -1.20 ATR.
pub proof fn lemma_filter_rules(candles: Seq<Candle>, t: int, f: Features)
    requires
        0 <= t < candles.len(),
    ensures
        ({
            let c = candles[t];
            let atr_num = if f.atr.num <= 0 { SCALE as int } else { f.atr.num as int };
            let atr_den = if f.atr.num <= 0 { 1int } else { f.atr.den as int };
            &&& spec_bull_yes_filter(c, f) <==> (c.close >= f.sma7 && 50 * f.close_pos.den <= f.close_pos.num * 100
                && f.dist_close_25.num * 100 <= 140 * f.dist_close_25.den && f.range * atr_den * 100 <= 180 * atr_num
                && f.range > 0 && f.upper_wick * 100 <= 35 * f.range)
            &&& spec_bear_no_filter(candles, t, f) <==> ((f.sma7 - c.high) * atr_den * 100 <= 10 * atr_num
                && c.close < c.open && f.close_pos.num * 100 <= 35 * f.close_pos.den && f.range > 0 && f.upper_wick
                * 100 >= 20 * f.range && t >= 1 && c.low < candles[t - 1].low && -120 * f.dist_close_25.den
                <= f.dist_close_25.num * 100 && f.lower_wick * 100 <= 30 * f.range)
        }),
{
    let x = f.range as int;
    let y = f.sma7 - candles[t].high;
    if f.atr.num <= 0 {
        assert(x * 1 * 100 == x * 100) by (nonlinear_arith);
        assert(y * 1 * 100 == y * 100) by (nonlinear_arith);
    }
}

/// How the stages nest. A bar counts as two BULL (BEAR) bars in a row
/// exactly when it is past the first evaluated bar and it and the bar before
/// it both pass the BULL (BEAR) candidate and score; each later stage of a
/// pipeline implies the one before it; and the BEAR stages do not depend on
/// the BULL thresholds.
pub proof fn lemma_stages_nest(candles: Seq<Candle>, th: RegimeThresholds, th2: RegimeThresholds, t: int)
    requires
        th2.bear_score_min == th.bear_score_min,
    ensures
        stage(candles, th, t, 6) <==> (t > DIAG_START && stage(candles, th, t, 5) && stage(candles, th, t - 1, 5)),
        stage(candles, th, t, 11) <==> (t > DIAG_START && stage(candles, th, t, 10) && stage(candles, th, t - 1, 10)),
        stage(candles, th, t, 7) ==> stage(candles, th, t, 6),
        stage(candles, th, t, 6) ==> stage(candles, th, t, 5),
        stage(candles, th, t, 5) ==> stage(candles, th, t, 4),
        stage(candles, th, t, 4) ==> stage(candles, th, t, 3),
        stage(candles, th, t, 3) ==> stage(candles, th, t, 2),
        stage(candles, th, t, 2) ==> stage(candles, th, t, 1),
        stage(candles, th, t, 1) ==> stage(candles, th, t, 0),
        stage(candles, th, t, 12) ==> stage(candles, th, t, 11),
        stage(candles, th, t, 11) ==> stage(candles, th, t, 10),
        stage(candles, th, t, 10) ==> stage(candles, th, t, 9),
        stage(candles, th, t, 9) ==> stage(candles, th, t, 8),
        stage(candles, th, t, 10) ==> !stage(candles, th, t, 5),
        forall|k: int| 8 <= k <= 12 ==> (#[trigger] stage(candles, th, t, k) == stage(candles, th2, t, k)),
{
}

/// A stage that implies another over every bar is counted no more often.
pub proof fn lemma_count_bars_monotone(lo: int, hi: int, p: spec_fn(int) -> bool, q: spec_fn(int) -> bool)
    requires
        forall|t: int| lo <= t < hi ==> #[trigger] p(t) ==> q(t),
    ensures
        count_bars(lo, hi, p) <= count_bars(lo, hi, q),
    decreases hi - lo,
{
    if hi > lo {
        lemma_count_bars_monotone(lo, hi - 1, p, q);
    }
}

/// What the diagnostic pass counts over the bars it evaluates.
pub struct Diagnostics {
    /// Bars evaluated.
    pub total: u64,
    /// Features of each bar evaluated, in order.
    pub features: Vec<Features>,
    /// Bars passing each stage: BULL stack, + spread, + slope, + close above
    /// SMA25, full candidate, + score, + two bars in a row, + YES filter;
    /// BEAR stack, full candidate, + score, + two bars in a row, + NO filter.
    pub counts: Vec<u64>,
}

pub const STAGES: usize = 13;

/// The diagnostic pass over bars `100..len - 1`; `None` with fewer than 110 bars.
pub fn diagnose(candles: &[Candle], th: &RegimeThresholds) -> (r: Option<Diagnostics>)
    requires
        all_wf(candles@),
        th.wf(),
    ensures
        candles@.len() < DIAG_MIN_BARS <==> r is None,
        r matches Some(d) ==> {
            let n = candles@.len() as int;
            &&& d.total == n - DIAG_START - 1
            &&& d.features@.len() == d.total
            &&& forall|i: int| 0 <= i < d.total ==> #[trigger] d.features@[i] == spec_features(candles@, DIAG_START + i)
            &&& d.counts@.len() == STAGES
            &&& forall|k: int| 0 <= k < STAGES ==> #[trigger] d.counts@[k] == count_bars(
                DIAG_START as int,
                n - 1,
                |t: int| stage(candles@, *th, t, k),
            )
            &&& forall|k: int| 0 <= k < 7 ==> #[trigger] d.counts@[k + 1] <= d.counts@[k]
            &&& forall|k: int| 8 <= k < 12 ==> #[trigger] d.counts@[k + 1] <= d.counts@[k]
        },
{
    let n = candles.len();
    if n < DIAG_MIN_BARS {
        return None;
    }
    let mut counts: Vec<u64> = Vec::new();
    let mut k: usize = 0;
    while k < STAGES
        invariant
            k <= STAGES,
            counts@.len() == k,
            forall|j: int| 0 <= j < k ==> #[trigger] counts@[j] == 0,
        decreases STAGES - k,
    {
        counts.push(0);
        k = k + 1;
    }
    let mut features: Vec<Features> = Vec::new();
    let mut prev_bull = false;
    let mut prev_bear = false;
    let mut t: usize = DIAG_START;
    while t < n - 1
        invariant
            n == candles@.len(),
            DIAG_MIN_BARS <= n,
            DIAG_START <= t <= n - 1,
            all_wf(candles@),
            th.wf(),
            counts@.len() == STAGES,
            forall|j: int| 0 <= j < STAGES ==> #[trigger] counts@[j] == count_bars(
                DIAG_START as int,
                t as int,
                |u: int| stage(candles@, *th, u, j),
            ),
            forall|j: int| 0 <= j < STAGES ==> #[trigger] counts@[j] <= t - DIAG_START,
            features@.len() == t - DIAG_START,
            forall|i: int| 0 <= i < features@.len() ==> #[trigger] features@[i] == spec_features(candles@, DIAG_START + i),
            t > DIAG_START ==> prev_bull == bull_ok(candles@, *th, t - 1),
            t > DIAG_START ==> prev_bear == bear_ok(candles@, *th, t - 1),
            t == DIAG_START ==> !prev_bull && !prev_bear,
        decreases n - 1 - t,
    {
        let f = compute(candles, t);
        let c = &candles[t];
        proof {
            assert(candles@[t as int].wf());
        }
        let stack = f.sma7 > f.sma25 && f.sma25 > f.sma99;
        let spread = stack && th.bull_spread.at_most(&f.spread_7_25);
        let slope = spread && th.bull_slope.at_most(&f.slope_25);
        let above25 = slope && c.close > f.sma25;
        let is_bc = bull_candidate(c, &f, th);
        let bs = bull_score(candles, t, &f);
        let ok_bull = is_bc && bs >= th.bull_score_min;
        let consec_bull = ok_bull && prev_bull;
        let yes = consec_bull && bull_yes_filter(c, &f);
        let bstack = f.sma7 < f.sma25 && f.sma25 < f.sma99;
        let is_brc = bear_candidate(c, &f);
        let brs = bear_score(candles, t, &f);
        let ok_bear = is_brc && brs >= th.bear_score_min;
        let consec_bear = ok_bear && prev_bear;
        let no = consec_bear && bear_no_filter(candles, t, &f);
        let passed: [bool; 13] = [
            stack,
            spread,
            slope,
            above25,
            is_bc,
            ok_bull,
            consec_bull,
            yes,
            bstack,
            is_brc,
            ok_bear,
            consec_bear,
            no,
        ];
        let ghost old_counts = counts@;
        let mut j: usize = 0;
        while j < STAGES
            invariant
                j <= STAGES,
                counts@.len() == STAGES,
                DIAG_START <= t < n - 1,
                forall|i: int| 0 <= i < 13 ==> (#[trigger] passed@[i]) == stage(candles@, *th, t as int, i),
                forall|i: int| 0 <= i < STAGES ==> #[trigger] old_counts[i] <= t - DIAG_START,
                forall|i: int| 0 <= i < j ==> #[trigger] counts@[i] == old_counts[i] + b2i(passed@[i]),
                forall|i: int| j <= i < STAGES ==> #[trigger] counts@[i] == old_counts[i],
            decreases STAGES - j,
        {
            if passed[j] {
                let v = counts[j];
                counts.set(j, v + 1);
            }
            j = j + 1;
        }
        proof {
            assert forall|i: int| 0 <= i < STAGES implies #[trigger] counts@[i] == count_bars(
                DIAG_START as int,
                t as int + 1,
                |u: int| stage(candles@, *th, u, i),
            ) by {
                assert(counts@[i] == old_counts[i] + b2i(passed@[i]));
            }
        }
        features.push(f);
        prev_bull = ok_bull;
        prev_bear = ok_bear;
        t = t + 1;
    }
    proof {
        assert forall|k: int| (0 <= k < 7 || 8 <= k < 12) implies #[trigger] counts@[k + 1] <= counts@[k] by {
            assert forall|u: int| DIAG_START <= u < n - 1 implies #[trigger] stage(candles@, *th, u, k + 1) ==> stage(
                candles@,
                *th,
                u,
                k,
            ) by {
                lemma_stages_nest(candles@, *th, *th, u);
            }
            lemma_count_bars_monotone(
                DIAG_START as int,
                n - 1,
                |u: int| stage(candles@, *th, u, k + 1),
                |u: int| stage(candles@, *th, u, k),
            );
        }
    }
    Some(Diagnostics { total: (n - DIAG_START - 1) as u64, features, counts })
}

/// How many of the values are at least `bound` (with `strict`, above it).
pub open spec fn count_ge(values: Seq<Ratio>, bound: Ratio, strict: bool) -> int
    decreases values.len(),
{
    if values.len() == 0 {
        0
    } else {
        count_ge(values.drop_last(), bound, strict) + b2i(
            if strict { bound.lt(values.last()) } else { bound.le(values.last()) },
        )
    }
}

pub fn count_at_least(values: &Vec<Ratio>, bound: &Ratio, strict: bool) -> (c: u64)
    ensures
        c == count_ge(values@, *bound, strict),
{
    let mut c: u64 = 0;
    let mut i: usize = 0;
    while i < values.len()
        invariant
            i <= values@.len(),
            c == count_ge(values@.take(i as int), *bound, strict),
            c <= i,
        decreases values@.len() - i,
    {
        proof {
            assert(values@.take(i as int + 1).drop_last() =~= values@.take(i as int));
            assert(values@.take(i as int + 1).last() == values@[i as int]);
        }
        let hit = if strict {
            bound.less_than(&values[i])
        } else {
            bound.at_most(&values[i])
        };
        if hit {
            c = c + 1;
        }
        i = i + 1;
    }
    proof {
        assert(values@.take(i as int) =~= values@);
    }
    c
}

} // verus!
