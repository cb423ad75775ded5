//! The order-book (OBI) BEAR trader: aggregation of order-book snapshots per
//! candle, the taker buy ratio, the v2 decision rule, stake sizing and the
//! settlement of pending trades.
use vstd::prelude::*;
use crate::fixed::{div_wide, in_range, lemma_tdiv_bound, max_int, min_int, mul_wide, tdiv, Ratio, MAX_UNITS, SCALE};
use crate::tracker::Outcome;

verus! {

/// Largest fraction of the balance staked on one bet: 0.05.
pub const MAX_BET_PCT: i64 = 5_000_000;

/// Price paid for a bet when no market quote is at hand: 0.505.
pub const DEFAULT_ODDS: i64 = 50_500_000;

/// Winning rate assumed for sizing: 0.555.
pub const WIN_RATE: i64 = 55_500_000;

/// Length of a bar in milliseconds (five minutes).
pub const BAR_MS: i64 = 300_000;

/// Snapshots a candle needs before its order book counts.
pub const MIN_SNAPSHOTS: i64 = 10;

/// Most rows that one aggregation takes in.
pub const MAX_ROWS: usize = 9000;

/// Side of a bet.
#[derive(Clone, Copy, Debug, PartialEq, Eq, Structural)]
pub enum Side {
    Yes,
    No,
    Skip,
}

impl Side {
    /// The label that the trade log stores.
    pub fn label(&self) -> (s: &'static str)
        ensures
            *self == Side::Yes ==> s@ == "YES"@,
            *self == Side::No ==> s@ == "NO"@,
            *self == Side::Skip ==> s@ == "SKIP"@,
    {
        match self {
            Side::Yes => "YES",
            Side::No => "NO",
            Side::Skip => "SKIP",
        }
    }
}

/// Stake for the BEAR trader with decimal odds `odds`: half Kelly, never
/// negative, scaled by the balance and capped at `MAX_BET_PCT` of it. At odds
/// of exactly 1 the Kelly fraction counts as zero.
pub open spec fn spec_kelly_stake(balance: int, win_rate: int, odds: int) -> int {
    let d = odds - SCALE;
    let q = SCALE - win_rate;
    let kelly = if d == 0 {
        0
    } else {
        win_rate - tdiv(q * SCALE, d)
    };
    let half = tdiv(max_int(kelly, 0), 2);
    let raw = tdiv(balance * half, SCALE as int);
    let cap = tdiv(balance * MAX_BET_PCT, SCALE as int);
    min_int(raw, cap)
}

pub fn kelly_stake(balance: i64, win_rate: i64, odds: i64) -> (r: i64)
    requires
        in_range(balance as int),
        in_range(win_rate as int),
        in_range(odds as int),
        in_range(spec_kelly_stake(balance as int, win_rate as int, odds as int)),
    ensures
        r == spec_kelly_stake(balance as int, win_rate as int, odds as int),
        r <= tdiv(balance * MAX_BET_PCT, SCALE as int),
{
    let d: i128 = odds as i128 - SCALE as i128;
    let q: i128 = SCALE as i128 - win_rate as i128;
    let kelly: i128 = if d == 0 {
        0
    } else {
        proof {
            let qs = q * SCALE;
            assert(-200_000_000_000_000_000_000_000 <= qs <= 200_000_000_000_000_000_000_000) by (nonlinear_arith)
                requires qs == q * SCALE, -2_000_000_000_000_000 <= q <= 2_000_000_000_000_000;
            assert(-200_000_000_000_000_000_000_000 <= tdiv(qs, d as int) <= 200_000_000_000_000_000_000_000) by {
                lemma_tdiv_bound(qs, d as int, 200_000_000_000_000_000_000_000);
            }
            assert(-1_000_000_000_000_000 <= win_rate <= 1_000_000_000_000_000);
        }
        (win_rate as i128) - div_wide(q * (SCALE as i128), d)
    };
    let pos: i128 = if kelly > 0 {
        kelly
    } else {
        0
    };
    let half = div_wide(pos, 2);
    proof {
        assert(0 <= pos <= 210_000_000_000_000_000_000_000);
        assert(0 <= half <= 105_000_000_000_000_000_000_000) by (nonlinear_arith)
            requires 0 <= pos <= 210_000_000_000_000_000_000_000, half == pos / 2;
        let bh = balance * half;
        assert(-105_000_000_000_000_000_000_000_000_000_000_000_000 <= bh <= 105_000_000_000_000_000_000_000_000_000_000_000_000) by (nonlinear_arith)
            requires bh == balance * half, -1_000_000_000_000_000 <= balance <= 1_000_000_000_000_000,
                0 <= half <= 105_000_000_000_000_000_000_000;
        let bm = balance * MAX_BET_PCT;
        assert(-5_000_000_000_000_000_000_000 <= bm <= 5_000_000_000_000_000_000_000) by (nonlinear_arith)
            requires bm == balance * MAX_BET_PCT, -1_000_000_000_000_000 <= balance <= 1_000_000_000_000_000;
        lemma_tdiv_bound(bm, SCALE as int, 5_000_000_000_000_000_000_000);
    }
    let raw = div_wide((balance as i128) * half, SCALE as i128);
    let cap = div_wide(mul_wide(balance, MAX_BET_PCT), SCALE as i128);
    if raw <= cap {
        raw as i64
    } else {
        cap as i64
    }
}

proof fn lemma_floor_div_bear(a: int, b: int)
    requires
        a >= 0,
        b > 0,
    ensures
        (a / b) * b <= a < (a / b + 1) * b,
        a / b >= 0,
{
    let q = a / b;
    let m = a % b;
    vstd::arithmetic::div_mod::lemma_fundamental_div_mod(a, b);
    vstd::arithmetic::div_mod::lemma_mod_pos_bound(a, b);
    assert(q * b <= a < (q + 1) * b) by (nonlinear_arith)
        requires a == b * q + m, 0 <= m < b;
    assert(q >= 0) by (nonlinear_arith)
        requires a == b * q + m, 0 <= m < b, a >= 0, b > 0;
}

/// The BEAR stake in decimal odds: for a non-negative balance it is never
/// negative and never above `MAX_BET_PCT` of the balance; at decimal odds of
/// exactly 1 it is zero; above 1 the Kelly fraction is
/// `k = p - (1 - p) / (odds - 1)` with the quotient rounded down:
/// `(p - k) * (odds - 1) <= (1 - p) * 1 < (p - k + 1) * (odds - 1)` in units; and below the cap the stake is the balance times half of the
/// non-negative part of `k`, rounded down.
pub proof fn lemma_bear_stake(balance: int, win_rate: int, odds: int)
    requires
        0 <= balance,
        0 <= win_rate <= SCALE,
    ensures
        ({
            let stake = spec_kelly_stake(balance, win_rate, odds);
            let cap = tdiv(balance * MAX_BET_PCT, SCALE as int);
            let d = odds - SCALE;
            let q = SCALE - win_rate;
            let kelly = if d == 0 { 0 } else { win_rate - tdiv(q * SCALE, d) };
            let half = tdiv(max_int(kelly, 0), 2);
            &&& 0 <= stake <= cap
            &&& d == 0 ==> stake == 0
            &&& d > 0 ==> (win_rate - kelly) * d <= q * SCALE < (win_rate - kelly + 1) * d
            &&& half * 2 <= max_int(kelly, 0) < half * 2 + 2
            &&& tdiv(balance * half, SCALE as int) <= cap ==> stake * SCALE <= balance * half < (stake + 1) * SCALE
        }),
{
    let d = odds - SCALE;
    let q = SCALE - win_rate;
    assert(q * SCALE >= 0) by (nonlinear_arith)
        requires q >= 0;
    if d > 0 {
        lemma_floor_div_bear(q * SCALE, d);
    }
    let kelly = if d == 0 { 0 } else { win_rate - tdiv(q * SCALE, d) };
    let pos = max_int(kelly, 0);
    lemma_floor_div_bear(pos, 2);
    let half = tdiv(pos, 2);
    assert(balance * half >= 0) by (nonlinear_arith)
        requires balance >= 0, half >= 0;
    lemma_floor_div_bear(balance * half, SCALE as int);
    assert(balance * MAX_BET_PCT >= 0) by (nonlinear_arith)
        requires balance >= 0;
    lemma_floor_div_bear(balance * MAX_BET_PCT, SCALE as int);
    if half == 0 {
        assert(balance * half == 0) by (nonlinear_arith)
            requires half == 0;
    }
    let stake = spec_kelly_stake(balance, win_rate, odds);
    assert(stake == min_int(tdiv(balance * half, SCALE as int), tdiv(balance * MAX_BET_PCT, SCALE as int)));
    assert(0 <= stake);
    assert(d == 0 ==> stake == 0);
}

/// Lower edge of the bounce zone of the five-level imbalance: -0.41.
pub const BOUNCE_LOW: i64 = -41_000_000;
/// Upper edge of the bounce zone: -0.35.
pub const BOUNCE_HIGH: i64 = -35_000_000;
/// Imbalance momentum above which an order-book bounce counts as fake: 0.1.
pub const FAKE_BOUNCE_MOMENTUM: i64 = 10_000_000;

/// Taker buy ratio below which takers are selling: 0.45.
pub open spec fn bear_taker() -> Ratio {
    Ratio { num: 45, den: 100 }
}

/// Taker buy ratio from which takers confirm buying: 0.48.
pub open spec fn bull_taker() -> Ratio {
    Ratio { num: 48, den: 100 }
}

/// The BEAR v2 rule over the average five-level imbalance, its momentum
/// (late minus early) and the taker buy ratio.
pub open spec fn spec_decide(obi5_avg: int, obi5_momentum: int, taker: Ratio) -> Side {
    if BOUNCE_LOW <= obi5_avg < BOUNCE_HIGH && bull_taker().le(taker) {
        Side::Yes
    } else if obi5_avg > BOUNCE_HIGH && taker.lt(bear_taker()) {
        Side::No
    } else if obi5_momentum > FAKE_BOUNCE_MOMENTUM && taker.lt(bear_taker()) {
        Side::No
    } else {
        Side::Skip
    }
}

/// BEAR v2 strategy: imbalance zones validated by the taker ratio.
/// Returns the decision and the reason for it.
pub fn decide(obi5_avg: i64, obi5_momentum: i64, taker_ratio: Ratio) -> (r: (Side, &'static str))
    ensures
        r.0 == spec_decide(obi5_avg as int, obi5_momentum as int, taker_ratio),
{
    let bear = Ratio { num: 45, den: 100 };
    let bull = Ratio { num: 48, den: 100 };
    // bounce zone and takers confirm buying
    if obi5_avg >= BOUNCE_LOW && obi5_avg < BOUNCE_HIGH && bull.at_most(&taker_ratio) {
        return (Side::Yes, "bounce zone + taker confirms buying");
    }
    // neutral order book while takers sell
    if obi5_avg > BOUNCE_HIGH && taker_ratio.less_than(&bear) {
        return (Side::No, "neutral OBI + bearish taker flow");
    }
    // the book looks like bouncing while takers sell
    if obi5_momentum > FAKE_BOUNCE_MOMENTUM && taker_ratio.less_than(&bear) {
        return (Side::No, "fake OBI bounce + bearish taker flow");
    }
    (Side::Skip, "no edge")
}

/// The v2 rules over the raw inputs, with the thresholds written out:
/// - YES exactly in the bounce zone `-0.41 <= obi5 < -0.35` with the taker
///   ratio at least 0.48;
/// - NO exactly outside that, with the taker ratio below 0.45, when the
///   imbalance is above -0.35 or its momentum above 0.1 (a fake bounce);
/// - so with a momentum of at most 0.1 (a flat or falling book), NO exactly
///   when the imbalance is above -0.35 and the taker ratio below 0.45;
/// - a taker ratio of 0.45 or more never gives NO;
/// - and SKIP otherwise.
pub proof fn lemma_decide_rules(obi5_avg: int, obi5_momentum: int, taker: Ratio)
    requires
        taker.wf(),
    ensures
        ({
            let d = spec_decide(obi5_avg, obi5_momentum, taker);
            let yes_zone = -41_000_000 <= obi5_avg < -35_000_000 && 48 * taker.den <= taker.num * 100;
            let selling = taker.num * 100 < 45 * taker.den;
            &&& (d == Side::Yes <==> yes_zone)
            &&& (d == Side::No <==> !yes_zone && selling && (obi5_avg > -35_000_000 || obi5_momentum > 10_000_000))
            &&& (d == Side::Skip <==> !yes_zone && !(selling && (obi5_avg > -35_000_000 || obi5_momentum > 10_000_000)))
            &&& obi5_momentum <= 10_000_000 ==> (d == Side::No <==> obi5_avg > -35_000_000 && selling)
            &&& !selling ==> d != Side::No
        }),
{
}

/// Sum of the first components.
pub open spec fn sum_buy(rows: Seq<(i64, i64)>) -> int
    decreases rows.len(),
{
    if rows.len() == 0 {
        0
    } else {
        sum_buy(rows.drop_last()) + rows.last().0
    }
}

/// Sum of the second components.
pub open spec fn sum_total(rows: Seq<(i64, i64)>) -> int
    decreases rows.len(),
{
    if rows.len() == 0 {
        0
    } else {
        sum_total(rows.drop_last()) + rows.last().1
    }
}

/// Taker buy volume over total volume of the given bars; one half where there
/// are none or their volume is not positive.
pub open spec fn spec_taker_ratio(rows: Seq<(i64, i64)>) -> Ratio {
    if rows.len() == 0 || sum_total(rows) <= 0 {
        Ratio { num: 1, den: 2 }
    } else {
        Ratio { num: sum_buy(rows) as i64, den: sum_total(rows) as i64 }
    }
}

proof fn lemma_sums_bounded(rows: Seq<(i64, i64)>)
    requires
        forall|i: int| 0 <= i < rows.len() ==> in_range((#[trigger] rows[i]).0 as int) && in_range(
            rows[i].1 as int,
        ),
    ensures
        -rows.len() * MAX_UNITS <= sum_buy(rows) <= rows.len() * MAX_UNITS,
        -rows.len() * MAX_UNITS <= sum_total(rows) <= rows.len() * MAX_UNITS,
    decreases rows.len(),
{
    if rows.len() > 0 {
        let r = rows.drop_last();
        assert forall|i: int| 0 <= i < r.len() implies in_range((#[trigger] r[i]).0 as int) && in_range(
            r[i].1 as int,
        ) by {
            assert(r[i] == rows[i]);
        }
        lemma_sums_bounded(r);
        assert(rows.last() == rows[rows.len() - 1]);
    }
}

/// Taker buy ratio of the bars given as `(taker buy volume, volume)` pairs.
pub fn taker_ratio(rows: &Vec<(i64, i64)>) -> (r: Ratio)
    requires
        rows@.len() <= MAX_ROWS,
        forall|i: int| 0 <= i < rows@.len() ==> in_range((#[trigger] rows@[i]).0 as int) && in_range(
            rows@[i].1 as int,
        ),
    ensures
        r == spec_taker_ratio(rows@),
        r.wf(),
{
    if rows.len() == 0 {
        return Ratio { num: 1, den: 2 };
    }
    let mut buy: i64 = 0;
    let mut total: i64 = 0;
    let mut i: usize = 0;
    while i < rows.len()
        invariant
            i <= rows@.len() <= MAX_ROWS,
            forall|j: int| 0 <= j < rows@.len() ==> in_range((#[trigger] rows@[j]).0 as int) && in_range(
                rows@[j].1 as int,
            ),
            buy == sum_buy(rows@.take(i as int)),
            total == sum_total(rows@.take(i as int)),
        decreases rows@.len() - i,
    {
        proof {
            let s = rows@.take(i as int + 1);
            assert(s.drop_last() =~= rows@.take(i as int));
            assert(s.last() == rows@[i as int]);
            assert forall|j: int| 0 <= j < s.len() implies in_range((#[trigger] s[j]).0 as int) && in_range(
                s[j].1 as int,
            ) by {
                assert(s[j] == rows@[j]);
            }
            lemma_sums_bounded(s);
            assert(s.len() * MAX_UNITS <= 9000 * MAX_UNITS) by (nonlinear_arith)
                requires s.len() <= 9000;
        }
        let (b, t) = rows[i];
        buy = buy + b;
        total = total + t;
        i = i + 1;
    }
    proof {
        assert(rows@.take(i as int) =~= rows@);
    }
    if total <= 0 {
        return Ratio { num: 1, den: 2 };
    }
    Ratio { num: buy, den: total }
}

/// One order-book snapshot as stored: imbalances, spread and volumes are
/// quantities.
#[derive(Clone, Copy, Debug, PartialEq, Eq, Structural)]
pub struct ObiRow {
    pub timestamp_ms: i64,
    pub obi_5: i64,
    pub obi_10: i64,
    pub obi_20: i64,
    pub spread: i64,
    pub bid_vol_top5: i64,
    pub ask_vol_top5: i64,
}

impl ObiRow {
    pub open spec fn wf(&self) -> bool {
        &&& in_range(self.obi_5 as int)
        &&& in_range(self.obi_10 as int)
        &&& in_range(self.obi_20 as int)
        &&& in_range(self.spread as int)
        &&& in_range(self.bid_vol_top5 as int)
        &&& in_range(self.ask_vol_top5 as int)
    }
}

/// Order-book aggregate of one candle.
#[derive(Clone, Copy, Debug, PartialEq, Eq, Structural)]
pub struct ObiAgg {
    pub count: i64,
    pub obi5_avg: i64,
    pub obi10_avg: i64,
    pub obi20_avg: i64,
    pub spread_avg: i64,
    pub bid_vol5_avg: i64,
    pub ask_vol5_avg: i64,
    pub obi5_min: i64,
    pub obi5_max: i64,
    pub obi5_late: Option<i64>,
    pub obi5_early: Option<i64>,
}

/// Snapshot taken in the last minute of the candle that opened at `open`.
pub open spec fn is_late(r: ObiRow, open: int) -> bool {
    r.timestamp_ms > open + 240_000
}

/// Snapshot taken in the first minute of the candle that opened at `open`.
pub open spec fn is_early(r: ObiRow, open: int) -> bool {
    r.timestamp_ms < open + 60_000
}

/// Sum of `f` over the rows.
pub open spec fn sum_rows(rows: Seq<ObiRow>, f: spec_fn(ObiRow) -> int) -> int
    decreases rows.len(),
{
    if rows.len() == 0 {
        0
    } else {
        sum_rows(rows.drop_last(), f) + f(rows.last())
    }
}

/// Number of rows that satisfy `p`.
pub open spec fn count_rows(rows: Seq<ObiRow>, p: spec_fn(ObiRow) -> bool) -> int
    decreases rows.len(),
{
    if rows.len() == 0 {
        0
    } else {
        count_rows(rows.drop_last(), p) + (if p(rows.last()) { 1int } else { 0int })
    }
}

/// Smallest five-level imbalance of the rows (the first where there are none).
pub open spec fn min_obi5(rows: Seq<ObiRow>) -> int
    decreases rows.len(),
{
    if rows.len() <= 1 {
        if rows.len() == 0 { 0 } else { rows[0].obi_5 as int }
    } else {
        min_int(min_obi5(rows.drop_last()), rows.last().obi_5 as int)
    }
}

/// Largest five-level imbalance of the rows.
pub open spec fn max_obi5(rows: Seq<ObiRow>) -> int
    decreases rows.len(),
{
    if rows.len() <= 1 {
        if rows.len() == 0 { 0 } else { rows[0].obi_5 as int }
    } else {
        max_int(max_obi5(rows.drop_last()), rows.last().obi_5 as int)
    }
}

pub open spec fn avg_of(rows: Seq<ObiRow>, f: spec_fn(ObiRow) -> int) -> int {
    tdiv(sum_rows(rows, f), rows.len() as int)
}

/// Average five-level imbalance of the rows that satisfy `p`, if any do.
pub open spec fn avg_where(rows: Seq<ObiRow>, p: spec_fn(ObiRow) -> bool) -> Option<i64> {
    let n = count_rows(rows, p);
    if n == 0 {
        None
    } else {
        Some(tdiv(sum_rows(rows, |r: ObiRow| if p(r) { r.obi_5 as int } else { 0int }), n) as i64)
    }
}

/// The aggregate of the snapshots of the candle that opened at `open`: the
/// count, averages rounded toward zero, the extremes of the five-level
/// imbalance and its averages over the last and the first minute.
pub open spec fn spec_obi_agg(rows: Seq<ObiRow>, open: int) -> Option<ObiAgg> {
    if rows.len() == 0 {
        None
    } else {
        Some(
            ObiAgg {
                count: rows.len() as i64,
                obi5_avg: avg_of(rows, |r: ObiRow| r.obi_5 as int) as i64,
                obi10_avg: avg_of(rows, |r: ObiRow| r.obi_10 as int) as i64,
                obi20_avg: avg_of(rows, |r: ObiRow| r.obi_20 as int) as i64,
                spread_avg: avg_of(rows, |r: ObiRow| r.spread as int) as i64,
                bid_vol5_avg: avg_of(rows, |r: ObiRow| r.bid_vol_top5 as int) as i64,
                ask_vol5_avg: avg_of(rows, |r: ObiRow| r.ask_vol_top5 as int) as i64,
                obi5_min: min_obi5(rows) as i64,
                obi5_max: max_obi5(rows) as i64,
                obi5_late: avg_where(rows, |r: ObiRow| is_late(r, open)),
                obi5_early: avg_where(rows, |r: ObiRow| is_early(r, open)),
            },
        )
    }
}

proof fn lemma_sum_rows_step(rows: Seq<ObiRow>, i: int, f: spec_fn(ObiRow) -> int)
    requires
        0 <= i < rows.len(),
    ensures
        sum_rows(rows.take(i + 1), f) == sum_rows(rows.take(i), f) + f(rows[i]),
{
    assert(rows.take(i + 1).drop_last() =~= rows.take(i));
}

proof fn lemma_count_rows_step(rows: Seq<ObiRow>, i: int, p: spec_fn(ObiRow) -> bool)
    requires
        0 <= i < rows.len(),
    ensures
        count_rows(rows.take(i + 1), p) == count_rows(rows.take(i), p) + (if p(rows[i]) { 1int } else { 0int }),
        0 <= count_rows(rows.take(i), p) <= i,
    decreases i,
{
    assert(rows.take(i + 1).drop_last() =~= rows.take(i));
    if i > 0 {
        lemma_count_rows_step(rows, i - 1, p);
    } else {
        assert(rows.take(0).len() == 0);
    }
}

proof fn lemma_min_max_step(rows: Seq<ObiRow>, i: int)
    requires
        0 < i < rows.len(),
    ensures
        min_obi5(rows.take(i + 1)) == min_int(min_obi5(rows.take(i)), rows[i].obi_5 as int),
        max_obi5(rows.take(i + 1)) == max_int(max_obi5(rows.take(i)), rows[i].obi_5 as int),
{
    assert(rows.take(i + 1).drop_last() =~= rows.take(i));
}

proof fn lemma_sum_rows_bound(rows: Seq<ObiRow>, f: spec_fn(ObiRow) -> int)
    requires
        forall|j: int| 0 <= j < rows.len() ==> -MAX_UNITS <= #[trigger] f(rows[j]) <= MAX_UNITS,
    ensures
        -rows.len() * MAX_UNITS <= sum_rows(rows, f) <= rows.len() * MAX_UNITS,
    decreases rows.len(),
{
    if rows.len() > 0 {
        let r = rows.drop_last();
        assert forall|j: int| 0 <= j < r.len() implies -MAX_UNITS <= #[trigger] f(r[j]) <= MAX_UNITS by {
            assert(r[j] == rows[j]);
        }
        lemma_sum_rows_bound(r, f);
        assert(rows.last() == rows[rows.len() - 1]);
    }
}

proof fn lemma_rows_of_one_kind(rows: Seq<ObiRow>, r0: ObiRow, f: spec_fn(ObiRow) -> int, p: spec_fn(ObiRow) -> bool)
    requires
        forall|i: int| 0 <= i < rows.len() ==> #[trigger] rows[i] == r0,
    ensures
        sum_rows(rows, f) == rows.len() * f(r0),
        count_rows(rows, p) == (if p(r0) { rows.len() as int } else { 0 }),
        rows.len() >= 1 ==> min_obi5(rows) == r0.obi_5 && max_obi5(rows) == r0.obi_5,
    decreases rows.len(),
{
    if rows.len() > 0 {
        let r = rows.drop_last();
        assert forall|i: int| 0 <= i < r.len() implies #[trigger] r[i] == r0 by {
            assert(r[i] == rows[i]);
        }
        lemma_rows_of_one_kind(r, r0, f, p);
        assert(rows.last() == rows[rows.len() - 1]);
        assert((rows.len() - 1) * f(r0) + f(r0) == rows.len() * f(r0)) by (nonlinear_arith);
        if rows.len() == 1 {
            assert(rows[0] == r0);
        }
    } else {
        assert(rows.len() * f(r0) == 0) by (nonlinear_arith)
            requires rows.len() == 0;
    }
}

/// The aggregate of snapshots that are all alike is that snapshot: the count
/// is their number, each average, the least and the greatest imbalance are
/// its values, and the late (early) average is its imbalance when it was
/// taken in the last (first) minute of the candle and absent otherwise.
pub proof fn lemma_obi_agg_of_alike_rows(rows: Seq<ObiRow>, r0: ObiRow, open: int)
    requires
        rows.len() >= 1,
        forall|i: int| 0 <= i < rows.len() ==> #[trigger] rows[i] == r0,
        rows.len() <= i64::MAX,
    ensures
        ({
            let a = spec_obi_agg(rows, open).unwrap();
            &&& spec_obi_agg(rows, open) is Some
            &&& a.count == rows.len()
            &&& a.obi5_avg == r0.obi_5 && a.obi10_avg == r0.obi_10 && a.obi20_avg == r0.obi_20
            &&& a.spread_avg == r0.spread && a.bid_vol5_avg == r0.bid_vol_top5 && a.ask_vol5_avg == r0.ask_vol_top5
            &&& a.obi5_min == r0.obi_5 && a.obi5_max == r0.obi_5
            &&& a.obi5_late == (if r0.timestamp_ms > open + 240_000 { Some(r0.obi_5) } else { None })
            &&& a.obi5_early == (if r0.timestamp_ms < open + 60_000 { Some(r0.obi_5) } else { None })
        }),
{
    let n = rows.len() as int;
    let plate = |r: ObiRow| is_late(r, open);
    let pearly = |r: ObiRow| is_early(r, open);
    let fs: Seq<spec_fn(ObiRow) -> int> = seq![
        |r: ObiRow| r.obi_5 as int,
        |r: ObiRow| r.obi_10 as int,
        |r: ObiRow| r.obi_20 as int,
        |r: ObiRow| r.spread as int,
        |r: ObiRow| r.bid_vol_top5 as int,
        |r: ObiRow| r.ask_vol_top5 as int,
        |r: ObiRow| if plate(r) { r.obi_5 as int } else { 0int },
        |r: ObiRow| if pearly(r) { r.obi_5 as int } else { 0int },
    ];
    assert forall|k: int| 0 <= k < 8 implies #[trigger] tdiv(sum_rows(rows, fs[k]), n) == fs[k](r0) by {
        lemma_rows_of_one_kind(rows, r0, fs[k], plate);
        let v = fs[k](r0);
        if v >= 0 {
            assert(n * v >= 0 && (n * v) / n == v) by (nonlinear_arith)
                requires n >= 1, v >= 0;
        } else {
            assert(n * v < 0 && (-(n * v)) / n == -v) by (nonlinear_arith)
                requires n >= 1, v < 0;
        }
    }
    lemma_rows_of_one_kind(rows, r0, fs[0], plate);
    lemma_rows_of_one_kind(rows, r0, fs[0], pearly);
    assert(tdiv(sum_rows(rows, fs[0]), n) == fs[0](r0));
    assert(tdiv(sum_rows(rows, fs[1]), n) == fs[1](r0));
    assert(tdiv(sum_rows(rows, fs[2]), n) == fs[2](r0));
    assert(tdiv(sum_rows(rows, fs[3]), n) == fs[3](r0));
    assert(tdiv(sum_rows(rows, fs[4]), n) == fs[4](r0));
    assert(tdiv(sum_rows(rows, fs[5]), n) == fs[5](r0));
    assert(tdiv(sum_rows(rows, fs[6]), n) == fs[6](r0));
    assert(tdiv(sum_rows(rows, fs[7]), n) == fs[7](r0));
}

fn add_field(acc: &mut i128, v: i64, Ghost(rows): Ghost<Seq<ObiRow>>, Ghost(i): Ghost<int>, Ghost(f): Ghost<spec_fn(ObiRow) -> int>)
    requires
        0 <= i < rows.len() <= i64::MAX,
        *old(acc) == sum_rows(rows.take(i), f),
        v == f(rows[i]),
        forall|j: int| 0 <= j < rows.len() ==> -MAX_UNITS <= #[trigger] f(rows[j]) <= MAX_UNITS,
    ensures
        *final(acc) == sum_rows(rows.take(i + 1), f),
{
    proof {
        lemma_sum_rows_step(rows, i, f);
        let s = rows.take(i + 1);
        assert forall|j: int| 0 <= j < s.len() implies -MAX_UNITS <= #[trigger] f(s[j]) <= MAX_UNITS by {
            assert(s[j] == rows[j]);
        }
        lemma_sum_rows_bound(s, f);
        assert(s.len() * MAX_UNITS <= 0x8000_0000_0000_0000 * MAX_UNITS) by (nonlinear_arith)
            requires s.len() <= 0x8000_0000_0000_0000;
    }
    *acc = *acc + v as i128;
}

/// Aggregates the snapshots of the candle that opened at `candle_open_time`;
/// `None` where there are none.
pub fn obi_for_candle(rows: &Vec<ObiRow>, candle_open_time: i64) -> (r: Option<ObiAgg>)
    requires
        rows@.len() <= i64::MAX,
        forall|j: int| 0 <= j < rows@.len() ==> (#[trigger] rows@[j]).wf(),
    ensures
        r == spec_obi_agg(rows@, candle_open_time as int),
{
    let n = rows.len();
    if n == 0 {
        return None;
    }
    let ghost f5 = |r: ObiRow| r.obi_5 as int;
    let ghost f10 = |r: ObiRow| r.obi_10 as int;
    let ghost f20 = |r: ObiRow| r.obi_20 as int;
    let ghost fsp = |r: ObiRow| r.spread as int;
    let ghost fbid = |r: ObiRow| r.bid_vol_top5 as int;
    let ghost fask = |r: ObiRow| r.ask_vol_top5 as int;
    let ghost open = candle_open_time as int;
    let ghost plate = |r: ObiRow| is_late(r, open);
    let ghost pearly = |r: ObiRow| is_early(r, open);
    let ghost flate = |r: ObiRow| if plate(r) { r.obi_5 as int } else { 0int };
    let ghost fearly = |r: ObiRow| if pearly(r) { r.obi_5 as int } else { 0int };
    let mut s5: i128 = 0;
    let mut s10: i128 = 0;
    let mut s20: i128 = 0;
    let mut ssp: i128 = 0;
    let mut sbid: i128 = 0;
    let mut sask: i128 = 0;
    let mut slate: i128 = 0;
    let mut searly: i128 = 0;
    let mut nlate: i64 = 0;
    let mut nearly: i64 = 0;
    let mut lo: i64 = rows[0].obi_5;
    let mut hi: i64 = rows[0].obi_5;
    let late_edge: i128 = candle_open_time as i128 + 240_000;
    let early_edge: i128 = candle_open_time as i128 + 60_000;
    let mut i: usize = 0;
    proof {
        assert(rows@.take(1) =~= seq![rows@[0]]);
    }
    while i < n
        invariant
            n == rows@.len() <= i64::MAX,
            0 < n,
            i <= n,
            forall|j: int| 0 <= j < rows@.len() ==> (#[trigger] rows@[j]).wf(),
            late_edge == open + 240_000,
            early_edge == open + 60_000,
            open == candle_open_time,
            f5 == (|r: ObiRow| r.obi_5 as int),
            f10 == (|r: ObiRow| r.obi_10 as int),
            f20 == (|r: ObiRow| r.obi_20 as int),
            fsp == (|r: ObiRow| r.spread as int),
            fbid == (|r: ObiRow| r.bid_vol_top5 as int),
            fask == (|r: ObiRow| r.ask_vol_top5 as int),
            plate == (|r: ObiRow| is_late(r, open)),
            pearly == (|r: ObiRow| is_early(r, open)),
            flate == (|r: ObiRow| if plate(r) { r.obi_5 as int } else { 0int }),
            fearly == (|r: ObiRow| if pearly(r) { r.obi_5 as int } else { 0int }),
            s5 == sum_rows(rows@.take(i as int), f5),
            s10 == sum_rows(rows@.take(i as int), f10),
            s20 == sum_rows(rows@.take(i as int), f20),
            ssp == sum_rows(rows@.take(i as int), fsp),
            sbid == sum_rows(rows@.take(i as int), fbid),
            sask == sum_rows(rows@.take(i as int), fask),
            slate == sum_rows(rows@.take(i as int), flate),
            searly == sum_rows(rows@.take(i as int), fearly),
            nlate == count_rows(rows@.take(i as int), plate),
            nearly == count_rows(rows@.take(i as int), pearly),
            i == 0 ==> lo == rows@[0].obi_5 && hi == rows@[0].obi_5,
            i > 0 ==> lo == min_obi5(rows@.take(i as int)) && hi == max_obi5(rows@.take(i as int)),
        decreases n - i,
    {
        let r = rows[i];
        proof {
            assert(r == rows@[i as int]);
            assert(r.wf());
            assert forall|j: int| 0 <= j < rows@.len() implies -MAX_UNITS <= #[trigger] flate(rows@[j]) <= MAX_UNITS by {
                assert(rows@[j].wf());
            }
            assert forall|j: int| 0 <= j < rows@.len() implies -MAX_UNITS <= #[trigger] fearly(rows@[j]) <= MAX_UNITS by {
                assert(rows@[j].wf());
            }
            assert forall|j: int| 0 <= j < rows@.len() implies -MAX_UNITS <= #[trigger] f5(rows@[j]) <= MAX_UNITS by {
                assert(rows@[j].wf());
            }
            assert forall|j: int| 0 <= j < rows@.len() implies -MAX_UNITS <= #[trigger] f10(rows@[j]) <= MAX_UNITS by {
                assert(rows@[j].wf());
            }
            assert forall|j: int| 0 <= j < rows@.len() implies -MAX_UNITS <= #[trigger] f20(rows@[j]) <= MAX_UNITS by {
                assert(rows@[j].wf());
            }
            assert forall|j: int| 0 <= j < rows@.len() implies -MAX_UNITS <= #[trigger] fsp(rows@[j]) <= MAX_UNITS by {
                assert(rows@[j].wf());
            }
            assert forall|j: int| 0 <= j < rows@.len() implies -MAX_UNITS <= #[trigger] fbid(rows@[j]) <= MAX_UNITS by {
                assert(rows@[j].wf());
            }
            assert forall|j: int| 0 <= j < rows@.len() implies -MAX_UNITS <= #[trigger] fask(rows@[j]) <= MAX_UNITS by {
                assert(rows@[j].wf());
            }
            lemma_count_rows_step(rows@, i as int, plate);
            lemma_count_rows_step(rows@, i as int, pearly);
            if i > 0 {
                lemma_min_max_step(rows@, i as int);
            }
        }
        add_field(&mut s5, r.obi_5, Ghost(rows@), Ghost(i as int), Ghost(f5));
        add_field(&mut s10, r.obi_10, Ghost(rows@), Ghost(i as int), Ghost(f10));
        add_field(&mut s20, r.obi_20, Ghost(rows@), Ghost(i as int), Ghost(f20));
        add_field(&mut ssp, r.spread, Ghost(rows@), Ghost(i as int), Ghost(fsp));
        add_field(&mut sbid, r.bid_vol_top5, Ghost(rows@), Ghost(i as int), Ghost(fbid));
        add_field(&mut sask, r.ask_vol_top5, Ghost(rows@), Ghost(i as int), Ghost(fask));
        let is_l = (r.timestamp_ms as i128) > late_edge;
        let is_e = (r.timestamp_ms as i128) < early_edge;
        let vl: i64 = if is_l { r.obi_5 } else { 0 };
        let ve: i64 = if is_e { r.obi_5 } else { 0 };
        add_field(&mut slate, vl, Ghost(rows@), Ghost(i as int), Ghost(flate));
        add_field(&mut searly, ve, Ghost(rows@), Ghost(i as int), Ghost(fearly));
        if is_l {
            nlate = nlate + 1;
        }
        if is_e {
            nearly = nearly + 1;
        }
        if r.obi_5 < lo {
            lo = r.obi_5;
        }
        if r.obi_5 > hi {
            hi = r.obi_5;
        }
        i = i + 1;
        proof {
            if i == 1 {
                assert(rows@.take(1) =~= seq![rows@[0]]);
            }
        }
    }
    proof {
        assert(rows@.take(n as int) =~= rows@);
        assert forall|j: int| 0 <= j < rows@.len() implies -MAX_UNITS <= #[trigger] flate(rows@[j]) <= MAX_UNITS by {
            assert(rows@[j].wf());
        }
        assert forall|j: int| 0 <= j < rows@.len() implies -MAX_UNITS <= #[trigger] fearly(rows@[j]) <= MAX_UNITS by {
            assert(rows@[j].wf());
        }
        lemma_sum_rows_bound(rows@, flate);
        lemma_sum_rows_bound(rows@, fearly);
        assert forall|j: int| 0 <= j < rows@.len() implies -MAX_UNITS <= #[trigger] f5(rows@[j]) <= MAX_UNITS by {
            assert(rows@[j].wf());
        }
        lemma_sum_rows_bound(rows@, f5);
        assert forall|j: int| 0 <= j < rows@.len() implies -MAX_UNITS <= #[trigger] f10(rows@[j]) <= MAX_UNITS by {
            assert(rows@[j].wf());
        }
        lemma_sum_rows_bound(rows@, f10);
        assert forall|j: int| 0 <= j < rows@.len() implies -MAX_UNITS <= #[trigger] f20(rows@[j]) <= MAX_UNITS by {
            assert(rows@[j].wf());
        }
        lemma_sum_rows_bound(rows@, f20);
        assert forall|j: int| 0 <= j < rows@.len() implies -MAX_UNITS <= #[trigger] fsp(rows@[j]) <= MAX_UNITS by {
            assert(rows@[j].wf());
        }
        lemma_sum_rows_bound(rows@, fsp);
        assert forall|j: int| 0 <= j < rows@.len() implies -MAX_UNITS <= #[trigger] fbid(rows@[j]) <= MAX_UNITS by {
            assert(rows@[j].wf());
        }
        lemma_sum_rows_bound(rows@, fbid);
        assert forall|j: int| 0 <= j < rows@.len() implies -MAX_UNITS <= #[trigger] fask(rows@[j]) <= MAX_UNITS by {
            assert(rows@[j].wf());
        }
        lemma_sum_rows_bound(rows@, fask);
        assert(n * MAX_UNITS <= 0x8000_0000_0000_0000 * MAX_UNITS) by (nonlinear_arith)
            requires n <= 0x8000_0000_0000_0000;
    }
    let cnt = n as i64;
    let late = if nlate == 0 {
        None
    } else {
        Some(div_wide(slate, nlate as i128) as i64)
    };
    let early = if nearly == 0 {
        None
    } else {
        Some(div_wide(searly, nearly as i128) as i64)
    };
    Some(
        ObiAgg {
            count: cnt,
            obi5_avg: div_wide(s5, cnt as i128) as i64,
            obi10_avg: div_wide(s10, cnt as i128) as i64,
            obi20_avg: div_wide(s20, cnt as i128) as i64,
            spread_avg: div_wide(ssp, cnt as i128) as i64,
            bid_vol5_avg: div_wide(sbid, cnt as i128) as i64,
            ask_vol5_avg: div_wide(sask, cnt as i128) as i64,
            obi5_min: lo,
            obi5_max: hi,
            obi5_late: late,
            obi5_early: early,
        },
    )
}

/// The side that a stored decision label names: `YES`, `NO`, anything else a skip.
pub open spec fn spec_side_of_label(label: Seq<u8>) -> Side {
    if label =~= seq![89u8, 69u8, 83u8] {
        Side::Yes
    } else if label =~= seq![78u8, 79u8] {
        Side::No
    } else {
        Side::Skip
    }
}

pub fn side_from_label(label: &[u8]) -> (s: Side)
    ensures
        s == spec_side_of_label(label@),
{
    if label.len() == 3 && label[0] == 89u8 && label[1] == 69u8 && label[2] == 83u8 {
        proof {
            assert(label@ =~= seq![89u8, 69u8, 83u8]);
        }
        Side::Yes
    } else if label.len() == 2 && label[0] == 78u8 && label[1] == 79u8 {
        proof {
            assert(label@ =~= seq![78u8, 79u8]);
            assert(!(label@ =~= seq![89u8, 69u8, 83u8]));
        }
        Side::No
    } else {
        proof {
            if label@ =~= seq![89u8, 69u8, 83u8] {
                assert(label@[0] == 89u8 && label@[1] == 69u8 && label@[2] == 83u8);
            }
            if label@ =~= seq![78u8, 79u8] {
                assert(label@[0] == 78u8 && label@[1] == 79u8);
            }
        }
        Side::Skip
    }
}

/// Open and close of a bar, with its times.
#[derive(Clone, Copy, Debug, PartialEq, Eq, Structural)]
pub struct CandleInfo {
    pub open_time: i64,
    pub close_time: i64,
    pub open: i64,
    pub close: i64,
}

/// A trade of the BEAR trader as its log keeps it.
#[derive(Clone, Debug)]
pub struct BearTrade {
    pub id: Option<i64>,
    pub candle_open_time: i64,
    pub decision: Side,
    pub obi5: i64,
    pub obi10: i64,
    pub obi20: i64,
    pub obi5_late: Option<i64>,
    pub obi5_early: Option<i64>,
    pub obi5_momentum: Option<i64>,
    pub bid_ask_ratio_5: Option<Ratio>,
    pub spread: Option<i64>,
    pub stake: i64,
    pub odds: i64,
    pub entry_price: Option<i64>,
    pub exit_price: Option<i64>,
    pub outcome: Option<String>,
    pub pnl: Option<i64>,
    pub balance_at_entry: i64,
}

impl ObiAgg {
    /// Every aggregate lies within the representable range.
    pub open spec fn wf(&self) -> bool {
        &&& in_range(self.obi5_avg as int)
        &&& in_range(self.obi10_avg as int)
        &&& in_range(self.obi20_avg as int)
        &&& in_range(self.spread_avg as int)
        &&& in_range(self.bid_vol5_avg as int)
        &&& in_range(self.ask_vol5_avg as int)
        &&& (self.obi5_late matches Some(v) ==> in_range(v as int))
        &&& (self.obi5_early matches Some(v) ==> in_range(v as int))
    }
}

/// The candle has enough order-book snapshots to trade on.
pub open spec fn spec_enough_obi(agg: Option<ObiAgg>) -> bool {
    agg matches Some(a) && a.count >= MIN_SNAPSHOTS
}

pub fn has_enough_obi(agg: &Option<ObiAgg>) -> (b: bool)
    ensures
        b == spec_enough_obi(*agg),
{
    match agg {
        Some(a) => a.count >= MIN_SNAPSHOTS,
        None => false,
    }
}

/// The trade logged for a candle without enough order-book data: a skip
/// with no stake, entered at the candle's close.
pub fn insufficient_obi_trade(candle_open_time: i64, close: i64, balance: i64) -> (t: BearTrade)
    ensures
        t.decision == Side::Skip,
        t.candle_open_time == candle_open_time,
        t.stake == 0,
        t.odds == DEFAULT_ODDS,
        t.obi5 == 0 && t.obi10 == 0 && t.obi20 == 0,
        t.obi5_late is None && t.obi5_early is None && t.obi5_momentum is None,
        t.bid_ask_ratio_5 is None && t.spread is None,
        t.entry_price == Some(close),
        t.exit_price is None && t.outcome is None && t.pnl is None && t.id is None,
        t.balance_at_entry == balance,
{
    BearTrade {
        id: None,
        candle_open_time,
        decision: Side::Skip,
        obi5: 0,
        obi10: 0,
        obi20: 0,
        obi5_late: None,
        obi5_early: None,
        obi5_momentum: None,
        bid_ask_ratio_5: None,
        spread: None,
        stake: 0,
        odds: DEFAULT_ODDS,
        entry_price: Some(close),
        exit_price: None,
        outcome: None,
        pnl: None,
        balance_at_entry: balance,
    }
}

/// Imbalance momentum of a candle: its last-minute average less its
/// first-minute average, zero unless both exist.
pub open spec fn spec_obi_momentum(agg: ObiAgg) -> int {
    match (agg.obi5_late, agg.obi5_early) {
        (Some(late), Some(early)) => late - early,
        _ => 0,
    }
}

/// The trade for a candle with enough order-book data: the v2 decision over
/// its imbalance, momentum and the taker ratio, staked by `kelly_stake`
/// unless it is a skip. Returns the trade and the reason for the decision.
pub fn plan_trade(candle_open_time: i64, close: i64, agg: &ObiAgg, taker: Ratio, balance: i64) -> (r: (
    BearTrade,
    &'static str,
))
    requires
        agg.wf(),
        in_range(balance as int),
        in_range(spec_kelly_stake(balance as int, WIN_RATE as int, DEFAULT_ODDS as int)),
    ensures
        ({
            let t = r.0;
            let mom = spec_obi_momentum(*agg);
            &&& t.decision == spec_decide(agg.obi5_avg as int, mom, taker)
            &&& t.candle_open_time == candle_open_time
            &&& t.obi5 == agg.obi5_avg && t.obi10 == agg.obi10_avg && t.obi20 == agg.obi20_avg
            &&& t.obi5_late == agg.obi5_late && t.obi5_early == agg.obi5_early
            &&& t.obi5_momentum == Some(mom as i64)
            &&& t.bid_ask_ratio_5 == (if agg.ask_vol5_avg > 0 {
                Some(Ratio { num: agg.bid_vol5_avg, den: agg.ask_vol5_avg })
            } else {
                None
            })
            &&& t.spread == Some(agg.spread_avg)
            &&& t.stake == (if t.decision == Side::Skip {
                0
            } else {
                spec_kelly_stake(balance as int, WIN_RATE as int, DEFAULT_ODDS as int)
            })
            &&& t.odds == DEFAULT_ODDS
            &&& t.entry_price == Some(close)
            &&& t.exit_price is None && t.outcome is None && t.pnl is None && t.id is None
            &&& t.balance_at_entry == balance
        }),
{
    let mom: i64 = match (agg.obi5_late, agg.obi5_early) {
        (Some(late), Some(early)) => late - early,
        _ => 0,
    };
    let (decision, reason) = decide(agg.obi5_avg, mom, taker);
    let stake = if decision == Side::Skip {
        0
    } else {
        kelly_stake(balance, WIN_RATE, DEFAULT_ODDS)
    };
    let ratio = if agg.ask_vol5_avg > 0 {
        Some(Ratio { num: agg.bid_vol5_avg, den: agg.ask_vol5_avg })
    } else {
        None
    };
    let trade = BearTrade {
        id: None,
        candle_open_time,
        decision,
        obi5: agg.obi5_avg,
        obi10: agg.obi10_avg,
        obi20: agg.obi20_avg,
        obi5_late: agg.obi5_late,
        obi5_early: agg.obi5_early,
        obi5_momentum: Some(mom),
        bid_ask_ratio_5: ratio,
        spread: Some(agg.spread_avg),
        stake,
        odds: DEFAULT_ODDS,
        entry_price: Some(close),
        exit_price: None,
        outcome: None,
        pnl: None,
        balance_at_entry: balance,
    };
    (trade, reason)
}

/// What the trader does with the latest closed candle.
#[derive(Clone, Copy, Debug, PartialEq, Eq, Structural)]
pub enum CandleAction {
    /// The candle was looked at already.
    Ignore,
    /// A trade for the candle is logged already: note it and do not trade.
    Seen,
    /// Trade the candle.
    Trade,
}

/// The action on the latest closed candle, opened at `candle_open`, after the
/// candle last looked at opened at `last_open`, and the new `last_open`.
pub open spec fn spec_candle_action(last_open: i64, candle_open: i64, already_traded: bool) -> (CandleAction, i64) {
    if candle_open == last_open {
        (CandleAction::Ignore, last_open)
    } else if already_traded {
        (CandleAction::Seen, candle_open)
    } else {
        (CandleAction::Trade, candle_open)
    }
}

pub fn candle_action(last_open: i64, candle_open: i64, already_traded: bool) -> (r: (CandleAction, i64))
    ensures
        r == spec_candle_action(last_open, candle_open, already_traded),
{
    if candle_open == last_open {
        (CandleAction::Ignore, last_open)
    } else if already_traded {
        (CandleAction::Seen, candle_open)
    } else {
        (CandleAction::Trade, candle_open)
    }
}

/// At most one trade per candle: a candle with a trade logged is never
/// traded, and once a candle is traded, looking at it again does nothing.
pub proof fn lemma_one_trade_per_candle(last_open: i64, candle_open: i64, already_traded: bool, traded_again: bool)
    ensures
        already_traded ==> spec_candle_action(last_open, candle_open, already_traded).0 != CandleAction::Trade,
        ({
            let (a, last) = spec_candle_action(last_open, candle_open, already_traded);
            a == CandleAction::Trade ==> spec_candle_action(last, candle_open, traded_again).0 == CandleAction::Ignore
        }),
{
}

/// What to do with a pending trade.
#[derive(Clone, Copy, Debug, PartialEq, Eq, Structural)]
pub enum PendingStep {
    /// The next bar is not in yet; look again later.
    Wait,
    /// The next bar never came; mark the trade a skip with no profit.
    Expire,
    /// Settle with this outcome and profit; `balance` is the balance after it.
    Settle { outcome: Outcome, pnl: i64, exit_price: i64, balance: i64 },
}

/// Profit of a settled BEAR trade: a win pays `stake / odds - stake` at the
/// default odds, a loss costs the stake.
pub open spec fn spec_bear_pnl(stake: int, won: bool) -> int {
    if won {
        tdiv(stake * SCALE, DEFAULT_ODDS as int) - stake
    } else {
        -stake
    }
}

/// A trade wins when it bet YES and the next bar closed at or above its open,
/// or bet NO and it closed below.
pub open spec fn spec_bear_wins(decision: Side, next: CandleInfo) -> bool {
    (decision == Side::Yes && next.close >= next.open) || (decision == Side::No && next.close < next.open)
}

/// How a trade settles on its next bar: a skip as a skip, a bet as a win
/// or a loss.
pub open spec fn spec_bear_outcome(decision: Side, next: CandleInfo) -> Outcome {
    if decision == Side::Skip {
        Outcome::Skip
    } else if spec_bear_wins(decision, next) {
        Outcome::Win
    } else {
        Outcome::Loss
    }
}

/// Profit of a trade settled on its next bar: none for a skip.
pub open spec fn spec_bear_settle_pnl(decision: Side, stake: int, next: CandleInfo) -> int {
    if decision == Side::Skip {
        0
    } else {
        spec_bear_pnl(stake, spec_bear_wins(decision, next))
    }
}

/// Open time of the bar after the one that opened at `open_time`.
pub fn next_open_time(open_time: i64) -> (r: i64)
    requires
        open_time <= i64::MAX - BAR_MS,
    ensures
        r == open_time + BAR_MS,
{
    open_time + BAR_MS
}

/// The step for a pending trade on the bar that opened at `candle_open_time`,
/// given the bar after it if it is in, the time now and the balance.
pub fn pending_step(
    decision: Side,
    stake: i64,
    candle_open_time: i64,
    next: Option<CandleInfo>,
    now_ms: i64,
    balance: i64,
) -> (r: PendingStep)
    requires
        in_range(stake as int),
        in_range(balance as int),
        in_range(balance + spec_bear_pnl(stake as int, true)),
        in_range(balance + spec_bear_pnl(stake as int, false)),
    ensures
        match next {
            None => r == (if now_ms > candle_open_time + BAR_MS + 600_000 {
                PendingStep::Expire
            } else {
                PendingStep::Wait
            }),
            Some(c) => r == PendingStep::Settle {
                outcome: spec_bear_outcome(decision, c),
                pnl: spec_bear_settle_pnl(decision, stake as int, c) as i64,
                exit_price: c.close,
                balance: (balance + spec_bear_settle_pnl(decision, stake as int, c)) as i64,
            },
        },
{
    match next {
        None => {
            if now_ms as i128 > candle_open_time as i128 + (BAR_MS as i128) + 600_000 {
                PendingStep::Expire
            } else {
                PendingStep::Wait
            }
        },
        Some(c) => {
            if decision == Side::Skip {
                return PendingStep::Settle { outcome: Outcome::Skip, pnl: 0, exit_price: c.close, balance };
            }
            let went_up = c.close >= c.open;
            let won = (decision == Side::Yes && went_up) || (decision == Side::No && !went_up);
            let pnl: i64 = if won {
                proof {
                    assert(-100_000_000_000_000_000_000_000 <= stake * SCALE <= 100_000_000_000_000_000_000_000)
                        by (nonlinear_arith)
                        requires -1_000_000_000_000_000 <= stake <= 1_000_000_000_000_000;
                    lemma_tdiv_bound(stake * SCALE, DEFAULT_ODDS as int, 100_000_000_000_000_000_000_000);
                }
                let g = div_wide(mul_wide(stake, SCALE), DEFAULT_ODDS as i128);
                (g - stake as i128) as i64
            } else {
                -stake
            };
            PendingStep::Settle {
                outcome: if won { Outcome::Win } else { Outcome::Loss },
                pnl,
                exit_price: c.close,
                balance: balance + pnl,
            }
        },
    }
}

/// On any next bar, a YES trade and a NO trade never both win and never both
/// lose, and a skip never wins.
pub proof fn lemma_bear_sides(next: CandleInfo)
    ensures
        spec_bear_wins(Side::Yes, next) != spec_bear_wins(Side::No, next),
        !spec_bear_wins(Side::Skip, next),
{
}

/// A skipped trade settles as a skip, apart from wins and losses, and moves
/// no money whatever its stake and its next bar.
pub proof fn lemma_skip_settles_flat(stake: int, next: CandleInfo)
    ensures
        spec_bear_outcome(Side::Skip, next) == Outcome::Skip,
        spec_bear_settle_pnl(Side::Skip, stake, next) == 0,
{
}

/// Where every bar's taker buy volume lies between zero and its volume, the
/// taker ratio lies between zero and one.
pub proof fn lemma_taker_ratio_in_unit_interval(rows: Seq<(i64, i64)>)
    requires
        forall|i: int| 0 <= i < rows.len() ==> 0 <= (#[trigger] rows[i]).0 <= rows[i].1,
        rows.len() <= MAX_ROWS,
        forall|i: int| 0 <= i < rows.len() ==> in_range((#[trigger] rows[i]).0 as int) && in_range(
            rows[i].1 as int,
        ),
    ensures
        Ratio::zero().le(spec_taker_ratio(rows)),
        spec_taker_ratio(rows).le(Ratio::one()),
{
    lemma_sums_ordered(rows);
    lemma_sums_bounded(rows);
    assert(rows.len() * MAX_UNITS <= 9000 * MAX_UNITS) by (nonlinear_arith)
        requires rows.len() <= 9000;
}

proof fn lemma_sums_ordered(rows: Seq<(i64, i64)>)
    requires
        forall|i: int| 0 <= i < rows.len() ==> 0 <= (#[trigger] rows[i]).0 <= rows[i].1,
    ensures
        0 <= sum_buy(rows) <= sum_total(rows),
    decreases rows.len(),
{
    if rows.len() > 0 {
        let r = rows.drop_last();
        assert forall|i: int| 0 <= i < r.len() implies 0 <= (#[trigger] r[i]).0 <= r[i].1 by {
            assert(r[i] == rows[i]);
        }
        lemma_sums_ordered(r);
        assert(rows.last() == rows[rows.len() - 1]);
    }
}

/// Settling a BEAR trade on its next bar: a YES trade wins exactly when the
/// bar closes at or above its open, a NO trade exactly when it closes below,
/// a skip settles as a skip; a win pays `stake / odds - stake` at the default
/// odds (the quotient rounded toward zero), a loss costs the stake, a skip
/// nothing.
pub proof fn lemma_bear_settlement(stake: int, next: CandleInfo)
    requires
        stake >= 0,
    ensures
        spec_bear_outcome(Side::Yes, next) == (if next.close >= next.open { Outcome::Win } else { Outcome::Loss }),
        spec_bear_outcome(Side::No, next) == (if next.close < next.open { Outcome::Win } else { Outcome::Loss }),
        spec_bear_outcome(Side::Skip, next) == Outcome::Skip,
        spec_bear_pnl(stake, false) == -stake,
        ({
            let back = spec_bear_pnl(stake, true) + stake;
            &&& back >= stake
            &&& back * DEFAULT_ODDS <= stake * SCALE < (back + 1) * DEFAULT_ODDS
        }),
{
    let a = stake * SCALE;
    assert(a >= 0) by (nonlinear_arith)
        requires stake >= 0, a == stake * 100_000_000;
    let q = a / (DEFAULT_ODDS as int);
    let m = a % (DEFAULT_ODDS as int);
    vstd::arithmetic::div_mod::lemma_fundamental_div_mod(a, DEFAULT_ODDS as int);
    vstd::arithmetic::div_mod::lemma_mod_pos_bound(a, DEFAULT_ODDS as int);
    assert(q * DEFAULT_ODDS <= a < (q + 1) * DEFAULT_ODDS) by (nonlinear_arith)
        requires a == DEFAULT_ODDS * q + m, 0 <= m < DEFAULT_ODDS;
    assert(q >= stake) by (nonlinear_arith)
        requires q * 50_500_000 <= a < (q + 1) * 50_500_000, a == stake * 100_000_000, stake >= 0;
}

proof fn lemma_sums_of_equal_rows(rows: Seq<(i64, i64)>, b: i64, t: i64)
    requires
        forall|i: int| 0 <= i < rows.len() ==> #[trigger] rows[i] == (b, t),
    ensures
        sum_buy(rows) == rows.len() * b,
        sum_total(rows) == rows.len() * t,
    decreases rows.len(),
{
    if rows.len() > 0 {
        let r = rows.drop_last();
        assert forall|i: int| 0 <= i < r.len() implies #[trigger] r[i] == (b, t) by {
            assert(r[i] == rows[i]);
        }
        lemma_sums_of_equal_rows(r, b, t);
        assert(rows.last() == rows[rows.len() - 1]);
        assert((rows.len() - 1) * b + b == rows.len() * b) by (nonlinear_arith);
        assert((rows.len() - 1) * t + t == rows.len() * t) by (nonlinear_arith);
    } else {
        assert(rows.len() * b == 0 && rows.len() * t == 0) by (nonlinear_arith)
            requires rows.len() == 0;
    }
}

/// The taker ratio is taker buy volume over total volume summed over the
/// bars: over `n` bars that all bought `b` of `t > 0`, it is `n * b / n * t`;
/// without bars, or without positive volume, it is one half.
pub proof fn lemma_taker_ratio_of_equal_bars(rows: Seq<(i64, i64)>, b: i64, t: i64)
    requires
        forall|i: int| 0 <= i < rows.len() ==> #[trigger] rows[i] == (b, t),
        rows.len() <= MAX_ROWS,
        in_range(b as int),
        in_range(t as int),
    ensures
        rows.len() > 0 && t > 0 ==> spec_taker_ratio(rows) == (Ratio {
            num: (rows.len() * b) as i64,
            den: (rows.len() * t) as i64,
        }),
        (rows.len() == 0 || t <= 0) ==> spec_taker_ratio(rows) == (Ratio { num: 1, den: 2 }),
{
    lemma_sums_of_equal_rows(rows, b, t);
    if rows.len() > 0 && t <= 0 {
        assert(rows.len() * t <= 0) by (nonlinear_arith)
            requires rows.len() > 0, t <= 0;
    }
    if rows.len() > 0 && t > 0 {
        assert(rows.len() * t > 0) by (nonlinear_arith)
            requires rows.len() > 0, t > 0;
    }
}

} // verus!
