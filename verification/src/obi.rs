//! Order-book imbalance (OBI) of a depth snapshot of the exchange.
use vstd::prelude::*;
use crate::bear::{sum_total, BAR_MS, MAX_ROWS};
use crate::fixed::{div_wide, in_range, mul_wide, parse_decimal, spec_parse_decimal, tdiv, MAX_UNITS, SCALE};

verus! {

/// One order-book snapshot with its volumes at the top 5, 10 and 20 levels
/// of each side and their imbalances; quantities in units.
#[derive(Clone, Copy, Debug, PartialEq, Eq, Structural)]
pub struct ObiSnapshot {
    pub candle_open_time: i64,
    pub timestamp_ms: i64,
    pub bid_vol_top5: i64,
    pub ask_vol_top5: i64,
    pub bid_vol_top10: i64,
    pub ask_vol_top10: i64,
    pub bid_vol_top20: i64,
    pub ask_vol_top20: i64,
    pub obi_5: i64,
    pub obi_10: i64,
    pub obi_20: i64,
    pub spread: i64,
    pub mid_price: i64,
    pub bid_levels: i64,
    pub ask_levels: i64,
}

/// Imbalance of bid and ask volume, `(bid - ask) / (bid + ask)` in units and
/// rounded toward zero; zero where there is no volume.
pub open spec fn spec_obi(bid: int, ask: int) -> int {
    if bid + ask <= 0 {
        0
    } else {
        tdiv((bid - ask) * SCALE, bid + ask)
    }
}

pub fn obi(bid: i64, ask: i64) -> (r: i64)
    requires
        0 <= bid,
        0 <= ask,
    ensures
        r == spec_obi(bid as int, ask as int),
        -SCALE <= r <= SCALE,
{
    let total: i128 = bid as i128 + ask as i128;
    if total <= 0 {
        return 0;
    }
    let d: i64 = bid - ask;
    let num = mul_wide(d, SCALE);
    proof {
        let t = total as int;
        let d = d as int;
        assert(-t <= d <= t);
        assert(-(t * SCALE) <= d * SCALE <= t * SCALE) by (nonlinear_arith)
            requires -t <= d <= t, t > 0;
        if d >= 0 {
            assert((d * SCALE) / t <= SCALE) by (nonlinear_arith)
                requires 0 <= d * SCALE <= t * SCALE, t > 0;
            assert((d * SCALE) / t >= 0) by (nonlinear_arith)
                requires 0 <= d * SCALE, t > 0;
        } else {
            assert((-(d * SCALE)) / t <= SCALE) by (nonlinear_arith)
                requires 0 <= -(d * SCALE) <= t * SCALE, t > 0;
            assert((-(d * SCALE)) / t >= 0) by (nonlinear_arith)
                requires 0 <= -(d * SCALE), t > 0;
        }
    }
    div_wide(num, total) as i64
}

/// The imbalance is `(bid - ask) / (bid + ask)` in units, rounded toward
/// zero: swapping the sides negates it, it lies between -1 and 1, it is zero
/// without volume, and with more bid than ask volume it is the largest
/// `r >= 0` with `r * (bid + ask) <= (bid - ask) * SCALE`.
pub proof fn lemma_obi_is_the_share_difference(bid: int, ask: int)
    requires
        bid >= 0,
        ask >= 0,
    ensures
        spec_obi(bid, ask) == -spec_obi(ask, bid),
        -SCALE <= spec_obi(bid, ask) <= SCALE,
        bid + ask == 0 ==> spec_obi(bid, ask) == 0,
        bid + ask > 0 && bid >= ask ==> {
            let r = spec_obi(bid, ask);
            &&& 0 <= r
            &&& r * (bid + ask) <= (bid - ask) * SCALE
            &&& (bid - ask) * SCALE < (r + 1) * (bid + ask)
        },
{
    let t = bid + ask;
    if t > 0 {
        let d = bid - ask;
        assert(-(t * SCALE) <= d * SCALE <= t * SCALE) by (nonlinear_arith)
            requires -t <= d <= t, t > 0;
        if d >= 0 {
            let q = (d * SCALE) / t;
            let m = (d * SCALE) % t;
            vstd::arithmetic::div_mod::lemma_fundamental_div_mod(d * SCALE, t);
            vstd::arithmetic::div_mod::lemma_mod_pos_bound(d * SCALE, t);
            assert(q * t <= d * SCALE < (q + 1) * t) by (nonlinear_arith)
                requires d * SCALE == t * q + m, 0 <= m < t;
            assert((d * SCALE) / t <= SCALE) by (nonlinear_arith)
                requires 0 <= d * SCALE <= t * SCALE, t > 0;
            assert((d * SCALE) / t >= 0) by (nonlinear_arith)
                requires 0 <= d * SCALE, t > 0;
            assert((-(d * SCALE)) == (-d) * SCALE);
        } else {
            assert((-(d * SCALE)) / t <= SCALE) by (nonlinear_arith)
                requires 0 <= -(d * SCALE) <= t * SCALE, t > 0;
            assert((-(d * SCALE)) == (-d) * SCALE);
        }
        assert((ask - bid) * SCALE == -(d * SCALE)) by (nonlinear_arith)
            requires d == bid - ask;
    }
}

/// Levels that read: price and quantity pairs of the levels whose two fields
/// are both decimals, in order.
pub open spec fn spec_levels(raw: Seq<(Vec<u8>, Vec<u8>)>) -> Seq<(i64, i64)>
    decreases raw.len(),
{
    if raw.len() == 0 {
        Seq::empty()
    } else {
        let prev = spec_levels(raw.drop_last());
        match (spec_parse_decimal(raw.last().0@), spec_parse_decimal(raw.last().1@)) {
            (Some(p), Some(q)) => prev.push((p as i64, q as i64)),
            _ => prev,
        }
    }
}

/// Reads the levels of one side of the book, dropping those that do not read.
pub fn parse_levels(raw: &Vec<(Vec<u8>, Vec<u8>)>) -> (out: Vec<(i64, i64)>)
    ensures
        out@ == spec_levels(raw@),
        out@.len() <= raw@.len(),
        forall|i: int| 0 <= i < out@.len() ==> in_range((#[trigger] out@[i]).0 as int) && in_range(
            out@[i].1 as int,
        ),
{
    let mut out: Vec<(i64, i64)> = Vec::new();
    let mut i: usize = 0;
    while i < raw.len()
        invariant
            i <= raw@.len(),
            out@ == spec_levels(raw@.take(i as int)),
            out@.len() <= i,
            forall|j: int| 0 <= j < out@.len() ==> in_range((#[trigger] out@[j]).0 as int) && in_range(
                out@[j].1 as int,
            ),
        decreases raw@.len() - i,
    {
        proof {
            assert(raw@.take(i as int + 1).drop_last() =~= raw@.take(i as int));
            assert(raw@.take(i as int + 1).last() == raw@[i as int]);
        }
        let p = parse_decimal(raw[i].0.as_slice());
        let q = parse_decimal(raw[i].1.as_slice());
        match (p, q) {
            (Some(p), Some(q)) => {
                out.push((p, q));
            },
            _ => {},
        }
        i = i + 1;
    }
    proof {
        assert(raw@.take(i as int) =~= raw@);
    }
    out
}

/// Volume of the first `n` levels (all of them where there are fewer).
pub open spec fn top_volume(levels: Seq<(i64, i64)>, n: int) -> int {
    if levels.len() <= n {
        sum_total(levels)
    } else {
        sum_total(levels.take(n))
    }
}

proof fn lemma_sum_total_alike(levels: Seq<(i64, i64)>, q: i64)
    requires
        forall|i: int| 0 <= i < levels.len() ==> (#[trigger] levels[i]).1 == q,
    ensures
        sum_total(levels) == levels.len() * q,
    decreases levels.len(),
{
    if levels.len() > 0 {
        let r = levels.drop_last();
        assert forall|i: int| 0 <= i < r.len() implies (#[trigger] r[i]).1 == q by {
            assert(r[i] == levels[i]);
        }
        lemma_sum_total_alike(r, q);
        assert(levels.last() == levels[levels.len() - 1]);
        assert((levels.len() - 1) * q + q == levels.len() * q) by (nonlinear_arith);
    } else {
        assert(levels.len() * q == 0) by (nonlinear_arith)
            requires levels.len() == 0;
    }
}

/// The top volume of a side counts the quantities of its first `n` levels
/// (all of them where there are fewer), each once, and no later level: where
/// every level holds `q`, it is `min(n, levels) * q`, and changing a level
/// past the `n`-th changes nothing.
pub proof fn lemma_top_volume_counts_the_first_levels(levels: Seq<(i64, i64)>, other: Seq<(i64, i64)>, n: int, q: i64)
    requires
        n >= 0,
    ensures
        (forall|i: int| 0 <= i < levels.len() ==> (#[trigger] levels[i]).1 == q) ==> top_volume(levels, n) == (if levels.len()
            <= n { levels.len() as int } else { n }) * q,
        (levels.len() > n && other.len() > n && levels.take(n) == other.take(n)) ==> top_volume(levels, n) == top_volume(
            other,
            n,
        ),
{
    if forall|i: int| 0 <= i < levels.len() ==> (#[trigger] levels[i]).1 == q {
        if levels.len() <= n {
            lemma_sum_total_alike(levels, q);
        } else {
            let t = levels.take(n);
            assert forall|i: int| 0 <= i < t.len() implies (#[trigger] t[i]).1 == q by {
                assert(t[i] == levels[i]);
            }
            lemma_sum_total_alike(t, q);
        }
    }
}

/// Price of the best level, zero for an empty side.
pub open spec fn best_price(levels: Seq<(i64, i64)>) -> int {
    if levels.len() == 0 {
        0
    } else {
        levels[0].0 as int
    }
}

/// The snapshot that the two sides of a depth reply give, taken at
/// `timestamp_ms`; the candle it belongs to is left zero for the caller.
pub open spec fn spec_snapshot(bids: Seq<(i64, i64)>, asks: Seq<(i64, i64)>, timestamp_ms: i64) -> ObiSnapshot {
    let b5 = top_volume(bids, 5);
    let a5 = top_volume(asks, 5);
    let b10 = top_volume(bids, 10);
    let a10 = top_volume(asks, 10);
    let b20 = top_volume(bids, 20);
    let a20 = top_volume(asks, 20);
    ObiSnapshot {
        candle_open_time: 0,
        timestamp_ms,
        bid_vol_top5: b5 as i64,
        ask_vol_top5: a5 as i64,
        bid_vol_top10: b10 as i64,
        ask_vol_top10: a10 as i64,
        bid_vol_top20: b20 as i64,
        ask_vol_top20: a20 as i64,
        obi_5: spec_obi(b5, a5) as i64,
        obi_10: spec_obi(b10, a10) as i64,
        obi_20: spec_obi(b20, a20) as i64,
        spread: (best_price(asks) - best_price(bids)) as i64,
        mid_price: tdiv(best_price(bids) + best_price(asks), 2) as i64,
        bid_levels: bids.len() as i64,
        ask_levels: asks.len() as i64,
    }
}

/// Levels whose prices lie in the range and whose quantities are volumes:
/// in the range and not negative.
pub open spec fn levels_wf(levels: Seq<(i64, i64)>) -> bool {
    &&& levels.len() <= MAX_ROWS
    &&& forall|i: int| 0 <= i < levels.len() ==> in_range((#[trigger] levels[i]).0 as int) && 0 <= levels[i].1
        <= MAX_UNITS
}

proof fn lemma_sum_total_nonneg(levels: Seq<(i64, i64)>)
    requires
        forall|i: int| 0 <= i < levels.len() ==> 0 <= (#[trigger] levels[i]).1 <= MAX_UNITS,
    ensures
        0 <= sum_total(levels) <= levels.len() * MAX_UNITS,
    decreases levels.len(),
{
    if levels.len() > 0 {
        let r = levels.drop_last();
        assert forall|i: int| 0 <= i < r.len() implies 0 <= (#[trigger] r[i]).1 <= MAX_UNITS by {
            assert(r[i] == levels[i]);
        }
        lemma_sum_total_nonneg(r);
        assert(levels.last() == levels[levels.len() - 1]);
    }
}

/// Volume of the first `n` levels of a side.
fn top_volume_exec(levels: &Vec<(i64, i64)>, n: usize) -> (v: i64)
    requires
        levels_wf(levels@),
        n <= 20,
    ensures
        v == top_volume(levels@, n as int),
        0 <= v <= 20 * MAX_UNITS,
{
    let m = if levels.len() <= n {
        levels.len()
    } else {
        n
    };
    let mut acc: i64 = 0;
    let mut i: usize = 0;
    while i < m
        invariant
            m <= levels@.len(),
            m <= n <= 20,
            i <= m,
            levels_wf(levels@),
            acc == sum_total(levels@.take(i as int)),
            0 <= acc <= i * MAX_UNITS,
        decreases m - i,
    {
        proof {
            assert(levels@.take(i as int + 1).drop_last() =~= levels@.take(i as int));
            assert(levels@.take(i as int + 1).last() == levels@[i as int]);
            assert(levels@[i as int].1 <= MAX_UNITS);
            assert((i + 1) * MAX_UNITS <= 20 * MAX_UNITS) by (nonlinear_arith)
                requires i + 1 <= 20;
        }
        acc = acc + levels[i].1;
        i = i + 1;
    }
    proof {
        if levels@.len() <= n {
            assert(levels@.take(m as int) =~= levels@);
        }
        assert(m * MAX_UNITS <= 20 * MAX_UNITS) by (nonlinear_arith)
            requires m <= 20;
    }
    acc
}

/// Volumes at the top 5, 10 and 20 levels, their imbalances, the spread and
/// the mid price of a depth reply taken at `timestamp_ms`.
pub fn snapshot_from_depth(bids: &Vec<(i64, i64)>, asks: &Vec<(i64, i64)>, timestamp_ms: i64) -> (s: ObiSnapshot)
    requires
        levels_wf(bids@),
        levels_wf(asks@),
    ensures
        s == spec_snapshot(bids@, asks@, timestamp_ms),
        -SCALE <= s.obi_5 <= SCALE,
        -SCALE <= s.obi_10 <= SCALE,
        -SCALE <= s.obi_20 <= SCALE,
{
    let b5 = top_volume_exec(bids, 5);
    let a5 = top_volume_exec(asks, 5);
    let b10 = top_volume_exec(bids, 10);
    let a10 = top_volume_exec(asks, 10);
    let b20 = top_volume_exec(bids, 20);
    let a20 = top_volume_exec(asks, 20);
    let best_bid = if bids.len() == 0 {
        0
    } else {
        bids[0].0
    };
    let best_ask = if asks.len() == 0 {
        0
    } else {
        asks[0].0
    };
    ObiSnapshot {
        candle_open_time: 0,
        timestamp_ms,
        bid_vol_top5: b5,
        ask_vol_top5: a5,
        bid_vol_top10: b10,
        ask_vol_top10: a10,
        bid_vol_top20: b20,
        ask_vol_top20: a20,
        obi_5: obi(b5, a5),
        obi_10: obi(b10, a10),
        obi_20: obi(b20, a20),
        spread: best_ask - best_bid,
        mid_price: div_wide(best_bid as i128 + best_ask as i128, 2) as i64,
        bid_levels: bids.len() as i64,
        ask_levels: asks.len() as i64,
    }
}

/// Open time of the bar that contains the instant `now_ms`.
pub fn candle_slot(now_ms: i64) -> (r: i64)
    ensures
        r == tdiv(now_ms as int, BAR_MS as int) * BAR_MS,
        now_ms >= 0 ==> r <= now_ms < r + BAR_MS && r % BAR_MS == 0,
{
    proof {
        crate::fixed::lemma_tdiv_bound(now_ms as int, BAR_MS as int, 0x8000_0000_0000_0000);
        let q = tdiv(now_ms as int, BAR_MS as int);
        if now_ms >= 0 {
            assert(q * BAR_MS <= now_ms) by (nonlinear_arith)
                requires q == now_ms / 300_000, now_ms >= 0;
            assert(q >= 0) by (nonlinear_arith)
                requires q == now_ms / 300_000, now_ms >= 0;
            assert(now_ms < q * BAR_MS + BAR_MS) by (nonlinear_arith)
                requires q == now_ms / 300_000, now_ms >= 0;
            assert((q * 300_000) % 300_000 == 0) by (nonlinear_arith)
                requires q >= 0;
        } else {
            assert((-now_ms) / 300_000 * 300_000 <= -now_ms) by (nonlinear_arith)
                requires -now_ms >= 0;
            assert((-now_ms) / 300_000 >= 0) by (nonlinear_arith)
                requires -now_ms >= 0;
        }
    }
    let q = div_wide(now_ms as i128, BAR_MS as i128);
    (q * (BAR_MS as i128)) as i64
}

/// Open time of the bar that contains the instant `ts`: `ts` rounded down
/// to a multiple of five minutes, before 1970 as after.
pub open spec fn bar_of(ts: int) -> int {
    (ts / (BAR_MS as int)) * BAR_MS
}

/// The snapshot tagged with the bar that contains its own timestamp.
pub fn tag_with_bar(snap: ObiSnapshot) -> (r: ObiSnapshot)
    requires
        snap.timestamp_ms >= i64::MIN + BAR_MS,
    ensures
        r == (ObiSnapshot { candle_open_time: bar_of(snap.timestamp_ms as int) as i64, ..snap }),
        r.candle_open_time <= r.timestamp_ms < r.candle_open_time + BAR_MS,
        r.candle_open_time % BAR_MS == 0,
{
    let ts = snap.timestamp_ms;
    let slot: i64 = if ts >= 0 {
        proof {
            vstd::arithmetic::div_mod::lemma_fundamental_div_mod(ts as int, BAR_MS as int);
        }
        (ts / BAR_MS) * BAR_MS
    } else {
        let a: i64 = -(ts + 1);
        let q0: i64 = a / BAR_MS;
        proof {
            vstd::arithmetic::div_mod::lemma_fundamental_div_mod(a as int, BAR_MS as int);
            let r0 = a as int % (BAR_MS as int);
            assert(ts == (-q0 - 1) * BAR_MS + (BAR_MS - 1 - r0)) by (nonlinear_arith)
                requires a == q0 * BAR_MS + r0, ts == -a - 1, BAR_MS == 300_000;
            vstd::arithmetic::div_mod::lemma_fundamental_div_mod_converse(
                ts as int,
                BAR_MS as int,
                -q0 - 1,
                BAR_MS - 1 - r0,
            );
            assert((q0 + 1) * BAR_MS <= a + BAR_MS) by (nonlinear_arith)
                requires a == q0 * BAR_MS + r0, 0 <= r0, BAR_MS == 300_000;
        }
        -((q0 + 1) * BAR_MS)
    };
    proof {
        let q = ts as int / (BAR_MS as int);
        vstd::arithmetic::div_mod::lemma_fundamental_div_mod(ts as int, BAR_MS as int);
        assert((q * 300_000) % 300_000 == 0) by (nonlinear_arith);
    }
    ObiSnapshot { candle_open_time: slot, ..snap }
}

/// Milliseconds between two refreshes of the stored candles by the collector.
pub const CANDLE_SYNC_MS: i64 = 60_000;

/// The collector refreshes the stored candles when more than `CANDLE_SYNC_MS`
/// have passed since the last refresh at `last_sync_ms`.
pub fn sync_due(now_ms: i64, last_sync_ms: i64) -> (b: bool)
    ensures
        b == (now_ms - last_sync_ms > CANDLE_SYNC_MS),
{
    (now_ms as i128) - (last_sync_ms as i128) > CANDLE_SYNC_MS as i128
}

} // verus!
