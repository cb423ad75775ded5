use btc_updown::candle::Candle;
use btc_updown::features::compute;
use btc_updown::fixed::{Ratio, SCALE};
use btc_updown::regime::{
    bear_candidate, bear_no_filter, bear_score, bull_candidate, bull_score, bull_yes_filter, count_at_least,
    diagnose, RegimeThresholds, STAGES,
};

fn bar(i: i64, o: i64, h: i64, l: i64, c: i64) -> Candle {
    Candle {
        open_time: i * 300_000,
        close_time: i * 300_000 + 299_999,
        open: o * SCALE,
        high: h * SCALE,
        low: l * SCALE,
        close: c * SCALE,
        volume: SCALE,
        taker_buy_vol: SCALE / 2,
        trades: 1,
    }
}

fn rising(n: i64) -> Vec<Candle> {
    (0..n).map(|i| bar(i, 100 + i, 101 + i, 100 + i, 101 + i)).collect()
}

fn falling(n: i64) -> Vec<Candle> {
    (0..n).map(|i| bar(i, 1000 - i, 1000 - i, 999 - i, 999 - i)).collect()
}

#[test]
fn default_regime_thresholds() {
    let th = RegimeThresholds::default();
    assert_eq!(th.bull_spread, Ratio { num: 10, den: 100 });
    assert_eq!(th.bull_slope, Ratio { num: 8, den: 100 });
    assert_eq!((th.bull_score_min, th.bear_score_min), (4, 4));
}

#[test]
fn a_steady_rise_is_a_bull_candidate() {
    let c = rising(120);
    let th = RegimeThresholds::default();
    let f = compute(&c, 110);
    assert!(bull_candidate(&c[110], &f, &th));
    assert!(!bear_candidate(&c[110], &f));
    // close >= sma7, close at the high, eight green bars, higher low and high,
    // but far above sma25 in ATRs
    assert_eq!(bull_score(&c, 110, &f), 5);
    // only 'not overextended below sma25' holds for the bear score
    assert_eq!(bear_score(&c, 110, &f), 1);
}

#[test]
fn a_steady_fall_is_a_bear_candidate() {
    let c = falling(120);
    let th = RegimeThresholds::default();
    let f = compute(&c, 110);
    assert!(bear_candidate(&c[110], &f));
    assert!(!bull_candidate(&c[110], &f, &th));
    assert_eq!(bear_score(&c, 110, &f), 5);
    assert_eq!(bull_score(&c, 110, &f), 1);
}

#[test]
fn filters_on_a_steady_rise_and_fall() {
    let up = rising(120);
    let f = compute(&up, 110);
    // far above sma25 in ATRs: no YES
    assert!(!bull_yes_filter(&up[110], &f));
    let down = falling(120);
    let g = compute(&down, 110);
    // closes at its low with no upper wick: no NO
    assert!(!bear_no_filter(&down, 110, &g));
}

#[test]
fn diagnostics_need_110_bars() {
    assert!(diagnose(&rising(109), &RegimeThresholds::default()).is_none());
}

#[test]
fn diagnostics_of_a_steady_rise() {
    let d = diagnose(&rising(120), &RegimeThresholds::default()).unwrap();
    assert_eq!(d.total, 19);
    assert_eq!(d.features.len(), 19);
    assert_eq!(d.counts.len(), STAGES);
    // every bar is stacked, a candidate and scores five; the first has no
    // predecessor in the pass, and none passes the YES filter
    assert_eq!(d.counts[0], 19);
    assert_eq!(d.counts[4], 19);
    assert_eq!(d.counts[5], 19);
    assert_eq!(d.counts[6], 18);
    assert_eq!(d.counts[7], 0);
    assert_eq!(d.counts[8], 0);
    assert_eq!(d.counts[12], 0);
}

#[test]
fn counts_values_at_or_above_a_bound() {
    let v = vec![Ratio { num: 2, den: 10 }, Ratio { num: 1, den: 10 }, Ratio { num: -5, den: 100 }];
    let b = Ratio { num: 10, den: 100 };
    assert_eq!(count_at_least(&v, &b, false), 2);
    assert_eq!(count_at_least(&v, &b, true), 1);
}
