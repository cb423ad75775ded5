use btc_updown::candle::Candle;
use btc_updown::decision::{evaluate, momentum_pct, Thresholds, MOM_LOOKBACK};
use btc_updown::fixed::{Ratio, SCALE};

/// Thirteen bars opening at `start` (in hundredths) with the last closing at `end`.
fn hour(start: i64, end: i64) -> Vec<Candle> {
    let mut v = Vec::new();
    for i in 0..13 {
        let p = if i == 0 { start } else { end };
        v.push(Candle {
            open_time: i * 300_000,
            close_time: i * 300_000 + 299_999,
            open: p * SCALE / 100,
            high: p * SCALE / 100,
            low: p * SCALE / 100,
            close: p * SCALE / 100,
            volume: SCALE,
            taker_buy_vol: SCALE / 2,
            trades: 1,
        });
    }
    v
}

#[test]
fn default_thresholds() {
    let th = Thresholds::default();
    assert_eq!(th.lookback, MOM_LOOKBACK);
    assert_eq!(th.lookback, 12);
    assert_eq!(th.mom_threshold, Ratio { num: 8, den: 10 });
}

#[test]
fn momentum_is_percent_change_over_the_hour() {
    let c = hour(10_000, 9_900);
    let m = momentum_pct(&c, 12, 12);
    assert_eq!(m, Ratio { num: -100 * SCALE, den: 100 * SCALE });
}

#[test]
fn momentum_is_zero_without_enough_bars() {
    let c = hour(10_000, 9_900);
    assert_eq!(momentum_pct(&c, 11, 12), Ratio { num: 0, den: 1 });
}

#[test]
fn momentum_is_zero_from_a_non_positive_price() {
    let c = hour(0, 9_900);
    assert_eq!(momentum_pct(&c, 12, 12), Ratio { num: 0, den: 1 });
}

#[test]
fn enters_bull_when_momentum_falls_below_threshold() {
    let c = hour(10_000, 9_900);
    let th = Thresholds::default();
    let (now, _, cb, ce) = evaluate(&c, 12, false, 3, 5, &th);
    assert!(now);
    assert_eq!((cb, ce), (4, 0));
}

#[test]
fn stays_out_at_exactly_the_threshold() {
    let c = hour(10_000, 9_920);
    let th = Thresholds::default();
    let (now, m, cb, ce) = evaluate(&c, 12, false, 3, 5, &th);
    assert_eq!(m, Ratio { num: -80 * SCALE, den: 100 * SCALE });
    assert!(!now);
    assert_eq!((cb, ce), (0, 0));
}

#[test]
fn stays_in_at_exactly_the_threshold() {
    let c = hour(10_000, 9_920);
    let th = Thresholds::default();
    let (now, _, _, _) = evaluate(&c, 12, true, 3, 5, &th);
    assert!(now);
}

#[test]
fn exits_bull_when_momentum_recovers() {
    let c = hour(10_000, 9_950);
    let th = Thresholds::default();
    let (now, _, cb, ce) = evaluate(&c, 12, true, 7, 0, &th);
    assert!(!now);
    assert_eq!((cb, ce), (0, 1));
}
