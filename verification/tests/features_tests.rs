use btc_updown::candle::Candle;
use btc_updown::features::{atr14, compute, sma};
use btc_updown::fixed::{Ratio, SCALE};

fn flat(n: i64, price: i64) -> Vec<Candle> {
    (0..n)
        .map(|i| Candle {
            open_time: i * 300_000,
            close_time: i * 300_000 + 299_999,
            open: price * SCALE,
            high: (price + 1) * SCALE,
            low: (price - 1) * SCALE,
            close: price * SCALE,
            volume: SCALE,
            taker_buy_vol: SCALE / 2,
            trades: 1,
        })
        .collect()
}

fn rising(n: i64) -> Vec<Candle> {
    (0..n)
        .map(|i| Candle {
            open_time: i * 300_000,
            close_time: i * 300_000 + 299_999,
            open: i * SCALE,
            high: (i + 1) * SCALE,
            low: i * SCALE,
            close: (i + 1) * SCALE,
            volume: SCALE,
            taker_buy_vol: SCALE / 2,
            trades: 1,
        })
        .collect()
}

#[test]
fn moving_average_over_the_window() {
    let c = rising(10);
    // closes 4..=10
    assert_eq!(sma(&c, 9, 7), 7 * SCALE);
    // fewer bars than the period: closes 1..=10
    assert_eq!(sma(&c, 9, 25), 550_000_000);
    assert_eq!(sma(&c, 0, 7), SCALE);
}

#[test]
fn average_true_range() {
    let c = flat(15, 100);
    assert_eq!(atr14(&c, 0), Ratio { num: 2 * SCALE, den: 1 });
    assert_eq!(atr14(&c, 14), Ratio { num: 28 * SCALE, den: 14 });
}

#[test]
fn true_range_of_steady_bars_is_their_range() {
    // each bar: high = i + 1, low = i, previous close = i:
    // max(1, |high - prev close| = 1, |low - prev close| = 0) = 1
    let c = rising(20);
    assert_eq!(atr14(&c, 19), Ratio { num: 14 * SCALE, den: 14 });
}

#[test]
fn true_range_counts_a_gap_from_the_previous_close() {
    // thirteen bars of range 2 at 100, then one that gaps up to 110..112:
    // max(2, |112 - 100|, |110 - 100|) = 12
    let mut c = flat(15, 100);
    c[14] = Candle { open: 110 * SCALE, high: 112 * SCALE, low: 110 * SCALE, close: 111 * SCALE, ..c[14] };
    assert_eq!(atr14(&c, 14), Ratio { num: 38 * SCALE, den: 14 });
}

#[test]
fn features_of_a_flat_market() {
    let c = flat(20, 100);
    let f = compute(&c, 14);
    assert_eq!((f.sma7, f.sma25, f.sma99), (100 * SCALE, 100 * SCALE, 100 * SCALE));
    assert_eq!(f.atr, Ratio { num: 28 * SCALE, den: 14 });
    assert_eq!(f.spread_7_25, Ratio { num: 0, den: 28 * SCALE });
    assert_eq!(f.dist_close_25, Ratio { num: 0, den: 28 * SCALE });
    assert_eq!(f.range, 2 * SCALE);
    assert_eq!((f.upper_wick, f.lower_wick), (SCALE, SCALE));
    assert_eq!(f.close_pos, Ratio { num: SCALE, den: 2 * SCALE });
    assert_eq!((f.green_8, f.red_8), (0, 0));
}

#[test]
fn features_of_a_rising_market() {
    let c = rising(30);
    let f = compute(&c, 29);
    // closes 24..=30 average 27; closes 6..=30 average 18; closes 1..=30 average 15.5
    assert_eq!((f.sma7, f.sma25, f.sma99), (27 * SCALE, 18 * SCALE, 1_550_000_000));
    assert_eq!(f.atr, Ratio { num: 14 * SCALE, den: 14 });
    assert_eq!(f.spread_7_25, Ratio { num: 9 * SCALE * 14, den: 14 * SCALE });
    // sma25 four bars back: closes 2..=26 average 14
    assert_eq!(f.slope_25, Ratio { num: 4 * SCALE * 14, den: 14 * SCALE });
    assert_eq!((f.green_8, f.red_8), (8, 0));
}

#[test]
fn a_flat_range_normalizes_by_one() {
    let c: Vec<Candle> = (0..15)
        .map(|i| Candle {
            open_time: i * 300_000,
            close_time: i * 300_000 + 299_999,
            open: 5 * SCALE,
            high: 5 * SCALE,
            low: 5 * SCALE,
            close: 5 * SCALE,
            volume: 0,
            taker_buy_vol: 0,
            trades: 0,
        })
        .collect();
    let f = compute(&c, 14);
    // true range = max(0, 0, 0) = 0, so the ATR is not positive
    assert_eq!(f.atr, Ratio { num: 0, den: 14 });
    assert_eq!(f.spread_7_25, Ratio { num: 0, den: SCALE });
}
