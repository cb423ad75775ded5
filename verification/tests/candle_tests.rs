use btc_updown::candle::Candle;
use btc_updown::fixed::{Ratio, SCALE};

fn bar(o: i64, h: i64, l: i64, c: i64) -> Candle {
    Candle {
        open_time: 0,
        close_time: 299_999,
        open: o * SCALE,
        high: h * SCALE,
        low: l * SCALE,
        close: c * SCALE,
        volume: 10 * SCALE,
        taker_buy_vol: 4 * SCALE,
        trades: 3,
    }
}

#[test]
fn colour_of_a_bar() {
    assert!(bar(100, 110, 90, 105).is_green());
    assert!(!bar(100, 110, 90, 105).is_red());
    assert!(bar(100, 110, 90, 95).is_red());
    let doji = bar(100, 110, 90, 100);
    assert!(!doji.is_green() && !doji.is_red());
}

#[test]
fn geometry_of_a_green_bar() {
    let c = bar(100, 110, 90, 105);
    assert_eq!(c.range(), 20 * SCALE);
    assert_eq!(c.body(), 5 * SCALE);
    assert_eq!(c.upper_wick(), 5 * SCALE);
    assert_eq!(c.lower_wick(), 10 * SCALE);
    assert_eq!(c.close_pos(), Ratio { num: 15 * SCALE, den: 20 * SCALE });
}

#[test]
fn geometry_of_a_red_bar() {
    let c = bar(105, 110, 90, 100);
    assert_eq!(c.body(), 5 * SCALE);
    assert_eq!(c.upper_wick(), 5 * SCALE);
    assert_eq!(c.lower_wick(), 10 * SCALE);
}

#[test]
fn close_pos_of_a_flat_bar_is_one_half() {
    let c = bar(100, 100, 100, 100);
    assert_eq!(c.close_pos(), Ratio { num: 1, den: 2 });
}

#[test]
fn close_pos_stays_in_the_unit_interval() {
    for (o, h, l, c) in [(100, 110, 90, 90), (100, 110, 90, 110), (95, 120, 80, 101)] {
        let p = bar(o, h, l, c).close_pos();
        assert!(p.num >= 0 && p.num <= p.den);
    }
}
