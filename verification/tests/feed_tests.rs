use btc_updown::candle::Candle;
use btc_updown::feed::{
    after_page, after_polling_ends, after_stream_ends, bootstrap_step, candle_from_row, candles_from_rows, feed_source,
    BuildingCandle, FeedSource, FeedState, KlineRow, KlineTick, PageStep, MAX_WS_FAILURES,
};
use btc_updown::fixed::SCALE;

fn tick(open_time: i64, o: i64, h: i64, l: i64, c: i64, v: i64, closed: bool) -> KlineTick {
    KlineTick {
        open_time,
        close_time: open_time + 299_999,
        open: Some(o),
        high: Some(h),
        low: Some(l),
        close: Some(c),
        volume: Some(v),
        taker_buy_vol: Some(v / 2),
        trades: 7,
        is_closed: closed,
    }
}

#[test]
fn first_tick_starts_a_candle() {
    let mut s = FeedState::new();
    let closed = s.on_tick(&tick(300_000, 100, 101, 99, 100, 10, false));
    assert!(closed.is_empty());
    assert_eq!(s.current_open_time, 300_000);
    assert_eq!(
        s.building,
        Some(BuildingCandle { open_time: 300_000, open: 100, high: 101, low: 99, close: 100, volume: 10, taker_buy_vol: 5, trades: 7 })
    );
}

#[test]
fn ticks_of_the_same_bar_widen_it() {
    let mut s = FeedState::new();
    s.on_tick(&tick(300_000, 100, 101, 99, 100, 10, false));
    let closed = s.on_tick(&tick(300_000, 100, 102, 98, 101, 12, false));
    assert!(closed.is_empty());
    let b = s.building.unwrap();
    assert_eq!((b.open, b.high, b.low, b.close, b.volume), (100, 102, 98, 101, 12));
    let closed = s.on_tick(&tick(300_000, 100, 100, 99, 100, 13, false));
    assert!(closed.is_empty());
    let b = s.building.unwrap();
    assert_eq!((b.high, b.low, b.close, b.volume), (102, 98, 100, 13));
}

#[test]
fn new_bar_closes_the_previous_candle() {
    let mut s = FeedState::new();
    s.on_tick(&tick(300_000, 100, 102, 98, 101, 12, false));
    let closed = s.on_tick(&tick(600_000, 101, 101, 101, 101, 1, false));
    assert_eq!(
        closed,
        vec![Candle { open_time: 300_000, close_time: 599_999, open: 100, high: 102, low: 98, close: 101, volume: 12, taker_buy_vol: 6, trades: 7 }]
    );
    assert_eq!(s.building.unwrap().open_time, 600_000);
}

#[test]
fn closed_flag_closes_at_the_kline_close_time() {
    let mut s = FeedState::new();
    s.on_tick(&tick(300_000, 100, 102, 98, 101, 12, false));
    let mut t = tick(300_000, 100, 103, 98, 102, 14, true);
    t.close_time = 599_000;
    let closed = s.on_tick(&t);
    assert_eq!(closed.len(), 1);
    assert_eq!(closed[0].close_time, 599_000);
    assert_eq!(closed[0].high, 103);
    assert!(s.building.is_none());
    assert_eq!(s.current_open_time, 300_000);
}

#[test]
fn new_bar_with_closed_flag_closes_two_candles() {
    let mut s = FeedState::new();
    s.on_tick(&tick(300_000, 100, 102, 98, 101, 12, false));
    let closed = s.on_tick(&tick(600_000, 101, 105, 100, 104, 3, true));
    assert_eq!(closed.len(), 2);
    assert_eq!(closed[0].open_time, 300_000);
    assert_eq!(closed[1].open_time, 600_000);
    assert_eq!(closed[1].close_time, 899_999);
    assert!(s.building.is_none());
}

#[test]
fn missing_fields_default_to_the_open() {
    let mut s = FeedState::new();
    let t = KlineTick {
        open_time: 300_000,
        close_time: 599_999,
        open: Some(50),
        high: None,
        low: None,
        close: None,
        volume: None,
        taker_buy_vol: None,
        trades: 1,
        is_closed: false,
    };
    s.on_tick(&t);
    let b = s.building.unwrap();
    assert_eq!((b.open, b.high, b.low, b.close, b.volume, b.taker_buy_vol), (50, 50, 50, 50, 0, 0));
}

#[test]
fn unset_low_takes_the_tick_low() {
    let mut s = FeedState::new();
    let mut t = tick(300_000, 0, 0, 0, 0, 0, false);
    t.open = None;
    t.low = None;
    s.on_tick(&t);
    assert_eq!(s.building.unwrap().low, 0);
    let closed = s.on_tick(&tick(300_000, 100, 101, 99, 100, 10, false));
    assert!(closed.is_empty());
    let b = s.building.unwrap();
    assert_eq!((b.open, b.high, b.low), (0, 101, 99));
}

#[test]
fn a_closed_bar_closes_once() {
    let mut s = FeedState::new();
    s.on_tick(&tick(300_000, 100, 102, 98, 101, 12, false));
    let closed = s.on_tick(&tick(300_000, 100, 103, 98, 102, 14, true));
    assert_eq!(closed.len(), 1);
    assert_eq!(closed[0].open, 100);
    // the same final message again, and a late tick of the closed bar
    assert!(s.on_tick(&tick(300_000, 100, 103, 98, 102, 14, true)).is_empty());
    assert!(s.on_tick(&tick(300_000, 0, 104, 97, 103, 15, false)).is_empty());
    assert_eq!(s.building, None);
    assert_eq!(s.current_open_time, 300_000);
    // the next bar starts and closes normally
    assert!(s.on_tick(&tick(600_000, 102, 102, 102, 102, 1, false)).is_empty());
    let closed = s.on_tick(&tick(900_000, 103, 103, 103, 103, 1, false));
    assert_eq!(closed.len(), 1);
    assert_eq!((closed[0].open_time, closed[0].open), (600_000, 102));
}

#[test]
fn a_fresh_feed_given_one_closed_message_twice_closes_one_candle() {
    let mut s = FeedState::new();
    let m = tick(300_000, 100, 103, 98, 102, 14, true);
    assert_eq!(s.on_tick(&m).len(), 1);
    assert!(s.on_tick(&m).is_empty());
}

#[test]
fn stream_then_polling_then_stream() {
    assert_eq!(feed_source(0), FeedSource::Stream);
    assert_eq!(feed_source(2), FeedSource::Stream);
    assert_eq!(feed_source(MAX_WS_FAILURES), FeedSource::Polling);
    assert_eq!(after_stream_ends(2), 3);
    assert_eq!(after_stream_ends(u32::MAX), u32::MAX);
    assert_eq!(after_polling_ends(3, true), 0);
    assert_eq!(after_polling_ends(3, false), 3);
}

#[test]
fn paging_history_backwards_goes_on_until_an_empty_page() {
    assert_eq!(after_page(Some(300_000)), PageStep::Next { end: 299_999 });
    assert_eq!(after_page(Some(-5)), PageStep::Next { end: -6 });
    assert_eq!(after_page(None), PageStep::Done);
}

#[test]
fn bootstrap_fetches_at_most_five_pages() {
    assert_eq!(bootstrap_step(1, Some(300_000)), PageStep::Next { end: 299_999 });
    assert_eq!(bootstrap_step(4, Some(300_000)), PageStep::Next { end: 299_999 });
    assert_eq!(bootstrap_step(5, Some(300_000)), PageStep::Done);
    assert_eq!(bootstrap_step(2, None), PageStep::Done);
}

fn polled(open_time: i64, h: i64, l: i64, c: i64, v: i64) -> Candle {
    Candle { open_time, close_time: open_time + 299_999, open: 100, high: h, low: l, close: c, volume: v, taker_buy_vol: v / 2, trades: 9 }
}

#[test]
fn polling_builds_and_closes_candles() {
    let mut s = FeedState::new();
    assert_eq!(s.on_polled(&polled(300_000, 101, 99, 100, 10)), None);
    assert_eq!(s.on_polled(&polled(300_000, 103, 98, 102, 20)), None);
    let b = s.building.unwrap();
    assert_eq!((b.high, b.low, b.close, b.volume), (103, 98, 102, 20));
    let closed = s.on_polled(&polled(600_000, 102, 101, 101, 5)).unwrap();
    assert_eq!(closed.open_time, 300_000);
    assert_eq!(closed.close_time, 599_999);
    assert_eq!((closed.high, closed.low, closed.close), (103, 98, 102));
    assert_eq!(s.on_polled(&polled(300_000, 200, 1, 1, 1)), None);
    assert_eq!(s.building.unwrap().open_time, 600_000);
    assert_eq!(s.current_open_time, 600_000);
}

fn row(vol: &str) -> KlineRow {
    KlineRow {
        open_time: 300_000,
        close_time: 599_999,
        open: b"67000.5".to_vec(),
        high: b"67100".to_vec(),
        low: b"abc".to_vec(),
        close: b"67050.25".to_vec(),
        volume: vol.as_bytes().to_vec(),
        taker_buy_vol: b"1.5".to_vec(),
        trades: (1u64 << 32) + 5,
    }
}

#[test]
fn reads_a_kline_row() {
    let c = candle_from_row(&row("3.25"));
    assert_eq!(c.open, 6_700_050_000_000);
    assert_eq!(c.high, 6_710_000_000_000);
    assert_eq!(c.low, 0);
    assert_eq!(c.close, 6_705_025_000_000);
    assert_eq!(c.volume, 325_000_000);
    assert_eq!(c.taker_buy_vol, 150_000_000);
    assert_eq!(c.trades, 5);
    assert_eq!(c.open_time, 300_000);
    assert_eq!(c.close_time, 599_999);
}

#[test]
fn skips_rows_without_volume() {
    let rows = vec![row("3.25"), row("0.00000000"), row("x")];
    assert_eq!(candles_from_rows(&rows, true).len(), 1);
    assert_eq!(candles_from_rows(&rows, false).len(), 3);
    assert_eq!(candles_from_rows(&rows, false)[1].volume, 0);
    let _ = SCALE;
}
