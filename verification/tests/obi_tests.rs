use btc_updown::fixed::SCALE;
use btc_updown::obi::{candle_slot, obi, parse_levels, snapshot_from_depth, sync_due, tag_with_bar};

#[test]
fn imbalance_of_bid_and_ask_volume() {
    assert_eq!(obi(30 * SCALE, 10 * SCALE), 50_000_000);
    assert_eq!(obi(10 * SCALE, 30 * SCALE), -50_000_000);
    assert_eq!(obi(0, 0), 0);
    assert_eq!(obi(1, 2), -33_333_333);
    assert_eq!(obi(5, 0), SCALE);
}

#[test]
fn imbalance_of_very_large_volumes() {
    assert_eq!(obi(i64::MAX, i64::MAX), 0);
    assert_eq!(obi(i64::MAX, 0), SCALE);
    assert_eq!(obi(3 * (i64::MAX / 4), i64::MAX / 4), 50_000_000);
}

#[test]
fn snapshot_is_tagged_with_the_bar_of_its_timestamp() {
    let s = tag_with_bar(snapshot_from_depth(&vec![], &vec![], 1_234_567_890));
    assert_eq!(s.candle_open_time, 1_234_500_000);
    assert_eq!(s.timestamp_ms, 1_234_567_890);
    // before 1970 the bar still contains the snapshot
    let s = tag_with_bar(snapshot_from_depth(&vec![], &vec![], -1));
    assert_eq!(s.candle_open_time, -300_000);
    let s = tag_with_bar(snapshot_from_depth(&vec![], &vec![], -300_000));
    assert_eq!(s.candle_open_time, -300_000);
    let s = tag_with_bar(snapshot_from_depth(&vec![], &vec![], 0));
    assert_eq!(s.candle_open_time, 0);
}

#[test]
fn candles_are_refreshed_every_minute() {
    assert!(!sync_due(60_000, 0));
    assert!(sync_due(60_001, 0));
    assert!(sync_due(i64::MAX, i64::MIN));
}

#[test]
fn reads_levels_that_parse() {
    let raw = vec![
        (b"100.5".to_vec(), b"2".to_vec()),
        (b"bad".to_vec(), b"1".to_vec()),
        (b"99".to_vec(), b"x".to_vec()),
        (b"98".to_vec(), b"3".to_vec()),
    ];
    assert_eq!(parse_levels(&raw), vec![(10_050_000_000, 200_000_000), (9_800_000_000, 300_000_000)]);
}

#[test]
fn snapshot_of_a_depth_reply() {
    let bids: Vec<(i64, i64)> = (0..6).map(|i| ((100 - i) * SCALE, SCALE)).collect();
    let asks: Vec<(i64, i64)> = (0..6).map(|i| ((101 + i) * SCALE, 2 * SCALE)).collect();
    let s = snapshot_from_depth(&bids, &asks, 42);
    assert_eq!(s.candle_open_time, 0);
    assert_eq!(s.timestamp_ms, 42);
    assert_eq!((s.bid_vol_top5, s.ask_vol_top5), (5 * SCALE, 10 * SCALE));
    assert_eq!((s.bid_vol_top10, s.ask_vol_top10), (6 * SCALE, 12 * SCALE));
    assert_eq!((s.bid_vol_top20, s.ask_vol_top20), (6 * SCALE, 12 * SCALE));
    assert_eq!(s.obi_5, -33_333_333);
    assert_eq!(s.obi_10, -33_333_333);
    assert_eq!(s.spread, SCALE);
    assert_eq!(s.mid_price, 10_050_000_000);
    assert_eq!((s.bid_levels, s.ask_levels), (6, 6));
}

#[test]
fn snapshot_of_an_empty_book() {
    let s = snapshot_from_depth(&vec![], &vec![], 7);
    assert_eq!((s.obi_5, s.spread, s.mid_price, s.bid_levels), (0, 0, 0, 0));
}

#[test]
fn bar_of_an_instant() {
    assert_eq!(candle_slot(1_234_567_890), 1_234_500_000);
    assert_eq!(candle_slot(300_000), 300_000);
    assert_eq!(candle_slot(299_999), 0);
    assert_eq!(candle_slot(-1), 0);
    assert_eq!(candle_slot(-300_001), -300_000);
}
