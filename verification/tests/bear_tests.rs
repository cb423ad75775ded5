use btc_updown::bear::{
    candle_action, decide, has_enough_obi, insufficient_obi_trade, kelly_stake, next_open_time, obi_for_candle,
    pending_step, plan_trade, side_from_label, taker_ratio, CandleAction, CandleInfo, ObiAgg, ObiRow, PendingStep,
    Side, DEFAULT_ODDS, WIN_RATE,
};
use btc_updown::fixed::{Ratio, SCALE};
use btc_updown::tracker::Outcome;

fn half() -> Ratio {
    Ratio { num: 1, den: 2 }
}

#[test]
fn kelly_stake_is_capped_at_five_percent() {
    assert_eq!(kelly_stake(10_000 * SCALE, WIN_RATE, DEFAULT_ODDS), 500 * SCALE);
    assert_eq!(kelly_stake(SCALE, WIN_RATE, DEFAULT_ODDS), 5_000_000);
}

#[test]
fn kelly_stake_at_odds_of_one_is_zero() {
    assert_eq!(kelly_stake(10_000 * SCALE, WIN_RATE, SCALE), 0);
}

#[test]
fn kelly_stake_below_the_cap() {
    // decimal odds 1.5, rate 0.69: kelly = 0.69 - 0.31 / 0.5 = 0.07, half 0.035
    assert_eq!(kelly_stake(10_000 * SCALE, 69_000_000, 150_000_000), 350 * SCALE);
}

#[test]
fn kelly_stake_of_a_losing_proposition_is_zero() {
    assert_eq!(kelly_stake(10_000 * SCALE, 10_000_000, 3 * SCALE), 0);
}

#[test]
fn decide_bounce_zone_with_buying_takers() {
    assert_eq!(decide(-38_000_000, 0, half()).0, Side::Yes);
    assert_eq!(decide(-41_000_000, 0, Ratio { num: 48, den: 100 }).0, Side::Yes);
    assert_eq!(decide(-38_000_000, 0, Ratio { num: 47, den: 100 }).0, Side::Skip);
}

#[test]
fn decide_neutral_book_with_selling_takers() {
    let (side, reason) = decide(-30_000_000, 0, Ratio { num: 40, den: 100 });
    assert_eq!(side, Side::No);
    assert_eq!(reason, "neutral OBI + bearish taker flow");
}

#[test]
fn decide_fake_bounce() {
    let (side, reason) = decide(-50_000_000, 20_000_000, Ratio { num: 40, den: 100 });
    assert_eq!(side, Side::No);
    assert_eq!(reason, "fake OBI bounce + bearish taker flow");
    assert_eq!(decide(-35_000_000, 20_000_000, Ratio { num: 40, den: 100 }).0, Side::No);
}

#[test]
fn decide_skips_without_edge() {
    assert_eq!(decide(-35_000_000, 0, Ratio { num: 40, den: 100 }), (Side::Skip, "no edge"));
    assert_eq!(decide(-50_000_000, 0, Ratio { num: 40, den: 100 }).0, Side::Skip);
    assert_eq!(decide(-30_000_000, 0, Ratio { num: 45, den: 100 }).0, Side::Skip);
}

#[test]
fn taker_ratio_over_bars() {
    let rows = vec![(40 * SCALE, 100 * SCALE), (60 * SCALE, 100 * SCALE)];
    assert_eq!(taker_ratio(&rows), Ratio { num: 100 * SCALE, den: 200 * SCALE });
    assert_eq!(taker_ratio(&vec![]), half());
    assert_eq!(taker_ratio(&vec![(0, 0), (0, 0)]), half());
}

fn row(ts: i64, obi5: i64, obi10: i64, obi20: i64, spread: i64, bid: i64, ask: i64) -> ObiRow {
    ObiRow { timestamp_ms: ts, obi_5: obi5, obi_10: obi10, obi_20: obi20, spread, bid_vol_top5: bid, ask_vol_top5: ask }
}

#[test]
fn aggregates_the_snapshots_of_a_candle() {
    let open = 1_000_000;
    let rows = vec![
        row(1_010_000, 10_000_000, 1, -1, 1, 10, 5),
        row(1_100_000, 20_000_000, 2, -2, 2, 20, 5),
        row(1_250_000, -30_000_000, 4, -4, 3, 30, 5),
    ];
    let agg = obi_for_candle(&rows, open).unwrap();
    assert_eq!(agg.count, 3);
    assert_eq!(agg.obi5_avg, 0);
    assert_eq!(agg.obi10_avg, 2);
    assert_eq!(agg.obi20_avg, -2);
    assert_eq!(agg.spread_avg, 2);
    assert_eq!(agg.bid_vol5_avg, 20);
    assert_eq!(agg.ask_vol5_avg, 5);
    assert_eq!(agg.obi5_min, -30_000_000);
    assert_eq!(agg.obi5_max, 20_000_000);
    assert_eq!(agg.obi5_late, Some(-30_000_000));
    assert_eq!(agg.obi5_early, Some(10_000_000));
}

#[test]
fn no_aggregate_without_snapshots() {
    assert_eq!(obi_for_candle(&vec![], 0), None);
    let only_middle = vec![row(150_000, 5, 5, 5, 5, 5, 5)];
    let agg = obi_for_candle(&only_middle, 0).unwrap();
    assert_eq!(agg.obi5_late, None);
    assert_eq!(agg.obi5_early, None);
}

#[test]
fn reads_decision_labels() {
    assert_eq!(side_from_label(b"YES"), Side::Yes);
    assert_eq!(side_from_label(b"NO"), Side::No);
    assert_eq!(side_from_label(b"SKIP"), Side::Skip);
    assert_eq!(side_from_label(b"No"), Side::Skip);
    assert_eq!(Side::Yes.label(), "YES");
    assert_eq!(Side::No.label(), "NO");
    assert_eq!(Side::Skip.label(), "SKIP");
}

fn agg(count: i64, obi5: i64, late: Option<i64>, early: Option<i64>) -> ObiAgg {
    ObiAgg {
        count,
        obi5_avg: obi5,
        obi10_avg: 1,
        obi20_avg: 2,
        spread_avg: 3,
        bid_vol5_avg: 30,
        ask_vol5_avg: 10,
        obi5_min: obi5,
        obi5_max: obi5,
        obi5_late: late,
        obi5_early: early,
    }
}

#[test]
fn enough_order_book_data() {
    assert!(has_enough_obi(&Some(agg(10, 0, None, None))));
    assert!(!has_enough_obi(&Some(agg(9, 0, None, None))));
    assert!(!has_enough_obi(&None));
}

#[test]
fn skip_trade_without_order_book() {
    let t = insufficient_obi_trade(600_000, 70_000 * SCALE, 10_000 * SCALE);
    assert_eq!(t.decision, Side::Skip);
    assert_eq!(t.stake, 0);
    assert_eq!(t.odds, DEFAULT_ODDS);
    assert_eq!(t.entry_price, Some(70_000 * SCALE));
    assert_eq!(t.balance_at_entry, 10_000 * SCALE);
}

#[test]
fn plans_a_no_trade_on_a_fake_bounce() {
    let a = agg(20, -50_000_000, Some(-20_000_000), Some(-35_000_000));
    let (t, reason) = plan_trade(600_000, 70_000 * SCALE, &a, Ratio { num: 40, den: 100 }, 10_000 * SCALE);
    assert_eq!(t.decision, Side::No);
    assert_eq!(reason, "fake OBI bounce + bearish taker flow");
    assert_eq!(t.obi5_momentum, Some(15_000_000));
    assert_eq!(t.bid_ask_ratio_5, Some(Ratio { num: 30, den: 10 }));
    assert_eq!(t.spread, Some(3));
    assert_eq!(t.stake, 500 * SCALE);
}

#[test]
fn planned_skip_stakes_nothing() {
    let a = agg(20, -50_000_000, None, Some(-35_000_000));
    let (t, _) = plan_trade(600_000, 70_000 * SCALE, &a, Ratio { num: 40, den: 100 }, 10_000 * SCALE);
    assert_eq!(t.decision, Side::Skip);
    assert_eq!(t.obi5_momentum, Some(0));
    assert_eq!(t.stake, 0);
}

#[test]
fn next_bar_opens_five_minutes_later() {
    assert_eq!(next_open_time(600_000), 900_000);
}

fn info(open: i64, close: i64) -> CandleInfo {
    CandleInfo { open_time: 900_000, close_time: 1_199_999, open, close }
}

#[test]
fn settles_a_won_yes_trade() {
    let step = pending_step(Side::Yes, 500 * SCALE, 600_000, Some(info(100, 101)), 0, 10_000 * SCALE);
    assert_eq!(
        step,
        PendingStep::Settle {
            outcome: Outcome::Win,
            pnl: 49_009_900_990,
            exit_price: 101,
            balance: 10_000 * SCALE + 49_009_900_990,
        }
    );
}

#[test]
fn settles_a_lost_no_trade() {
    let step = pending_step(Side::No, 500 * SCALE, 600_000, Some(info(100, 100)), 0, 10_000 * SCALE);
    assert_eq!(
        step,
        PendingStep::Settle { outcome: Outcome::Loss, pnl: -500 * SCALE, exit_price: 100, balance: 9_500 * SCALE }
    );
}

#[test]
fn skip_trade_settles_as_a_skip() {
    for (o, c) in [(100, 101), (100, 99)] {
        let step = pending_step(Side::Skip, 0, 600_000, Some(info(o, c)), 0, 10_000 * SCALE);
        assert_eq!(
            step,
            PendingStep::Settle { outcome: Outcome::Skip, pnl: 0, exit_price: c, balance: 10_000 * SCALE }
        );
    }
    assert_eq!(Outcome::Skip.label(), "SKIP");
}

#[test]
fn one_trade_per_candle() {
    // a new candle with no trade logged is traded once
    assert_eq!(candle_action(0, 600_000, false), (CandleAction::Trade, 600_000));
    assert_eq!(candle_action(600_000, 600_000, true), (CandleAction::Ignore, 600_000));
    // a candle with a trade logged already is noted, not traded
    assert_eq!(candle_action(0, 600_000, true), (CandleAction::Seen, 600_000));
}

#[test]
fn waits_then_expires_without_the_next_bar() {
    assert_eq!(pending_step(Side::Yes, SCALE, 600_000, None, 1_500_000, 0), PendingStep::Wait);
    assert_eq!(pending_step(Side::Yes, SCALE, 600_000, None, 1_500_001, 0), PendingStep::Expire);
}

#[test]
fn yes_and_no_trades_split_every_bar() {
    for (o, c) in [(100, 101), (100, 100), (100, 99)] {
        let y = pending_step(Side::Yes, SCALE, 0, Some(info(o, c)), 0, 0);
        let n = pending_step(Side::No, SCALE, 0, Some(info(o, c)), 0, 0);
        let won = |s: PendingStep| matches!(s, PendingStep::Settle { outcome: Outcome::Win, .. });
        assert!(won(y) != won(n));
    }
}
