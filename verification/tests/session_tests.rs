use btc_updown::candle::Candle;
use btc_updown::decision::Thresholds;
use btc_updown::fixed::{Ratio, SCALE};
use btc_updown::session::{bet_block, simulate, BullSession, RegimeChange, MIN_STAKE};
use btc_updown::tracker::{KellySizer, Outcome};

/// Bars falling one whole per bar from 200; each opens where it closes.
fn falling(n: i64) -> Vec<Candle> {
    (0..n)
        .map(|i| Candle {
            open_time: i * 300_000,
            close_time: i * 300_000 + 299_999,
            open: (200 - i) * SCALE,
            high: (200 - i) * SCALE,
            low: (200 - i) * SCALE,
            close: (200 - i) * SCALE,
            volume: SCALE,
            taker_buy_vol: SCALE / 2,
            trades: 1,
        })
        .collect()
}

fn sizer() -> KellySizer {
    KellySizer::new(10_000 * SCALE, 5_000_000, 50_500_000)
}

#[test]
fn simulation_needs_twenty_bars() {
    assert!(simulate(&falling(19), &sizer()).is_none());
}

#[test]
fn simulation_bets_on_every_bull_bar() {
    let rep = simulate(&falling(30), &sizer()).unwrap();
    // bars 10 and 11 lack an hour of history; bars 12..=28 are in BULL
    assert_eq!(rep.bets.len(), 17);
    assert_eq!(rep.wins, 17);
    let first = rep.bets[0];
    assert_eq!(first.block_open_time, 13 * 300_000);
    assert_eq!(first.block_close_time, 13 * 300_000 + 299_999);
    assert_eq!(first.reference_price, 188 * SCALE);
    assert_eq!(first.stake, 500 * SCALE);
    assert_eq!(first.odds, 50_500_000);
    assert_eq!(first.outcome, Outcome::Win);
    assert_eq!(first.pnl, 24_750_000_000);
    assert_eq!(first.momentum, Ratio { num: -12 * SCALE * 100, den: 200 * SCALE });
}

#[test]
fn simulation_without_a_stake_bets_nothing() {
    let poor = KellySizer::new(SCALE / 100, 5_000_000, 50_500_000);
    let rep = simulate(&falling(30), &poor).unwrap();
    assert!(rep.bets.is_empty());
    assert_eq!(rep.wins, 0);
}

#[test]
fn block_after_a_bar() {
    assert_eq!(bet_block(600_000), (900_000, 1_199_999));
}

#[test]
fn live_session_over_bars() {
    let th = Thresholds::default();
    let k = sizer();
    let mut s = BullSession::new();
    assert_eq!(s.begin_bar(), None);
    assert!(!BullSession::has_history(13, &th));
    assert!(BullSession::has_history(14, &th));
    let bars = falling(14);
    let (change, _) = s.step_regime(&bars, &th);
    assert_eq!(change, RegimeChange::Entered);
    assert!(s.in_bull);
    assert_eq!(s.place(&k, 50_500_000, 4_200_000), Some(500 * SCALE));
    // one bet per block
    assert_eq!(s.place(&k, 60_000_000, 4_200_000), None);
    assert_eq!((s.current_stake, s.current_odds), (500 * SCALE, 50_500_000));
    assert_eq!(s.last_bet_block, Some(4_200_000));
    assert_eq!(s.begin_bar(), Some((500 * SCALE, 50_500_000)));
    assert_eq!(s.bar_count, 2);
    s.stand_aside();
    assert_eq!(s.begin_bar(), None);
    let (change, _) = s.step_regime(&bars, &th);
    assert_eq!(change, RegimeChange::Held);
}

#[test]
fn small_stakes_are_not_placed() {
    let poor = KellySizer::new(SCALE / 100, 5_000_000, 50_500_000);
    let mut s = BullSession::new();
    assert_eq!(s.place(&poor, 50_500_000, 300_000), None);
    assert_eq!(s.last_bet_block, None);
    assert_eq!(s.current_stake, 0);
    assert!(MIN_STAKE == 1_000_000);
}

#[test]
fn summary_every_day_of_bars() {
    let mut s = BullSession::new();
    for _ in 0..287 {
        s.begin_bar();
        assert!(!s.summary_due());
    }
    s.begin_bar();
    assert!(s.summary_due());
}
