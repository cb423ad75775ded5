use btc_updown::fixed::{Ratio, SCALE};
use btc_updown::models::Config;
use btc_updown::summary::{current_streak, per_trade, return_pct, share_pct};
use btc_updown::tracker::Outcome;

#[test]
fn win_rate_in_percent() {
    assert_eq!(share_pct(3, 4), Ratio { num: 300, den: 4 });
    assert_eq!(share_pct(3, 0), Ratio { num: 0, den: 1 });
}

#[test]
fn profit_per_trade() {
    assert_eq!(per_trade(10 * SCALE, 4), Ratio { num: 10 * SCALE, den: 4 });
    assert_eq!(per_trade(10 * SCALE, 0), Ratio { num: 0, den: 1 });
}

#[test]
fn return_on_the_start() {
    assert_eq!(return_pct(11 * SCALE, 10 * SCALE), Some(Ratio { num: 100 * SCALE, den: 10 * SCALE }));
    assert_eq!(return_pct(9 * SCALE, 10 * SCALE), Some(Ratio { num: -100 * SCALE, den: 10 * SCALE }));
    assert_eq!(return_pct(5, 0), None);
    assert_eq!(return_pct(-2, -1), Some(Ratio { num: 100, den: 1 }));
}

#[test]
fn config_keeps_its_settings() {
    let c = Config::new("data/predictor.db".to_string(), "slug".to_string(), SCALE);
    assert_eq!(c.db_path, "data/predictor.db");
    assert_eq!(c.market_slug, "slug");
    assert_eq!(c.bet_size, SCALE);
}

#[test]
fn current_streak_counts_the_newest_run() {
    assert_eq!(current_streak(&vec![]), 0);
    assert_eq!(current_streak(&vec![Outcome::Win]), 1);
    assert_eq!(current_streak(&vec![Outcome::Win, Outcome::Win, Outcome::Loss, Outcome::Win]), 2);
    assert_eq!(current_streak(&vec![Outcome::Loss, Outcome::Loss, Outcome::Loss]), 3);
    assert_eq!(current_streak(&vec![Outcome::Skip, Outcome::Win]), 1);
}
