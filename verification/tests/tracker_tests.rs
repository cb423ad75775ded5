use btc_updown::fixed::{Ratio, SCALE};
use btc_updown::tracker::{label_is_no, outcome_from_label, resolve_bet, KellySizer, Outcome};

fn sizer() -> KellySizer {
    KellySizer::new(10_000 * SCALE, 5_000_000, 50_500_000)
}

#[test]
fn new_sizer_starts_at_its_balance() {
    let k = sizer();
    assert_eq!(k.balance, 10_000 * SCALE);
    assert_eq!(k.starting_balance, 10_000 * SCALE);
    assert_eq!(k.max_bet_pct, 5_000_000);
    assert_eq!(k.avg_odds, 50_500_000);
}

#[test]
fn half_kelly_at_market_odds() {
    // b = 0.495 / 0.505; kelly = 0.555 - 0.445 / b = 0.10101...; half Kelly
    // of 10 000 is 505.05, capped at 5% of the balance: 500
    assert_eq!(sizer().size(55_500_000, 50_500_000), 500 * SCALE);
}

#[test]
fn half_kelly_stake_scales_with_the_balance() {
    // with no effective cap: 10 000 * 0.0505050 = 505.0505
    let k = KellySizer::new(10_000 * SCALE, SCALE, 50_500_000);
    assert_eq!(k.size(55_500_000, 50_500_000), 50_505_050_000);
    let k = KellySizer::new(20_000 * SCALE, SCALE, 50_500_000);
    assert_eq!(k.size(55_500_000, 50_500_000), 2 * 50_505_050_000);
}

#[test]
fn stake_is_capped_by_balance_share() {
    let k = KellySizer::new(SCALE / 2, 5_000_000, 50_500_000);
    assert_eq!(k.size(55_500_000, 50_500_000), 2_500_000);
}

#[test]
fn no_stake_outside_open_probabilities_or_at_certain_odds() {
    let k = sizer();
    assert_eq!(k.size(0, 50_500_000), 0);
    assert_eq!(k.size(SCALE, 50_500_000), 0);
    assert_eq!(k.size(55_500_000, SCALE), 0);
    assert_eq!(k.size(40_000_000, 50_500_000), 0);
}

#[test]
fn tiny_odds_count_as_even_money() {
    // kelly = 0.555 - 0.445 = 0.11; half of 10 000 = 550
    let k = KellySizer::new(10_000 * SCALE, SCALE, 50_500_000);
    assert_eq!(k.size(55_500_000, 0), 550 * SCALE);
    assert_eq!(k.size(55_500_000, 99), 550 * SCALE);
    assert_eq!(sizer().size(55_500_000, 0), 500 * SCALE);
}

#[test]
fn odds_above_one_follow_the_formula() {
    // kelly = 0.555 + 0.445 * 2 / 1 = 1.445; half of 10 000 = 7 225
    let k = KellySizer::new(10_000 * SCALE, SCALE, 50_500_000);
    assert_eq!(k.size(55_500_000, 2 * SCALE), 7_225 * SCALE);
}

#[test]
fn settle_win_and_loss() {
    let mut k = sizer();
    k.settle(5_050_505, true, 50_500_000);
    assert_eq!(k.balance, 10_000 * SCALE + 2_499_999);
    k.settle(5_050_505, false, 50_500_000);
    assert_eq!(k.balance, 10_000 * SCALE + 2_499_999 - 5_050_505);
    assert_eq!(k.starting_balance, 10_000 * SCALE);
}

#[test]
fn roi_in_percent() {
    let mut k = sizer();
    assert_eq!(k.roi(), Ratio { num: 0, den: 10_000 * SCALE });
    k.balance = 11_000 * SCALE;
    assert_eq!(k.roi(), Ratio { num: 1_000 * SCALE * 100, den: 10_000 * SCALE });
    let z = KellySizer::new(99, 5_000_000, 50_500_000);
    assert_eq!(z.roi(), Ratio { num: 0, den: 1 });
}

#[test]
fn labels_of_no_bets() {
    assert!(label_is_no(b"NO"));
    assert!(label_is_no(b"No"));
    assert!(!label_is_no(b"no"));
    assert!(!label_is_no(b"YES"));
    assert_eq!(Outcome::Win.label(), "WIN");
    assert_eq!(Outcome::Loss.label(), "LOSS");
}

#[test]
fn yes_bet_resolves_on_up_block() {
    assert_eq!(resolve_bet(b"YES", 100, 101, SCALE, 50_000_000), (Outcome::Win, 50_000_000));
    assert_eq!(resolve_bet(b"YES", 100, 100, SCALE, 50_000_000), (Outcome::Win, 50_000_000));
    assert_eq!(resolve_bet(b"YES", 100, 99, SCALE, 50_000_000), (Outcome::Loss, -SCALE));
}

#[test]
fn no_bet_resolves_on_down_block() {
    assert_eq!(resolve_bet(b"NO", 100, 99, SCALE, 50_000_000), (Outcome::Win, 50_000_000));
    assert_eq!(resolve_bet(b"No", 100, 99, SCALE, 50_000_000), (Outcome::Win, 50_000_000));
    assert_eq!(resolve_bet(b"NO", 100, 100, SCALE, 50_000_000), (Outcome::Loss, -SCALE));
}

#[test]
fn yes_and_no_never_both_win() {
    for (o, c) in [(100, 101), (100, 100), (100, 99)] {
        let yes = resolve_bet(b"YES", o, c, SCALE, 50_000_000).0 == Outcome::Win;
        let no = resolve_bet(b"NO", o, c, SCALE, 50_000_000).0 == Outcome::Win;
        assert!(yes != no);
    }
}

#[test]
fn outcomes_read_from_their_labels() {
    assert_eq!(outcome_from_label(b"WIN"), Some(Outcome::Win));
    assert_eq!(outcome_from_label(b"LOSS"), Some(Outcome::Loss));
    assert_eq!(outcome_from_label(b"SKIP"), Some(Outcome::Skip));
    assert_eq!(outcome_from_label(b"win"), None);
    assert_eq!(outcome_from_label(b""), None);
    for o in [Outcome::Win, Outcome::Loss, Outcome::Skip] {
        assert_eq!(outcome_from_label(o.label().as_bytes()), Some(o));
    }
}
