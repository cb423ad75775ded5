use btc_updown::clob::{market_slug, odds_from_quote};

#[test]
fn slug_of_a_block() {
    assert_eq!(market_slug(1_700_000_100_000), b"btc-updown-5m-1700000100".to_vec());
    assert_eq!(market_slug(1_700_000_100_999), b"btc-updown-5m-1700000100".to_vec());
    assert_eq!(market_slug(999), b"btc-updown-5m-0".to_vec());
    assert_eq!(market_slug(-5_000), b"btc-updown-5m--5".to_vec());
}

#[test]
fn odds_from_a_full_quote() {
    let m = odds_from_quote(
        b"s".to_vec(),
        &vec![b"0.52".to_vec(), b"0.48".to_vec()],
        &Some(b"0.51".to_vec()),
        &Some(b"0.53".to_vec()),
        &Some(b"0.02".to_vec()),
        77,
    );
    assert_eq!((m.yes_price, m.no_price), (52_000_000, 48_000_000));
    assert_eq!((m.yes_best_bid, m.yes_best_ask), (51_000_000, 53_000_000));
    assert_eq!((m.no_best_bid, m.no_best_ask), (47_000_000, 49_000_000));
    assert_eq!(m.spread, 2_000_000);
    assert_eq!(m.slug, b"s".to_vec());
    assert_eq!(m.fetched_at_ms, 77);
}

#[test]
fn odds_fill_in_what_the_quote_lacks() {
    let m = odds_from_quote(b"s".to_vec(), &vec![b"0.52".to_vec(), b"0.48".to_vec()], &Some(b"0.51".to_vec()), &None, &None, 0);
    assert_eq!(m.yes_best_ask, 52_500_000);
    assert_eq!(m.no_best_bid, 47_500_000);
    assert_eq!(m.no_best_ask, 49_000_000);
    assert_eq!(m.spread, 1_500_000);
}

#[test]
fn odds_of_an_empty_quote() {
    let m = odds_from_quote(b"s".to_vec(), &vec![], &None, &Some(b"bad".to_vec()), &None, 0);
    assert_eq!((m.yes_price, m.no_price), (50_500_000, 49_500_000));
    assert_eq!((m.yes_best_bid, m.yes_best_ask), (50_000_000, 51_000_000));
    assert_eq!((m.no_best_bid, m.no_best_ask), (49_000_000, 50_000_000));
    assert_eq!(m.spread, 1_000_000);
}
