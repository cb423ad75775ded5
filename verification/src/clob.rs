//! Odds of the prediction market's five-minute BTC up/down markets, from the
//! quote that its market API gives.
use vstd::prelude::*;
use crate::fixed::{all_digits, digits_value, div_wide, in_range, is_digit, parse_decimal, spec_parse_decimal, tdiv, SCALE};

verus! {

/// Price of YES where the quote gives none: 0.505.
pub const DEFAULT_YES: i64 = 50_500_000;
/// Price of NO where the quote gives none: 0.495.
pub const DEFAULT_NO: i64 = 49_500_000;
/// Half the spread assumed around the YES price where the book gives none: 0.005.
pub const HALF_SPREAD: i64 = 500_000;

/// Odds of one market; prices in units.
#[derive(Clone, Debug)]
pub struct MarketOdds {
    pub yes_price: i64,
    pub no_price: i64,
    pub yes_best_bid: i64,
    pub yes_best_ask: i64,
    pub no_best_bid: i64,
    pub no_best_ask: i64,
    pub spread: i64,
    pub slug: Vec<u8>,
    pub fetched_at_ms: i64,
}

/// Decimal digits of `n`, most significant first.
pub open spec fn digits_of(n: nat) -> Seq<u8>
    decreases n,
{
    if n < 10 {
        seq![(48 + n) as u8]
    } else {
        digits_of(n / 10).push((48 + n % 10) as u8)
    }
}

/// `n` in decimal, with a leading `-` when negative.
pub open spec fn decimal_text(n: int) -> Seq<u8> {
    if n < 0 {
        seq![45u8] + digits_of((-n) as nat)
    } else {
        digits_of(n as nat)
    }
}

/// Prefix of the slug of a five-minute BTC up/down market.
pub open spec fn slug_prefix() -> Seq<u8> {
    seq![98u8, 116u8, 99u8, 45u8, 117u8, 112u8, 100u8, 111u8, 119u8, 110u8, 45u8, 53u8, 109u8, 45u8]
}

/// Slug of the market of the block that opens at `block_open_time_ms`:
/// `btc-updown-5m-` and the block's open in whole seconds.
pub open spec fn spec_market_slug(block_open_time_ms: int) -> Seq<u8> {
    slug_prefix() + decimal_text(tdiv(block_open_time_ms, 1000))
}

fn push_digits(out: &mut Vec<u8>, n: u64)
    ensures
        final(out)@ == old(out)@ + digits_of(n as nat),
    decreases n,
{
    if n >= 10 {
        push_digits(out, n / 10);
    }
    out.push(48u8 + (n % 10) as u8);
    proof {
        if n < 10 {
            assert(digits_of(n as nat) == seq![(48 + n) as u8]);
        }
    }
}

pub fn market_slug(block_open_time_ms: i64) -> (s: Vec<u8>)
    ensures
        s@ == spec_market_slug(block_open_time_ms as int),
{
    let mut out: Vec<u8> = Vec::new();
    out.push(98u8);
    out.push(116u8);
    out.push(99u8);
    out.push(45u8);
    out.push(117u8);
    out.push(112u8);
    out.push(100u8);
    out.push(111u8);
    out.push(119u8);
    out.push(110u8);
    out.push(45u8);
    out.push(53u8);
    out.push(109u8);
    out.push(45u8);
    proof {
        assert(out@ =~= slug_prefix());
        let a = block_open_time_ms as int;
        if a >= 0 {
            assert(0 <= a / 1000 <= a) by (nonlinear_arith)
                requires a >= 0;
        } else {
            assert(0 <= (-a) / 1000 <= 9_223_372_036_854_776) by (nonlinear_arith)
                requires 0 < -a <= 0x8000_0000_0000_0000;
        }
    }
    let secs = div_wide(block_open_time_ms as i128, 1000) as i64;
    if secs < 0 {
        out.push(45u8);
        push_digits(&mut out, (-secs) as u64);
        proof {
            assert(out@ =~= slug_prefix() + decimal_text(secs as int));
        }
    } else {
        push_digits(&mut out, secs as u64);
        proof {
            assert(out@ =~= slug_prefix() + decimal_text(secs as int));
        }
    }
    out
}

/// A decimal field of the quote, `None` where it is absent or does not read.
pub open spec fn opt_units(v: Option<Vec<u8>>) -> Option<i64> {
    match v {
        Some(t) => match spec_parse_decimal(t@) {
            Some(x) => Some(x as i64),
            None => None,
        },
        None => None,
    }
}

pub open spec fn or_default(v: Option<i64>, d: int) -> int {
    match v {
        Some(x) => x as int,
        None => d,
    }
}

/// Odds that a quote gives: YES and NO prices are the first two outcome
/// prices (0.505 and 0.495 where absent); the YES bid and ask are the book's
/// best (the YES price less or plus 0.005 where absent); the NO bid and ask
/// mirror the YES ask and bid; the spread is the book's, or ask less bid.
pub open spec fn spec_odds(
    slug: Vec<u8>,
    outcome_prices: Seq<Vec<u8>>,
    best_bid: Option<Vec<u8>>,
    best_ask: Option<Vec<u8>>,
    spread: Option<Vec<u8>>,
    fetched_at_ms: i64,
) -> MarketOdds {
    let yes = if outcome_prices.len() >= 1 { or_default(opt_units(Some(outcome_prices[0])), DEFAULT_YES as int) } else { DEFAULT_YES as int };
    let no = if outcome_prices.len() >= 2 { or_default(opt_units(Some(outcome_prices[1])), DEFAULT_NO as int) } else { DEFAULT_NO as int };
    let bid = or_default(opt_units(best_bid), yes - HALF_SPREAD);
    let ask = or_default(opt_units(best_ask), yes + HALF_SPREAD);
    MarketOdds {
        yes_price: yes as i64,
        no_price: no as i64,
        yes_best_bid: bid as i64,
        yes_best_ask: ask as i64,
        no_best_bid: (SCALE - ask) as i64,
        no_best_ask: (SCALE - bid) as i64,
        spread: or_default(opt_units(spread), ask - bid) as i64,
        slug,
        fetched_at_ms,
    }
}

fn read_opt(v: &Option<Vec<u8>>) -> (r: Option<i64>)
    ensures
        r == opt_units(*v),
        r matches Some(x) ==> in_range(x as int),
{
    match v {
        Some(t) => parse_decimal(t.as_slice()),
        None => None,
    }
}

/// The odds that a market's quote gives.
pub fn odds_from_quote(
    slug: Vec<u8>,
    outcome_prices: &Vec<Vec<u8>>,
    best_bid: &Option<Vec<u8>>,
    best_ask: &Option<Vec<u8>>,
    spread: &Option<Vec<u8>>,
    fetched_at_ms: i64,
) -> (m: MarketOdds)
    ensures
        m == spec_odds(slug, outcome_prices@, *best_bid, *best_ask, *spread, fetched_at_ms),
{
    let yes: i64 = if outcome_prices.len() >= 1 {
        match parse_decimal(outcome_prices[0].as_slice()) {
            Some(v) => v,
            None => DEFAULT_YES,
        }
    } else {
        DEFAULT_YES
    };
    let no: i64 = if outcome_prices.len() >= 2 {
        match parse_decimal(outcome_prices[1].as_slice()) {
            Some(v) => v,
            None => DEFAULT_NO,
        }
    } else {
        DEFAULT_NO
    };
    let bid = match read_opt(best_bid) {
        Some(v) => v,
        None => yes - HALF_SPREAD,
    };
    let ask = match read_opt(best_ask) {
        Some(v) => v,
        None => yes + HALF_SPREAD,
    };
    let sp = match read_opt(spread) {
        Some(v) => v,
        None => ask - bid,
    };
    MarketOdds {
        yes_price: yes,
        no_price: no,
        yes_best_bid: bid,
        yes_best_ask: ask,
        no_best_bid: SCALE - ask,
        no_best_ask: SCALE - bid,
        spread: sp,
        slug,
        fetched_at_ms,
    }
}

proof fn lemma_digits_of_read_back(n: nat)
    ensures
        all_digits(digits_of(n)),
        digits_value(digits_of(n)) == n,
        digits_of(n).len() >= 1,
        n > 0 ==> digits_of(n)[0] != 48u8,
    decreases n,
{
    if n >= 10 {
        lemma_digits_of_read_back(n / 10);
        let d = digits_of(n / 10);
        let s = digits_of(n);
        assert(s.drop_last() =~= d);
        assert forall|i: int| 0 <= i < s.len() implies is_digit(#[trigger] s[i]) by {
            if i < d.len() {
                assert(s[i] == d[i]);
            }
        }
        assert(n == (n / 10) * 10 + n % 10);
        assert(s[0] == d[0]);
        assert(s.last() == (48 + n % 10) as u8);
        assert(((48 + n % 10) as u8) as int == 48 + n % 10);
        assert(digits_value(s) == digits_value(d) * 10 + (s.last() - 48) as nat);
    } else {
        let s = digits_of(n);
        assert(s.drop_last() =~= Seq::<u8>::empty());
        assert(s.last() == (48 + n) as u8);
        assert(digits_value(s) == digits_value(s.drop_last()) * 10 + (s.last() - 48) as nat);
        assert(is_digit(s[0]));
    }
}

/// The market slug is `btc-updown-5m-` followed by decimal digits, without
/// leading zeros, that read back as the block's open time in whole seconds.
pub proof fn lemma_slug_names_the_block(block_open_time_ms: int)
    requires
        block_open_time_ms >= 1000,
    ensures
        ({
            let s = spec_market_slug(block_open_time_ms);
            let secs = s.skip(14);
            &&& s.take(14) == seq![98u8, 116u8, 99u8, 45u8, 117u8, 112u8, 100u8, 111u8, 119u8, 110u8, 45u8, 53u8, 109u8, 45u8]
            &&& all_digits(secs)
            &&& secs.len() >= 1 && secs[0] != 48u8
            &&& digits_value(secs) * 1000 <= block_open_time_ms < (digits_value(secs) + 1) * 1000
        }),
{
    let secs = block_open_time_ms / 1000;
    assert(secs >= 1);
    lemma_digits_of_read_back(secs as nat);
    let s = spec_market_slug(block_open_time_ms);
    assert(s.take(14) =~= slug_prefix());
    assert(s.skip(14) =~= digits_of(secs as nat));
}

/// The NO side mirrors the YES book: NO bid plus YES ask is one, NO ask plus
/// YES bid is one. Without a book the YES bid and ask sit 0.005 either side
/// of the YES price and the spread is their difference; without prices YES
/// is 0.505 and NO 0.495.
pub proof fn lemma_odds_mirror(
    slug: Vec<u8>,
    outcome_prices: Seq<Vec<u8>>,
    best_bid: Option<Vec<u8>>,
    best_ask: Option<Vec<u8>>,
    spread: Option<Vec<u8>>,
    fetched_at_ms: i64,
)
    ensures
        ({
            let m = spec_odds(slug, outcome_prices, best_bid, best_ask, spread, fetched_at_ms);
            &&& m.no_best_bid + m.yes_best_ask == SCALE
            &&& m.no_best_ask + m.yes_best_bid == SCALE
            &&& best_bid is None ==> m.yes_best_bid == m.yes_price - 500_000
            &&& best_ask is None ==> m.yes_best_ask == m.yes_price + 500_000
            &&& spread is None ==> m.spread == m.yes_best_ask - m.yes_best_bid
            &&& outcome_prices.len() == 0 ==> m.yes_price == 50_500_000 && m.no_price == 49_500_000
            &&& m.slug == slug && m.fetched_at_ms == fetched_at_ms
        }),
{
}

} // verus!
