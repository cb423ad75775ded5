//! Kelly position sizing for binary bets and the settlement of paper bets.
use vstd::prelude::*;
use crate::fixed::{div_wide, in_range, max_int, min_int, mul_wide, tdiv, Ratio, SCALE};

verus! {

/// Odds below this many units (1e-6) count as no odds at all.
pub const MIN_ODDS: i64 = 100;

/// Full Kelly fraction, in units, for winning probability `p` at price `o`
/// (the payout per unit staked is `(1 - o) / o`); an odds price below
/// `MIN_ODDS` counts as even money. Undefined at `o == SCALE`.
pub open spec fn spec_kelly_units(p: int, o: int) -> int {
    let q = SCALE - p;
    if o < MIN_ODDS {
        p - q
    } else if o < SCALE {
        p - tdiv(q * o, SCALE - o)
    } else {
        p + tdiv(q * o, o - SCALE)
    }
}

/// Stake that `KellySizer::size` gives: the balance times half the Kelly
/// fraction, at most `max_bet_pct` of the balance, never negative; nothing
/// outside `0 < p < 1` or at a price of 1.
pub open spec fn spec_size(balance: int, max_bet_pct: int, p: int, o: int) -> int {
    if p <= 0 || p >= SCALE || o == SCALE {
        0
    } else {
        let half = tdiv(spec_kelly_units(p, o), 2);
        max_int(min_int(tdiv(balance * half, SCALE as int), tdiv(balance * max_bet_pct, SCALE as int)), 0)
    }
}

/// Balance after settling a bet of `stake` at price `odds`.
pub open spec fn spec_settled(balance: int, stake: int, won: bool, odds: int) -> int {
    if won {
        balance + tdiv(stake * (SCALE - odds), SCALE as int)
    } else {
        balance - stake
    }
}

/// Kelly criterion position sizing for binary bets; all fields are quantities.
pub struct KellySizer {
    pub balance: i64,
    pub starting_balance: i64,
    pub max_bet_pct: i64,
    pub avg_odds: i64,
}

impl KellySizer {
    pub fn new(starting_balance: i64, max_bet_pct: i64, avg_odds: i64) -> (k: KellySizer)
        ensures
            k.balance == starting_balance,
            k.starting_balance == starting_balance,
            k.max_bet_pct == max_bet_pct,
            k.avg_odds == avg_odds,
    {
        KellySizer { balance: starting_balance, starting_balance, max_bet_pct, avg_odds }
    }

    /// Kelly stake for a binary bet. Uses half-Kelly for safety, capped at
    /// `max_bet_pct` of the balance.
    pub fn size(&self, win_prob: i64, odds: i64) -> (stake: i64)
        requires
            in_range(tdiv(self.balance * self.max_bet_pct, SCALE as int)),
        ensures
            stake == spec_size(self.balance as int, self.max_bet_pct as int, win_prob as int, odds as int),
            0 <= stake,
            stake <= max_int(tdiv(self.balance * self.max_bet_pct, SCALE as int), 0),
    {
        if win_prob <= 0 || win_prob >= SCALE {
            return 0;
        }
        if odds == SCALE {
            return 0;
        }
        let p = win_prob as i128;
        let q: i128 = SCALE as i128 - p;
        let kelly: i128 = if odds < MIN_ODDS {
            p - q
        } else if odds < SCALE {
            let prod = mul_wide(SCALE - win_prob, odds);
            proof {
                assert(0 <= prod <= 100_000_000 * 100_000_000) by (nonlinear_arith)
                    requires prod == (SCALE - win_prob) * odds, 0 < SCALE - win_prob <= 100_000_000,
                        0 <= odds <= 100_000_000;
                assert(0 <= (prod as int) / (SCALE - odds) <= prod) by (nonlinear_arith)
                    requires prod >= 0, SCALE - odds >= 1;
            }
            p - div_wide(prod, (SCALE - odds) as i128)
        } else {
            let prod = mul_wide(SCALE - win_prob, odds);
            proof {
                let qq = SCALE - win_prob;
                let d = odds - SCALE;
                assert(prod == qq * (SCALE + d));
                assert(0 <= prod <= qq * (SCALE + 1) * d) by (nonlinear_arith)
                    requires prod == qq * (SCALE + d), 0 < qq, d >= 1, SCALE == 100_000_000;
                assert(qq * (SCALE + 1) <= 100_000_000 * 100_000_001) by (nonlinear_arith)
                    requires 0 < qq <= 100_000_000, SCALE == 100_000_000;
                assert(0 <= (prod as int) / d <= qq * (SCALE + 1)) by (nonlinear_arith)
                    requires 0 <= prod <= qq * (SCALE + 1) * d, d >= 1, qq > 0;
            }
            p + div_wide(prod, (odds as i128) - (SCALE as i128))
        };
        let half = div_wide(kelly, 2);
        proof {
            assert(-20_000_000_000_000_000 <= kelly <= 20_000_000_000_000_000);
            assert(-10_000_000_000_000_000 <= half <= 10_000_000_000_000_000);
            let b = self.balance as int;
            let bh = b * half;
            assert(-0x8000_0000_0000_0000 * 10_000_000_000_000_000 <= bh <= 0x8000_0000_0000_0000
                * 10_000_000_000_000_000) by (nonlinear_arith)
                requires
                    bh == b * half,
                    -0x8000_0000_0000_0000 <= b <= 0x8000_0000_0000_0000,
                    -10_000_000_000_000_000 <= half <= 10_000_000_000_000_000,
            ;
        }
        let raw = div_wide((self.balance as i128) * half, SCALE as i128);
        let cap = div_wide(mul_wide(self.balance, self.max_bet_pct), SCALE as i128) as i64;
        let capped: i128 = if raw <= cap as i128 {
            raw
        } else {
            cap as i128
        };
        if capped >= 0 {
            capped as i64
        } else {
            0
        }
    }

    /// Settles a bet: a win pays `stake * (1 - odds)`, a loss costs the stake.
    pub fn settle(&mut self, stake: i64, won: bool, odds: i64)
        requires
            in_range(stake as int),
            in_range(odds as int),
            in_range(spec_settled(old(self).balance as int, stake as int, won, odds as int)),
        ensures
            final(self).balance == spec_settled(old(self).balance as int, stake as int, won, odds as int),
            final(self).starting_balance == old(self).starting_balance,
            final(self).max_bet_pct == old(self).max_bet_pct,
            final(self).avg_odds == old(self).avg_odds,
    {
        if won {
            proof {
                assert(-1_000_000_000_000_000 * 1_000_000_100_000_000 <= stake * (SCALE - odds)
                    <= 1_000_000_000_000_000 * 1_000_000_100_000_000) by (nonlinear_arith)
                    requires
                        -1_000_000_000_000_000 <= stake <= 1_000_000_000_000_000,
                        -1_000_000_100_000_000 <= SCALE - odds <= 1_000_000_100_000_000,
                ;
            }
            let gain = div_wide((stake as i128) * ((SCALE - odds) as i128), SCALE as i128);
            self.balance = (self.balance as i128 + gain) as i64;
        } else {
            self.balance = self.balance - stake;
        }
    }

    /// Return on the starting balance, in percent; zero when the starting
    /// balance is below 1e-6.
    pub fn roi(&self) -> (r: Ratio)
        requires
            in_range(self.balance as int),
            in_range(self.starting_balance as int),
        ensures
            r.wf(),
            self.starting_balance < MIN_ODDS ==> r == (Ratio { num: 0, den: 1 }),
            self.starting_balance >= MIN_ODDS ==> r == (Ratio {
                num: ((self.balance - self.starting_balance) * 100) as i64,
                den: self.starting_balance,
            }),
    {
        if self.starting_balance < MIN_ODDS {
            Ratio { num: 0, den: 1 }
        } else {
            Ratio { num: (self.balance - self.starting_balance) * 100, den: self.starting_balance }
        }
    }
}

/// Outcome of a settled bet.
#[derive(Clone, Copy, Debug, PartialEq, Eq, Structural)]
pub enum Outcome {
    Win,
    Loss,
    /// A skipped trade settles apart from wins and losses.
    Skip,
}

impl Outcome {
    /// The label that the trade log stores.
    pub fn label(&self) -> (s: &'static str)
        ensures
            *self == Outcome::Win ==> s@ == "WIN"@,
            *self == Outcome::Loss ==> s@ == "LOSS"@,
            *self == Outcome::Skip ==> s@ == "SKIP"@,
    {
        match self {
            Outcome::Win => "WIN",
            Outcome::Loss => "LOSS",
            Outcome::Skip => "SKIP",
        }
    }
}

/// The outcome that a stored label names: `WIN`, `LOSS` or `SKIP`.
pub open spec fn spec_outcome_of_label(label: Seq<u8>) -> Option<Outcome> {
    if label =~= seq![87u8, 73u8, 78u8] {
        Some(Outcome::Win)
    } else if label =~= seq![76u8, 79u8, 83u8, 83u8] {
        Some(Outcome::Loss)
    } else if label =~= seq![83u8, 75u8, 73u8, 80u8] {
        Some(Outcome::Skip)
    } else {
        None
    }
}

pub fn outcome_from_label(label: &[u8]) -> (r: Option<Outcome>)
    ensures
        r == spec_outcome_of_label(label@),
{
    if label.len() == 3 && label[0] == 87u8 && label[1] == 73u8 && label[2] == 78u8 {
        proof {
            assert(label@ =~= seq![87u8, 73u8, 78u8]);
        }
        Some(Outcome::Win)
    } else if label.len() == 4 && label[0] == 76u8 && label[1] == 79u8 && label[2] == 83u8 && label[3] == 83u8 {
        proof {
            assert(label@ =~= seq![76u8, 79u8, 83u8, 83u8]);
            assert(!(label@ =~= seq![87u8, 73u8, 78u8]));
        }
        Some(Outcome::Loss)
    } else if label.len() == 4 && label[0] == 83u8 && label[1] == 75u8 && label[2] == 73u8 && label[3] == 80u8 {
        proof {
            assert(label@ =~= seq![83u8, 75u8, 73u8, 80u8]);
            assert(!(label@ =~= seq![87u8, 73u8, 78u8]));
            assert(!(label@ =~= seq![76u8, 79u8, 83u8, 83u8])) by {
                assert(label@[0] != 76u8);
            }
        }
        Some(Outcome::Skip)
    } else {
        proof {
            if label@ =~= seq![87u8, 73u8, 78u8] {
                assert(label@[0] == 87u8 && label@[1] == 73u8 && label@[2] == 78u8);
            }
            if label@ =~= seq![76u8, 79u8, 83u8, 83u8] {
                assert(label@[0] == 76u8 && label@[1] == 79u8 && label@[2] == 83u8 && label@[3] == 83u8);
            }
            if label@ =~= seq![83u8, 75u8, 73u8, 80u8] {
                assert(label@[0] == 83u8 && label@[1] == 75u8 && label@[2] == 73u8 && label@[3] == 80u8);
            }
        }
        None
    }
}

/// The decision label of a NO bet, in either spelling the log holds.
pub open spec fn is_no_label(label: Seq<u8>) -> bool {
    label =~= seq![78u8, 79u8] || label =~= seq![78u8, 111u8]
}

/// Whether a bet with this decision label wins on a block that opened at
/// `open_price` and closed at `close_price`: a NO bet wins when the price went
/// down, any other bet when it did not.
pub open spec fn spec_bet_wins(label: Seq<u8>, open_price: int, close_price: int) -> bool {
    if is_no_label(label) {
        close_price < open_price
    } else {
        close_price >= open_price
    }
}

pub fn label_is_no(label: &[u8]) -> (b: bool)
    ensures
        b == is_no_label(label@),
{
    if label.len() != 2 || label[0] != 78u8 {
        return false;
    }
    let b = label[1] == 79u8 || label[1] == 111u8;
    proof {
        if b {
            if label[1] == 79u8 {
                assert(label@ =~= seq![78u8, 79u8]);
            } else {
                assert(label@ =~= seq![78u8, 111u8]);
            }
        }
    }
    b
}

/// Outcome and profit of a paper bet: a win pays `stake * (1 - odds)`, a loss
/// costs the stake. UP when the close is at or above the open, as the
/// prediction market resolves.
pub fn resolve_bet(label: &[u8], open_price: i64, close_price: i64, stake: i64, odds: i64) -> (r: (
    Outcome,
    i64,
))
    requires
        in_range(stake as int),
        in_range(odds as int),
        spec_bet_wins(label@, open_price as int, close_price as int) ==> in_range(
            spec_settled(0, stake as int, true, odds as int),
        ),
    ensures
        (r.0 == Outcome::Win) == spec_bet_wins(label@, open_price as int, close_price as int),
        r.0 != Outcome::Skip,
        r.1 == spec_settled(0, stake as int, r.0 == Outcome::Win, odds as int),
{
    let won = if label_is_no(label) {
        close_price < open_price
    } else {
        close_price >= open_price
    };
    if won {
        proof {
            assert(-1_000_000_000_000_000 * 1_000_000_100_000_000 <= stake * (SCALE - odds)
                <= 1_000_000_000_000_000 * 1_000_000_100_000_000) by (nonlinear_arith)
                requires
                    -1_000_000_000_000_000 <= stake <= 1_000_000_000_000_000,
                    -1_000_000_100_000_000 <= SCALE - odds <= 1_000_000_100_000_000,
            ;
        }
        let gain = div_wide((stake as i128) * ((SCALE - odds) as i128), SCALE as i128);
        (Outcome::Win, gain as i64)
    } else {
        (Outcome::Loss, -stake)
    }
}

/// A YES bet and a NO bet on the same block never both win and never both
/// lose: the block resolves UP when it closes at or above its open, DOWN
/// otherwise.
pub proof fn lemma_yes_no_exactly_one_wins(open_price: int, close_price: int)
    ensures
        spec_bet_wins(seq![89u8, 69u8, 83u8], open_price, close_price) != spec_bet_wins(
            seq![78u8, 79u8],
            open_price,
            close_price,
        ),
{
    assert(!is_no_label(seq![89u8, 69u8, 83u8])) by {
        assert(seq![89u8, 69u8, 83u8].len() != seq![78u8, 79u8].len());
        assert(seq![89u8, 69u8, 83u8].len() != seq![78u8, 111u8].len());
    }
    assert(is_no_label(seq![78u8, 79u8]));
}

/// Settling a won bet of `s1` and then a lost bet of `s2` leaves the same
/// balance as settling them the other way round.
pub proof fn lemma_settle_order_irrelevant(balance: int, s1: int, s2: int, odds: int)
    ensures
        spec_settled(spec_settled(balance, s1, true, odds), s2, false, odds) == spec_settled(
            spec_settled(balance, s2, false, odds),
            s1,
            true,
            odds,
        ),
{
}

proof fn lemma_floor_div(a: int, b: int)
    requires
        a >= 0,
        b > 0,
    ensures
        (a / b) * b <= a < (a / b + 1) * b,
        a / b >= 0,
{
    let q = a / b;
    let m = a % b;
    vstd::arithmetic::div_mod::lemma_fundamental_div_mod(a, b);
    vstd::arithmetic::div_mod::lemma_mod_pos_bound(a, b);
    assert(q * b <= a < (q + 1) * b) by (nonlinear_arith)
        requires a == b * q + m, 0 <= m < b;
    assert(q >= 0) by (nonlinear_arith)
        requires a == b * q + m, 0 <= m < b, a >= 0, b > 0;
}

/// The Kelly fraction `k` for winning probability `p` at price `o` (payout
/// `b = (1 - o) / o` per unit staked) solves `k = p - (1 - p) / b`, rounded:
/// for `1e-6 <= o < 1` it is the `k` with `(p - k) * (1 - o) <= (1 - p) * o`
/// `< (p - k + 1) * (1 - o)`; for `o > 1` the one with
/// `(k - p) * (o - 1) <= (1 - p) * o < (k - p + 1) * (o - 1)`; below
/// `1e-6` even money, `k = p - (1 - p)`. Below a price of 1 it grows with `p`.
pub proof fn lemma_kelly_fraction(p: int, o: int, p2: int)
    requires
        0 < p < SCALE,
        p <= p2 < SCALE,
        0 <= o,
        o != SCALE,
    ensures
        ({
            let k = spec_kelly_units(p, o);
            let q = SCALE - p;
            &&& o < MIN_ODDS ==> k == p - q
            &&& MIN_ODDS <= o < SCALE ==> (p - k) * (SCALE - o) <= q * o < (p - k + 1) * (SCALE - o)
            &&& o > SCALE ==> (k - p) * (o - SCALE) <= q * o < (k - p + 1) * (o - SCALE)
            &&& o < SCALE ==> k <= spec_kelly_units(p2, o)
        }),
{
    let q = SCALE - p;
    let q2 = SCALE - p2;
    if MIN_ODDS <= o < SCALE {
        assert(q * o >= 0 && q2 * o >= 0) by (nonlinear_arith)
            requires q > 0, q2 > 0, o >= 0;
        lemma_floor_div(q * o, SCALE - o);
        assert(q2 * o <= q * o) by (nonlinear_arith)
            requires q2 <= q, o >= 0;
        vstd::arithmetic::div_mod::lemma_div_is_ordered(q2 * o, q * o, SCALE - o);
    } else if o > SCALE {
        assert(q * o >= 0 && q2 * o >= 0) by (nonlinear_arith)
            requires q > 0, q2 > 0, o >= 0;
        lemma_floor_div(q * o, o - SCALE);
    }
}

/// The stake is never negative and never above `max_bet_pct` of the balance;
/// there is none without an edge (half Kelly not positive) or outside
/// `0 < p < 1`; and, below the cap, it is the balance times half Kelly: for a
/// non-negative balance, the `s` with `s * 1 <= balance * half < (s + 1) * 1`
/// (in units).
pub proof fn lemma_stake_is_half_kelly_of_the_balance(balance: int, max_bet_pct: int, p: int, o: int)
    requires
        balance >= 0,
        max_bet_pct >= 0,
    ensures
        ({
            let stake = spec_size(balance, max_bet_pct, p, o);
            let cap = tdiv(balance * max_bet_pct, SCALE as int);
            let half = tdiv(spec_kelly_units(p, o), 2);
            &&& 0 <= stake <= cap
            &&& (p <= 0 || p >= SCALE || o == SCALE) ==> stake == 0
            &&& (0 < p < SCALE && o != SCALE && half <= 0) ==> stake == 0
            &&& (0 < p < SCALE && o != SCALE && half > 0 && tdiv(balance * half, SCALE as int) <= cap) ==> stake
                * SCALE <= balance * half < (stake + 1) * SCALE
        }),
{
    assert(balance * max_bet_pct >= 0) by (nonlinear_arith)
        requires balance >= 0, max_bet_pct >= 0;
    lemma_floor_div(balance * max_bet_pct, SCALE as int);
    let half = tdiv(spec_kelly_units(p, o), 2);
    if half > 0 {
        assert(balance * half >= 0) by (nonlinear_arith)
            requires balance >= 0, half > 0;
        lemma_floor_div(balance * half, SCALE as int);
    } else {
        assert(balance * half <= 0) by (nonlinear_arith)
            requires balance >= 0, half <= 0;
        assert(tdiv(balance * half, SCALE as int) <= 0) by {
            if balance * half < 0 {
                assert((-(balance * half)) / (SCALE as int) >= 0) by (nonlinear_arith)
                    requires -(balance * half) > 0;
            }
        }
    }
}

/// Settling: a won bet adds the stake times `1 - odds`, rounded toward zero;
/// a lost one takes the stake.
pub proof fn lemma_settlement(balance: int, stake: int, odds: int)
    requires
        stake >= 0,
        0 <= odds <= SCALE,
    ensures
        spec_settled(balance, stake, false, odds) == balance - stake,
        ({
            let gain = spec_settled(balance, stake, true, odds) - balance;
            &&& 0 <= gain <= stake
            &&& gain * SCALE <= stake * (SCALE - odds) < (gain + 1) * SCALE
        }),
{
    assert(stake * (SCALE - odds) >= 0) by (nonlinear_arith)
        requires stake >= 0, odds <= SCALE;
    assert(stake * (SCALE - odds) <= stake * SCALE) by (nonlinear_arith)
        requires stake >= 0, odds >= 0;
    lemma_floor_div(stake * (SCALE - odds), SCALE as int);
    assert((stake * SCALE) / (SCALE as int) == stake) by (nonlinear_arith)
        requires stake >= 0;
    vstd::arithmetic::div_mod::lemma_div_is_ordered(stake * (SCALE - odds), stake * SCALE, SCALE as int);
}

/// A YES bet wins exactly when the block closes at or above its open, a NO
/// bet (either spelling) exactly when it closes below.
pub proof fn lemma_bet_sides(open_price: int, close_price: int)
    ensures
        spec_bet_wins(seq![89u8, 69u8, 83u8], open_price, close_price) <==> close_price >= open_price,
        spec_bet_wins(seq![78u8, 79u8], open_price, close_price) <==> close_price < open_price,
        spec_bet_wins(seq![78u8, 111u8], open_price, close_price) <==> close_price < open_price,
{
    assert(!is_no_label(seq![89u8, 69u8, 83u8])) by {
        assert(seq![89u8, 69u8, 83u8].len() != seq![78u8, 79u8].len());
        assert(seq![89u8, 69u8, 83u8].len() != seq![78u8, 111u8].len());
    }
    assert(is_no_label(seq![78u8, 79u8]));
    assert(is_no_label(seq![78u8, 111u8]));
}

} // verus!
