//! The five-minute BULL YES paper trader: its live session between closed
//! bars, and the simulation of the same rule over stored bars.
use vstd::prelude::*;
use crate::bear::{DEFAULT_ODDS, WIN_RATE};
use crate::candle::{all_wf, Candle};
use crate::decision::{above, below, evaluate, spec_momentum, Thresholds};
use crate::fixed::{in_range, tdiv, Ratio, SCALE};
use crate::tracker::{
    lemma_bet_sides, resolve_bet, spec_bet_wins, spec_settled, spec_size, KellySizer, Outcome,
};

verus! {

/// Smallest stake worth betting: 0.01.
pub const MIN_STAKE: i64 = 1_000_000;

/// Bars between two summaries: one day of five-minute bars.
pub const SUMMARY_BARS: u32 = 288;

/// Bars that a simulation looks back over: seven days.
pub const SIM_WINDOW: usize = 2016;

/// Fewest bars a simulation needs.
pub const SIM_MIN_BARS: usize = 20;

/// Regime state `(in BULL, BULL run, exit run)` after one more bar `t`.
pub open spec fn regime_step(candles: Seq<Candle>, th: Thresholds, t: int, s: (bool, int, int)) -> (bool, int, int) {
    let mom = spec_momentum(candles, t, th.lookback as int);
    let cb = if below(mom, th.mom_threshold) { s.1 + 1 } else { 0 };
    let ce = if above(mom, th.mom_threshold) { s.2 + 1 } else { 0 };
    let now = if s.0 { ce < 1 } else { cb >= 1 };
    (now, cb, ce)
}

/// Regime state after the bars `start..t`, starting outside BULL.
pub open spec fn regime_after(candles: Seq<Candle>, th: Thresholds, start: int, t: int) -> (bool, int, int)
    decreases t - start,
{
    if t <= start {
        (false, 0, 0)
    } else {
        regime_step(candles, th, t - 1, regime_after(candles, th, start, t - 1))
    }
}

/// One simulated bet: placed at the close of a BULL bar on the block that
/// follows it, and settled on that block.
#[derive(Clone, Copy, Debug, PartialEq, Eq, Structural)]
pub struct SimBet {
    pub block_open_time: i64,
    pub block_close_time: i64,
    pub reference_price: i64,
    pub momentum: Ratio,
    pub stake: i64,
    pub odds: i64,
    pub open: i64,
    pub close: i64,
    pub outcome: Outcome,
    pub pnl: i64,
}

/// The bet that a BULL bar `t` leads to, staked `stake`.
pub open spec fn spec_bet(candles: Seq<Candle>, th: Thresholds, t: int, stake: int) -> SimBet {
    let next = candles[t + 1];
    let yes = seq![89u8, 69u8, 83u8];
    let won = spec_bet_wins(yes, next.open as int, next.close as int);
    SimBet {
        block_open_time: next.open_time,
        block_close_time: (next.open_time + 299_999) as i64,
        reference_price: candles[t].close,
        momentum: spec_momentum(candles, t, th.lookback as int),
        stake: stake as i64,
        odds: DEFAULT_ODDS,
        open: next.open,
        close: next.close,
        outcome: if won { Outcome::Win } else { Outcome::Loss },
        pnl: spec_settled(0, stake, won, DEFAULT_ODDS as int) as i64,
    }
}

/// The bets of a simulation over the bars `start..t`: on every bar in BULL,
/// when the stake exceeds `MIN_STAKE`.
pub open spec fn sim_bets(candles: Seq<Candle>, th: Thresholds, stake: int, start: int, t: int) -> Seq<SimBet>
    decreases t - start,
{
    if t <= start {
        Seq::empty()
    } else {
        let prev = sim_bets(candles, th, stake, start, t - 1);
        if regime_after(candles, th, start, t).0 && stake > MIN_STAKE {
            prev.push(spec_bet(candles, th, t - 1, stake))
        } else {
            prev
        }
    }
}

/// First bar that a simulation over `n` bars evaluates.
pub open spec fn sim_start(n: int) -> int {
    let s = if n >= SIM_WINDOW { n - SIM_WINDOW } else { 0 };
    if s >= 10 { s } else { 10 }
}

proof fn lemma_regime_counts(candles: Seq<Candle>, th: Thresholds, start: int, t: int)
    requires
        start <= t,
    ensures
        0 <= regime_after(candles, th, start, t).1 <= t - start,
        0 <= regime_after(candles, th, start, t).2 <= t - start,
    decreases t - start,
{
    if t > start {
        lemma_regime_counts(candles, th, start, t - 1);
    }
}

/// One step of the regime: from outside BULL a bar enters exactly when its
/// momentum is below minus the threshold, inside BULL it stays exactly while
/// the momentum is not above minus the threshold; each run counter grows by
/// one on a bar that extends it and drops to zero otherwise.
pub proof fn lemma_regime_step_rules(candles: Seq<Candle>, th: Thresholds, t: int, s: (bool, int, int))
    requires
        s.1 >= 0,
        s.2 >= 0,
    ensures
        ({
            let mom = spec_momentum(candles, t, th.lookback as int);
            let n = regime_step(candles, th, t, s);
            &&& !s.0 ==> (n.0 <==> below(mom, th.mom_threshold))
            &&& s.0 ==> (n.0 <==> !above(mom, th.mom_threshold))
            &&& n.1 == (if below(mom, th.mom_threshold) { s.1 + 1 } else { 0 })
            &&& n.2 == (if above(mom, th.mom_threshold) { s.2 + 1 } else { 0 })
        }),
{
}

/// Every simulated bet is a YES bet of the given stake at the default odds on
/// a whole five-minute block: it wins exactly when the block closes at or
/// above its open, a win pays the stake times `1 - odds` (rounded toward
/// zero) and a loss costs the stake; there are no more bets than bars, and
/// none at all when the stake does not exceed `MIN_STAKE`.
pub proof fn lemma_sim_bets_are_yes_bets(candles: Seq<Candle>, th: Thresholds, stake: int, start: int, t: int)
    requires
        start <= t,
    ensures
        ({
            let bets = sim_bets(candles, th, stake, start, t);
            &&& bets.len() <= t - start
            &&& stake <= MIN_STAKE ==> bets.len() == 0
            &&& forall|i: int| 0 <= i < bets.len() ==> {
                let b = #[trigger] bets[i];
                &&& b.stake == stake as i64
                &&& b.odds == DEFAULT_ODDS
                &&& b.block_close_time == (b.block_open_time + 299_999) as i64
                &&& (b.outcome == Outcome::Win <==> b.close >= b.open)
                &&& b.outcome != Outcome::Skip
                &&& b.pnl == (if b.outcome == Outcome::Win {
                    tdiv(stake * (SCALE - DEFAULT_ODDS), SCALE as int)
                } else {
                    -stake
                }) as i64
            }
        }),
    decreases t - start,
{
    if t > start {
        lemma_sim_bets_are_yes_bets(candles, th, stake, start, t - 1);
        let prev = sim_bets(candles, th, stake, start, t - 1);
        let next = candles[t];
        lemma_bet_sides(next.open as int, next.close as int);
        let bets = sim_bets(candles, th, stake, start, t);
        assert forall|i: int| 0 <= i < bets.len() implies {
            let b = #[trigger] bets[i];
            &&& b.stake == stake as i64
            &&& b.odds == DEFAULT_ODDS
            &&& b.block_close_time == (b.block_open_time + 299_999) as i64
            &&& (b.outcome == Outcome::Win <==> b.close >= b.open)
            &&& b.outcome != Outcome::Skip
            &&& b.pnl == (if b.outcome == Outcome::Win {
                tdiv(stake * (SCALE - DEFAULT_ODDS), SCALE as int)
            } else {
                -stake
            }) as i64
        } by {
            if i < prev.len() {
                assert(bets[i] == prev[i]);
            }
        }
    }
}

/// How many of the bets won.
pub open spec fn count_wins(bets: Seq<SimBet>) -> int
    decreases bets.len(),
{
    if bets.len() == 0 {
        0
    } else {
        count_wins(bets.drop_last()) + if bets.last().outcome == Outcome::Win { 1int } else { 0 }
    }
}

proof fn lemma_count_wins_bounded(bets: Seq<SimBet>)
    ensures
        0 <= count_wins(bets) <= bets.len(),
    decreases bets.len(),
{
    if bets.len() > 0 {
        lemma_count_wins_bounded(bets.drop_last());
    }
}

/// Outcome of a simulation: its bets and how many of them won.
pub struct SimReport {
    pub bets: Vec<SimBet>,
    pub wins: u32,
}

/// Runs the BULL rule over the stored bars of the last seven days (from bar
/// ten at the earliest), betting YES at the default odds on the block after
/// each bar in BULL with the sizer's stake. `None` with fewer than twenty bars.
pub fn simulate(candles: &[Candle], sizer: &KellySizer) -> (r: Option<SimReport>)
    requires
        candles@.len() < 0x1_0000_0000,
        all_wf(candles@),
        in_range(tdiv(sizer.balance * sizer.max_bet_pct, SCALE as int)),
        forall|i: int| 0 <= i < candles@.len() ==> (#[trigger] candles@[i]).open_time <= i64::MAX - 299_999,
    ensures
        candles@.len() < SIM_MIN_BARS <==> r is None,
        r matches Some(rep) ==> {
            let n = candles@.len() as int;
            let stake = spec_size(sizer.balance as int, sizer.max_bet_pct as int, WIN_RATE as int, DEFAULT_ODDS as int);
            let th = Thresholds { lookback: 12, mom_threshold: Ratio { num: 8, den: 10 } };
            &&& rep.bets@ == sim_bets(candles@, th, stake, sim_start(n), n - 1)
            &&& rep.wins == count_wins(rep.bets@)
        },
{
    let n = candles.len();
    if n < SIM_MIN_BARS {
        return None;
    }
    let th = Thresholds::default();
    let start0 = if n >= SIM_WINDOW {
        n - SIM_WINDOW
    } else {
        0
    };
    let eval_start = if start0 >= 10 {
        start0
    } else {
        10
    };
    let stake = sizer.size(WIN_RATE, DEFAULT_ODDS);
    let ghost gth = th;
    let mut in_bull = false;
    let mut consec_bull: u32 = 0;
    let mut consec_exit: u32 = 0;
    let mut bets: Vec<SimBet> = Vec::new();
    let mut wins: u32 = 0;
    let mut t = eval_start;
    while t < n - 1
        invariant
            n == candles@.len() < 0x1_0000_0000,
            SIM_MIN_BARS <= n,
            eval_start <= t,
            eval_start == sim_start(n as int),
            t <= n - 1,
            all_wf(candles@),
            th == gth,
            gth.lookback == 12,
            gth.mom_threshold == (Ratio { num: 8, den: 10 }),
            stake == spec_size(sizer.balance as int, sizer.max_bet_pct as int, WIN_RATE as int, DEFAULT_ODDS as int),
            0 <= stake <= 1_000_000_000_000_000,
            (in_bull, consec_bull as int, consec_exit as int) == regime_after(candles@, gth, eval_start as int, t as int),
            bets@ == sim_bets(candles@, gth, stake as int, eval_start as int, t as int),
            wins == count_wins(bets@),
            bets@.len() <= t - eval_start,
            forall|i: int| 0 <= i < candles@.len() ==> (#[trigger] candles@[i]).open_time <= i64::MAX - 299_999,
        decreases n - 1 - t,
    {
        proof {
            lemma_regime_counts(candles@, gth, eval_start as int, t as int);
            lemma_count_wins_bounded(bets@);
        }
        let (still_bull, mom, cb, ce) = evaluate(candles, t, in_bull, consec_bull, consec_exit, &th);
        in_bull = still_bull;
        consec_bull = cb;
        consec_exit = ce;
        if in_bull && stake > MIN_STAKE {
            let next = candles[t + 1];
            proof {
                assert(candles@[t + 1].open_time <= i64::MAX - 299_999);
                assert(stake <= 1_000_000_000_000_000);
                let g = stake * (SCALE - DEFAULT_ODDS);
                assert(0 <= g <= stake * 100_000_000) by (nonlinear_arith)
                    requires g == stake * 49_500_000, stake >= 0;
                assert(0 <= g / 100_000_000 <= stake) by (nonlinear_arith)
                    requires 0 <= g <= stake * 100_000_000;
                assert((seq![89u8, 69u8, 83u8]) == [89u8, 69u8, 83u8]@);
            }
            let (outcome, pnl) = resolve_bet(&[89u8, 69u8, 83u8], next.open, next.close, stake, DEFAULT_ODDS);
            let ghost before = bets@;
            bets.push(
                SimBet {
                    block_open_time: next.open_time,
                    block_close_time: next.open_time + 299_999,
                    reference_price: candles[t].close,
                    momentum: mom,
                    stake,
                    odds: DEFAULT_ODDS,
                    open: next.open,
                    close: next.close,
                    outcome,
                    pnl,
                },
            );
            proof {
                assert(bets@.drop_last() =~= before);
            }
            if outcome == Outcome::Win {
                wins = wins + 1;
            }
        }
        t = t + 1;
    }
    Some(SimReport { bets, wins })
}

/// How the regime moved on a bar.
#[derive(Clone, Copy, Debug, PartialEq, Eq, Structural)]
pub enum RegimeChange {
    Entered,
    Exited,
    Held,
}

/// The live trader between closed bars: the regime, the bet standing on the
/// next block and the bars seen.
#[derive(Clone, Copy, Debug, PartialEq, Eq, Structural)]
pub struct BullSession {
    pub in_bull: bool,
    pub consec_bull: u32,
    pub consec_exit: u32,
    pub current_stake: i64,
    pub current_odds: i64,
    pub bar_count: u32,
    /// Open time of the last block a bet was placed on.
    pub last_bet_block: Option<i64>,
}

/// Open and last millisecond of the block after the bar that opened at `open_time`.
pub open spec fn spec_bet_block(open_time: int) -> (i64, i64) {
    ((open_time + 300_000) as i64, (open_time + 300_000 + 299_999) as i64)
}

pub fn bet_block(open_time: i64) -> (r: (i64, i64))
    requires
        open_time <= i64::MAX - 599_999,
    ensures
        r == spec_bet_block(open_time as int),
{
    (open_time + 300_000, open_time + 300_000 + 299_999)
}

/// The session after placing a YES bet at `odds` on the block that opens at
/// `block`, with the sizer's balance and share, and the stake placed.
pub open spec fn spec_place(s: BullSession, balance: int, max_bet_pct: int, odds: i64, block: i64) -> (
    BullSession,
    Option<i64>,
) {
    let stake = spec_size(balance, max_bet_pct, WIN_RATE as int, odds as int);
    if s.last_bet_block == Some(block) {
        (s, None)
    } else if stake > MIN_STAKE {
        (
            BullSession { current_stake: stake as i64, current_odds: odds, last_bet_block: Some(block), ..s },
            Some(stake as i64),
        )
    } else {
        (BullSession { current_stake: 0, ..s }, None)
    }
}

/// At most one bet per block: once a bet is placed on a block, placing again
/// on the same block places nothing and changes nothing, whatever the odds
/// and the sizer.
pub proof fn lemma_one_bet_per_block(
    s: BullSession,
    balance: int,
    max_bet_pct: int,
    odds: i64,
    block: i64,
    balance2: int,
    max_bet_pct2: int,
    odds2: i64,
)
    requires
        spec_place(s, balance, max_bet_pct, odds, block).1 is Some,
    ensures
        ({
            let t = spec_place(s, balance, max_bet_pct, odds, block).0;
            spec_place(t, balance2, max_bet_pct2, odds2, block) == (t, None::<i64>)
        }),
{
}

impl BullSession {
    /// A session outside BULL with no bet standing.
    pub fn new() -> (s: BullSession)
        ensures
            !s.in_bull,
            s.consec_bull == 0 && s.consec_exit == 0,
            s.current_stake == 0,
            s.current_odds == DEFAULT_ODDS,
            s.bar_count == 0,
            s.last_bet_block is None,
    {
        BullSession {
            in_bull: false,
            consec_bull: 0,
            consec_exit: 0,
            current_stake: 0,
            current_odds: DEFAULT_ODDS,
            bar_count: 0,
            last_bet_block: None,
        }
    }

    /// A bar closed: counts it and returns the stake and odds of the bet to
    /// settle on it, if one stands.
    pub fn begin_bar(&mut self) -> (r: Option<(i64, i64)>)
        requires
            old(self).bar_count < u32::MAX,
        ensures
            final(self).bar_count == old(self).bar_count + 1,
            r == (if old(self).current_stake > 0 {
                Some((old(self).current_stake, old(self).current_odds))
            } else {
                None
            }),
            final(self).in_bull == old(self).in_bull,
            final(self).consec_bull == old(self).consec_bull,
            final(self).consec_exit == old(self).consec_exit,
            final(self).current_stake == old(self).current_stake,
            final(self).current_odds == old(self).current_odds,
            final(self).last_bet_block == old(self).last_bet_block,
    {
        self.bar_count = self.bar_count + 1;
        if self.current_stake > 0 {
            Some((self.current_stake, self.current_odds))
        } else {
            None
        }
    }

    /// Whether `n` stored bars are enough to evaluate the regime.
    pub fn has_history(n: usize, th: &Thresholds) -> (b: bool)
        ensures
            b == (n >= th.lookback + 2),
    {
        n >= 2 && n - 2 >= th.lookback
    }

    /// Evaluates the regime on the last of `candles` and keeps the result.
    pub fn step_regime(&mut self, candles: &[Candle], th: &Thresholds) -> (r: (RegimeChange, Ratio))
        requires
            candles@.len() >= 1,
            all_wf(candles@),
            th.wf(),
            th.mom_threshold.num > i64::MIN,
            below(spec_momentum(candles@, candles@.len() - 1, th.lookback as int), th.mom_threshold)
                ==> old(self).consec_bull < u32::MAX,
            above(spec_momentum(candles@, candles@.len() - 1, th.lookback as int), th.mom_threshold)
                ==> old(self).consec_exit < u32::MAX,
        ensures
            ({
                let t = candles@.len() - 1;
                let s = regime_step(
                    candles@,
                    *th,
                    t,
                    (old(self).in_bull, old(self).consec_bull as int, old(self).consec_exit as int),
                );
                &&& (final(self).in_bull, final(self).consec_bull as int, final(self).consec_exit as int) == s
                &&& r.1 == spec_momentum(candles@, t, th.lookback as int)
                &&& r.0 == (if !old(self).in_bull && s.0 {
                    RegimeChange::Entered
                } else if old(self).in_bull && !s.0 {
                    RegimeChange::Exited
                } else {
                    RegimeChange::Held
                })
                &&& final(self).current_stake == old(self).current_stake
                &&& final(self).current_odds == old(self).current_odds
                &&& final(self).bar_count == old(self).bar_count
                &&& final(self).last_bet_block == old(self).last_bet_block
            }),
    {
        let t = candles.len() - 1;
        let was = self.in_bull;
        let (now, mom, cb, ce) = evaluate(candles, t, self.in_bull, self.consec_bull, self.consec_exit, th);
        self.in_bull = now;
        self.consec_bull = cb;
        self.consec_exit = ce;
        let change = if !was && now {
            RegimeChange::Entered
        } else if was && !now {
            RegimeChange::Exited
        } else {
            RegimeChange::Held
        };
        (change, mom)
    }

    /// Sizes a YES bet at `odds` on the block that opens at `block_open`; it
    /// stands when the stake exceeds `MIN_STAKE`, and otherwise no bet
    /// stands. A block that has a bet already gets no second one.
    pub fn place(&mut self, sizer: &KellySizer, odds: i64, block_open: i64) -> (r: Option<i64>)
        requires
            in_range(tdiv(sizer.balance * sizer.max_bet_pct, SCALE as int)),
        ensures
            (*final(self), r) == spec_place(*old(self), sizer.balance as int, sizer.max_bet_pct as int, odds, block_open),
    {
        if self.last_bet_block == Some(block_open) {
            return None;
        }
        let stake = sizer.size(WIN_RATE, odds);
        if stake > MIN_STAKE {
            self.current_stake = stake;
            self.current_odds = odds;
            self.last_bet_block = Some(block_open);
            Some(stake)
        } else {
            self.current_stake = 0;
            None
        }
    }

    /// Outside BULL no bet stands on the next block.
    pub fn stand_aside(&mut self)
        ensures
            final(self).current_stake == 0,
            final(self).current_odds == old(self).current_odds,
            final(self).in_bull == old(self).in_bull,
            final(self).consec_bull == old(self).consec_bull,
            final(self).consec_exit == old(self).consec_exit,
            final(self).bar_count == old(self).bar_count,
            final(self).last_bet_block == old(self).last_bet_block,
    {
        self.current_stake = 0;
    }

    /// A summary is due every `SUMMARY_BARS` bars.
    pub fn summary_due(&self) -> (b: bool)
        ensures
            b == (self.bar_count % SUMMARY_BARS == 0),
    {
        self.bar_count % SUMMARY_BARS == 0
    }
}

} // verus!
