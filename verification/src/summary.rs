//! Figures of the trade summaries: shares, returns and profit per trade.
use vstd::prelude::*;
use crate::fixed::Ratio;
use crate::tracker::Outcome;

verus! {

/// `part` as a percentage of `whole`; zero when there is no whole.
pub open spec fn spec_share_pct(part: int, whole: int) -> Ratio {
    if whole > 0 {
        Ratio { num: (part * 100) as i64, den: whole as i64 }
    } else {
        Ratio { num: 0, den: 1 }
    }
}

pub fn share_pct(part: i64, whole: i64) -> (r: Ratio)
    requires
        -92_233_720_368_547_758 <= part <= 92_233_720_368_547_758,
    ensures
        r == spec_share_pct(part as int, whole as int),
        r.wf(),
{
    if whole > 0 {
        Ratio { num: part * 100, den: whole }
    } else {
        Ratio { num: 0, den: 1 }
    }
}

/// Profit per trade; zero without trades.
pub open spec fn spec_per_trade(total_pnl: int, trades: int) -> Ratio {
    if trades > 0 {
        Ratio { num: total_pnl as i64, den: trades as i64 }
    } else {
        Ratio { num: 0, den: 1 }
    }
}

pub fn per_trade(total_pnl: i64, trades: i64) -> (r: Ratio)
    ensures
        r == spec_per_trade(total_pnl as int, trades as int),
        r.wf(),
{
    if trades > 0 {
        Ratio { num: total_pnl, den: trades }
    } else {
        Ratio { num: 0, den: 1 }
    }
}

/// Return on `start`, in percent, of moving from `start` to `balance`;
/// undefined for a start of zero.
pub open spec fn spec_return_pct(balance: int, start: int) -> Option<Ratio> {
    if start == 0 {
        None
    } else if start > 0 {
        Some(Ratio { num: ((balance - start) * 100) as i64, den: start as i64 })
    } else {
        Some(Ratio { num: (-(balance - start) * 100) as i64, den: (-start) as i64 })
    }
}

pub fn return_pct(balance: i64, start: i64) -> (r: Option<Ratio>)
    requires
        -1_000_000_000_000_000 <= balance <= 1_000_000_000_000_000,
        -1_000_000_000_000_000 <= start <= 1_000_000_000_000_000,
    ensures
        r == spec_return_pct(balance as int, start as int),
        r matches Some(x) ==> x.wf(),
{
    if start == 0 {
        None
    } else if start > 0 {
        Some(Ratio { num: (balance - start) * 100, den: start })
    } else {
        Some(Ratio { num: -(balance - start) * 100, den: -start })
    }
}

/// The summary figures as quotients: the share times the whole is a
/// hundred times the part, and a part between none and all of the whole
/// gives between 0% and 100%; the profit per trade times the trades is the
/// profit; the return times the start is a hundred times the gain, zero when
/// the balance is back at the start and negative for a loss from a positive
/// start.
pub proof fn lemma_summary_figures(part: int, whole: int, pnl: int, trades: int, balance: int, start: int)
    requires
        -92_233_720_368_547_758 <= part <= 92_233_720_368_547_758,
        0 <= whole <= i64::MAX,
        -0x8000_0000_0000_0000 <= pnl < 0x8000_0000_0000_0000,
        0 <= trades <= i64::MAX,
        -1_000_000_000_000_000 <= balance <= 1_000_000_000_000_000,
        -1_000_000_000_000_000 <= start <= 1_000_000_000_000_000,
    ensures
        whole > 0 ==> spec_share_pct(part, whole).num * whole == 100 * part * spec_share_pct(part, whole).den,
        whole > 0 && 0 <= part <= whole ==> Ratio::zero().le(spec_share_pct(part, whole)) && spec_share_pct(
            part,
            whole,
        ).le(Ratio { num: 100, den: 1 }),
        trades > 0 ==> spec_per_trade(pnl, trades).num * trades == pnl * spec_per_trade(pnl, trades).den,
        start != 0 ==> ({
            let r = spec_return_pct(balance, start).unwrap();
            &&& r.den > 0
            &&& r.num * start == 100 * (balance - start) * r.den
            &&& (r.num == 0 <==> balance == start)
            &&& (start > 0 && balance < start ==> r.num < 0)
        }),
        start == 0 ==> spec_return_pct(balance, start) is None,
{
    if whole > 0 && 0 <= part <= whole {
        assert(part * 100 * 1 <= 100 * whole) by (nonlinear_arith)
            requires part <= whole;
    }
    if whole > 0 {
        assert((part * 100) * whole == 100 * part * whole) by (nonlinear_arith);
    }
    if start != 0 {
        let g = balance - start;
        if start > 0 {
            assert(g * 100 * start == 100 * g * start) by (nonlinear_arith);
        } else {
            assert((-g * 100) * start == 100 * g * (-start)) by (nonlinear_arith);
        }
    }
}

/// Length of the current streak: how many of the settled outcomes, newest
/// first, equal the newest one in a row; zero when there are none.
pub fn current_streak(newest_first: &Vec<Outcome>) -> (r: usize)
    ensures
        newest_first@.len() == 0 ==> r == 0,
        newest_first@.len() > 0 ==> {
            &&& 1 <= r <= newest_first@.len()
            &&& forall|i: int| 0 <= i < r ==> #[trigger] newest_first@[i] == newest_first@[0]
            &&& r < newest_first@.len() ==> newest_first@[r as int] != newest_first@[0]
        },
{
    let n = newest_first.len();
    if n == 0 {
        return 0;
    }
    let first = newest_first[0];
    let mut i: usize = 1;
    while i < n && newest_first[i] == first
        invariant
            1 <= i <= n == newest_first@.len(),
            first == newest_first@[0],
            forall|j: int| 0 <= j < i ==> #[trigger] newest_first@[j] == first,
        decreases n - i,
    {
        i = i + 1;
    }
    i
}

} // verus!
