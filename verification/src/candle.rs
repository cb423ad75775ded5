//! One OHLCV bar of the BTC/USDT market and its geometry.
use vstd::prelude::*;
use crate::fixed::{in_range, Ratio};

verus! {

/// A bar; prices and volumes are quantities in units of 1e-8, times are
/// milliseconds since the Unix epoch.
#[derive(Clone, Copy, Debug, PartialEq, Eq, Structural)]
pub struct Candle {
    pub open_time: i64,
    pub close_time: i64,
    pub open: i64,
    pub high: i64,
    pub low: i64,
    pub close: i64,
    pub volume: i64,
    pub taker_buy_vol: i64,
    pub trades: u32,
}

impl Candle {
    /// Every price and volume lies within the representable range.
    pub open spec fn wf(&self) -> bool {
        &&& in_range(self.open as int)
        &&& in_range(self.high as int)
        &&& in_range(self.low as int)
        &&& in_range(self.close as int)
        &&& in_range(self.volume as int)
        &&& in_range(self.taker_buy_vol as int)
    }

    pub open spec fn spec_range(&self) -> int {
        self.high - self.low
    }

    pub open spec fn spec_body(&self) -> int {
        if self.close >= self.open {
            self.close - self.open
        } else {
            self.open - self.close
        }
    }

    pub open spec fn spec_upper_wick(&self) -> int {
        self.high - (if self.open >= self.close { self.open } else { self.close })
    }

    pub open spec fn spec_lower_wick(&self) -> int {
        (if self.open <= self.close { self.open } else { self.close }) - self.low
    }

    /// Where the close sits within the range, 0 at the low and 1 at the high;
    /// one half for a bar without range.
    pub open spec fn spec_close_pos(&self) -> Ratio {
        if self.spec_range() <= 0 {
            Ratio { num: 1, den: 2 }
        } else {
            Ratio { num: (self.close - self.low) as i64, den: self.spec_range() as i64 }
        }
    }

    pub fn is_green(&self) -> (b: bool)
        ensures
            b == (self.close > self.open),
    {
        self.close > self.open
    }

    pub fn is_red(&self) -> (b: bool)
        ensures
            b == (self.close < self.open),
    {
        self.close < self.open
    }

    pub fn range(&self) -> (r: i64)
        requires
            self.wf(),
        ensures
            r == self.spec_range(),
    {
        self.high - self.low
    }

    pub fn body(&self) -> (r: i64)
        requires
            self.wf(),
        ensures
            r == self.spec_body(),
    {
        if self.close >= self.open {
            self.close - self.open
        } else {
            self.open - self.close
        }
    }

    pub fn upper_wick(&self) -> (r: i64)
        requires
            self.wf(),
        ensures
            r == self.spec_upper_wick(),
    {
        let top = if self.open >= self.close {
            self.open
        } else {
            self.close
        };
        self.high - top
    }

    pub fn lower_wick(&self) -> (r: i64)
        requires
            self.wf(),
        ensures
            r == self.spec_lower_wick(),
    {
        let bottom = if self.open <= self.close {
            self.open
        } else {
            self.close
        };
        bottom - self.low
    }

    pub fn close_pos(&self) -> (r: Ratio)
        requires
            self.wf(),
        ensures
            r == self.spec_close_pos(),
            r.wf(),
    {
        let rng = self.range();
        if rng <= 0 {
            Ratio { num: 1, den: 2 }
        } else {
            Ratio { num: self.close - self.low, den: rng }
        }
    }

}

/// Every bar of the slice is well formed.
pub open spec fn all_wf(candles: Seq<Candle>) -> bool {
    forall|i: int| 0 <= i < candles.len() ==> (#[trigger] candles[i]).wf()
}

/// For a bar whose close lies between its low and high, the close position
/// lies between zero and one.
pub proof fn lemma_close_pos_in_unit_interval(c: Candle)
    requires
        c.wf(),
        c.low <= c.close <= c.high,
    ensures
        Ratio::zero().le(c.spec_close_pos()),
        c.spec_close_pos().le(Ratio::one()),
{
}

/// The geometry of a bar: its range is its high less its low; its body is
/// the distance between open and close; the upper wick runs from the higher
/// of open and close to the high, the lower wick from the low to the lower of
/// them, so that wicks and body together make up the range; the close
/// position is `(close - low) / range` for a bar with range, one half without.
pub proof fn lemma_candle_geometry(c: Candle)
    ensures
        c.spec_range() == c.high - c.low,
        c.spec_body() >= 0,
        c.spec_body() == c.close - c.open || c.spec_body() == c.open - c.close,
        c.spec_upper_wick() + c.spec_body() + c.spec_lower_wick() == c.spec_range(),
        c.spec_upper_wick() == c.high - c.open || c.spec_upper_wick() == c.high - c.close,
        c.spec_upper_wick() <= c.high - c.open && c.spec_upper_wick() <= c.high - c.close,
        c.spec_lower_wick() <= c.open - c.low && c.spec_lower_wick() <= c.close - c.low,
        c.high - c.low > 0 ==> c.spec_close_pos() == (Ratio { num: (c.close - c.low) as i64, den: (c.high - c.low) as i64 }),
        c.high - c.low <= 0 ==> c.spec_close_pos() == (Ratio { num: 1, den: 2 }),
{
}

} // verus!
