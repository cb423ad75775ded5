//! Candles from the exchange's kline stream: the building candle, when a
//! candle closes, and kline rows read into candles.
use vstd::prelude::*;
use crate::candle::Candle;
use crate::fixed::{in_range, parse_decimal, spec_parse_decimal, max_int, min_int};

verus! {

/// Milliseconds from a bar's open to its last millisecond (five minutes less one).
pub const BAR_SPAN_MS: i64 = 299_999;

/// Latest open time that a bar may have.
pub const MAX_OPEN_TIME: i64 = 9_223_372_036_854_475_807;

/// The candle being built from the stream; prices and volumes in units.
#[derive(Clone, Copy, Debug, PartialEq, Eq, Structural)]
pub struct BuildingCandle {
    pub open_time: i64,
    pub open: i64,
    pub high: i64,
    pub low: i64,
    pub close: i64,
    pub volume: i64,
    pub taker_buy_vol: i64,
    pub trades: u32,
}

impl BuildingCandle {
    pub open spec fn wf(&self) -> bool {
        &&& self.open_time <= MAX_OPEN_TIME
        &&& in_range(self.open as int)
        &&& in_range(self.high as int)
        &&& in_range(self.low as int)
        &&& in_range(self.close as int)
        &&& in_range(self.volume as int)
        &&& in_range(self.taker_buy_vol as int)
    }

    /// The finished candle, closing at `close_time`.
    pub open spec fn finish(self, close_time: i64) -> Candle {
        Candle {
            open_time: self.open_time,
            close_time,
            open: self.open,
            high: self.high,
            low: self.low,
            close: self.close,
            volume: self.volume,
            taker_buy_vol: self.taker_buy_vol,
            trades: self.trades,
        }
    }
}

/// Events that the feed emits.
#[derive(Clone, Debug)]
pub enum FeedEvent {
    /// Tick update within the current candle.
    Update(BuildingCandle),
    /// A candle closed and is final.
    Closed(Candle),
}

/// One kline message of the stream, its numbers already read (`None` where a
/// field did not read as a decimal).
#[derive(Clone, Copy, Debug, PartialEq, Eq, Structural)]
pub struct KlineTick {
    pub open_time: i64,
    pub close_time: i64,
    pub open: Option<i64>,
    pub high: Option<i64>,
    pub low: Option<i64>,
    pub close: Option<i64>,
    pub volume: Option<i64>,
    pub taker_buy_vol: Option<i64>,
    pub trades: u32,
    pub is_closed: bool,
}

pub open spec fn opt_in_range(v: Option<i64>) -> bool {
    v matches Some(x) ==> in_range(x as int)
}

impl KlineTick {
    pub open spec fn wf(&self) -> bool {
        &&& self.open_time <= MAX_OPEN_TIME
        &&& opt_in_range(self.open)
        &&& opt_in_range(self.high)
        &&& opt_in_range(self.low)
        &&& opt_in_range(self.close)
        &&& opt_in_range(self.volume)
        &&& opt_in_range(self.taker_buy_vol)
    }
}

pub open spec fn or_else(v: Option<i64>, d: i64) -> i64 {
    match v {
        Some(x) => x,
        None => d,
    }
}

/// The candle that a tick with a new open time starts: a missing open reads
/// as zero, a missing high, low or close as the open, missing volumes as zero.
pub open spec fn spec_start(k: KlineTick) -> BuildingCandle {
    let o = or_else(k.open, 0);
    BuildingCandle {
        open_time: k.open_time,
        open: o,
        high: or_else(k.high, o),
        low: or_else(k.low, o),
        close: or_else(k.close, o),
        volume: or_else(k.volume, 0),
        taker_buy_vol: or_else(k.taker_buy_vol, 0),
        trades: k.trades,
    }
}

/// The building candle after a tick of its own open time: the high rises to
/// the tick's high, the low falls to the tick's low (a zero low counts as
/// unset), close and volumes take the tick's values.
pub open spec fn spec_update(b: BuildingCandle, k: KlineTick) -> BuildingCandle {
    BuildingCandle {
        open_time: b.open_time,
        open: b.open,
        high: match k.high {
            Some(v) => max_int(b.high as int, v as int) as i64,
            None => b.high,
        },
        low: match k.low {
            Some(v) => if b.low == 0 { v } else { min_int(b.low as int, v as int) as i64 },
            None => b.low,
        },
        close: or_else(k.close, b.close),
        volume: or_else(k.volume, b.volume),
        taker_buy_vol: or_else(k.taker_buy_vol, b.taker_buy_vol),
        trades: k.trades,
    }
}

/// The feed between two messages: the candle being built and the open time
/// of the current bar.
#[derive(Clone, Copy, Debug, PartialEq, Eq, Structural)]
pub struct FeedState {
    pub building: Option<BuildingCandle>,
    pub current_open_time: i64,
}

/// Effect of one stream message on the feed: the new state and the candles
/// that closed, in order. A message for the current bar when no candle is
/// being built is for a bar already closed, and changes nothing.
pub open spec fn spec_on_tick(s: FeedState, k: KlineTick) -> (FeedState, Seq<Candle>) {
    if k.open_time == s.current_open_time && s.building is None {
        (s, Seq::empty())
    } else {
        let (mid, first): (BuildingCandle, Seq<Candle>) = if k.open_time != s.current_open_time {
            (
                spec_start(k),
                match s.building {
                    Some(b) => seq![b.finish((b.open_time + BAR_SPAN_MS) as i64)],
                    None => Seq::empty(),
                },
            )
        } else {
            (spec_update(s.building.unwrap(), k), Seq::empty())
        };
        if k.is_closed {
            (FeedState { building: None, current_open_time: k.open_time }, first.push(mid.finish(k.close_time)))
        } else {
            (FeedState { building: Some(mid), current_open_time: k.open_time }, first)
        }
    }
}

/// Effect of one polled candle on the feed: a later bar closes the candle
/// being built and starts a new one from it; the same bar updates it.
pub open spec fn spec_on_polled(s: FeedState, c: Candle) -> (FeedState, Option<Candle>) {
    if c.open_time > s.current_open_time {
        (
            FeedState {
                building: Some(
                    BuildingCandle {
                        open_time: c.open_time,
                        open: c.open,
                        high: c.high,
                        low: c.low,
                        close: c.close,
                        volume: c.volume,
                        taker_buy_vol: c.taker_buy_vol,
                        trades: c.trades,
                    },
                ),
                current_open_time: c.open_time,
            },
            match s.building {
                Some(b) => Some(b.finish((b.open_time + BAR_SPAN_MS) as i64)),
                None => None,
            },
        )
    } else if c.open_time == s.current_open_time {
        (
            FeedState {
                building: match s.building {
                    Some(b) => Some(
                        BuildingCandle {
                            open_time: b.open_time,
                            open: b.open,
                            high: max_int(b.high as int, c.high as int) as i64,
                            low: if b.low == 0 { c.low } else { min_int(b.low as int, c.low as int) as i64 },
                            close: c.close,
                            volume: c.volume,
                            taker_buy_vol: c.taker_buy_vol,
                            trades: c.trades,
                        },
                    ),
                    None => None,
                },
                current_open_time: s.current_open_time,
            },
            None,
        )
    } else {
        (s, None)
    }
}

impl FeedState {
    /// The candle being built is well formed and is the current bar's.
    pub open spec fn wf(&self) -> bool {
        self.building matches Some(b) ==> b.wf() && b.open_time == self.current_open_time
    }

    /// A feed that has seen nothing yet.
    pub fn new() -> (s: FeedState)
        ensures
            s.building is None,
            s.current_open_time == 0,
            s.wf(),
    {
        FeedState { building: None, current_open_time: 0 }
    }

    /// Takes one stream message; returns the candles that closed, in order.
    pub fn on_tick(&mut self, k: &KlineTick) -> (closed: Vec<Candle>)
        requires
            old(self).wf(),
            k.wf(),
        ensures
            (*final(self), closed@) == spec_on_tick(*old(self), *k),
            final(self).wf(),
            final(self).current_open_time == k.open_time,
            closed@.len() <= 2,
            forall|i: int| 0 <= i < closed@.len() ==> (#[trigger] closed@[i]).wf(),
    {
        let mut closed: Vec<Candle> = Vec::new();
        if k.open_time == self.current_open_time && self.building.is_none() {
            return closed;
        }
        let ghost first: Seq<Candle> = Seq::empty();
        if k.open_time != self.current_open_time {
            if let Some(b) = self.building {
                closed.push(
                    Candle {
                        open_time: b.open_time,
                        close_time: b.open_time + BAR_SPAN_MS,
                        open: b.open,
                        high: b.high,
                        low: b.low,
                        close: b.close,
                        volume: b.volume,
                        taker_buy_vol: b.taker_buy_vol,
                        trades: b.trades,
                    },
                );
            }
            self.current_open_time = k.open_time;
            let o = match k.open {
                Some(v) => v,
                None => 0,
            };
            let h = match k.high {
                Some(v) => v,
                None => o,
            };
            let l = match k.low {
                Some(v) => v,
                None => o,
            };
            let c = match k.close {
                Some(v) => v,
                None => o,
            };
            let v = match k.volume {
                Some(v) => v,
                None => 0,
            };
            let tbv = match k.taker_buy_vol {
                Some(v) => v,
                None => 0,
            };
            self.building = Some(
                BuildingCandle {
                    open_time: k.open_time,
                    open: o,
                    high: h,
                    low: l,
                    close: c,
                    volume: v,
                    taker_buy_vol: tbv,
                    trades: k.trades,
                },
            );
        } else {
            let mut b = match self.building {
                Some(b) => b,
                None => {
                    return closed;
                },
            };
            b.trades = k.trades;
            if let Some(v) = k.high {
                if v > b.high {
                    b.high = v;
                }
            }
            if let Some(v) = k.low {
                b.low = if b.low == 0 {
                    v
                } else if v < b.low {
                    v
                } else {
                    b.low
                };
            }
            if let Some(v) = k.close {
                b.close = v;
            }
            if let Some(v) = k.volume {
                b.volume = v;
            }
            if let Some(v) = k.taker_buy_vol {
                b.taker_buy_vol = v;
            }
            self.building = Some(b);
        }
        proof {
            first = closed@;
        }
        if k.is_closed {
            if let Some(b) = self.building {
                closed.push(
                    Candle {
                        open_time: b.open_time,
                        close_time: k.close_time,
                        open: b.open,
                        high: b.high,
                        low: b.low,
                        close: b.close,
                        volume: b.volume,
                        taker_buy_vol: b.taker_buy_vol,
                        trades: b.trades,
                    },
                );
            }
            self.building = None;
        }
        closed
    }

    /// Takes one candle from the polled endpoint; returns the candle that
    /// closed, if one did.
    pub fn on_polled(&mut self, c: &Candle) -> (closed: Option<Candle>)
        requires
            old(self).wf(),
            c.wf(),
            c.open_time <= MAX_OPEN_TIME,
        ensures
            (*final(self), closed) == spec_on_polled(*old(self), *c),
            final(self).wf(),
            closed matches Some(x) ==> x.wf(),
            final(self).current_open_time >= old(self).current_open_time,
            closed matches Some(x) ==> x.open_time == old(self).current_open_time < final(self).current_open_time
                && x.close_time == x.open_time + BAR_SPAN_MS,
    {
        if c.open_time > self.current_open_time {
            let mut prev: Option<Candle> = None;
            if let Some(b) = self.building {
                prev = Some(
                    Candle {
                        open_time: b.open_time,
                        close_time: b.open_time + BAR_SPAN_MS,
                        open: b.open,
                        high: b.high,
                        low: b.low,
                        close: b.close,
                        volume: b.volume,
                        taker_buy_vol: b.taker_buy_vol,
                        trades: b.trades,
                    },
                );
            }
            self.current_open_time = c.open_time;
            self.building = Some(
                BuildingCandle {
                    open_time: c.open_time,
                    open: c.open,
                    high: c.high,
                    low: c.low,
                    close: c.close,
                    volume: c.volume,
                    taker_buy_vol: c.taker_buy_vol,
                    trades: c.trades,
                },
            );
            prev
        } else if c.open_time == self.current_open_time {
            if let Some(b0) = self.building {
                let mut b = b0;
                if c.high > b.high {
                    b.high = c.high;
                }
                b.low = if b.low == 0 {
                    c.low
                } else if c.low < b.low {
                    c.low
                } else {
                    b.low
                };
                b.close = c.close;
                b.volume = c.volume;
                b.taker_buy_vol = c.taker_buy_vol;
                b.trades = c.trades;
                self.building = Some(b);
            }
            None
        } else {
            None
        }
    }
}

/// The fields of one kline row of the exchange's REST endpoint: times as
/// numbers, prices and volumes as decimal text, and the trade count.
#[derive(Clone, Debug)]
pub struct KlineRow {
    pub open_time: i64,
    pub close_time: i64,
    pub open: Vec<u8>,
    pub high: Vec<u8>,
    pub low: Vec<u8>,
    pub close: Vec<u8>,
    pub volume: Vec<u8>,
    pub taker_buy_vol: Vec<u8>,
    pub trades: u64,
}

/// A decimal field, zero where it does not read.
pub open spec fn units_or_zero(s: Seq<u8>) -> i64 {
    match spec_parse_decimal(s) {
        Some(v) => v as i64,
        None => 0,
    }
}

/// The candle that a row describes; fields that do not read are zero, and
/// the trade count keeps its low 32 bits.
pub open spec fn spec_row_candle(r: KlineRow) -> Candle {
    Candle {
        open_time: r.open_time,
        close_time: r.close_time,
        open: units_or_zero(r.open@),
        high: units_or_zero(r.high@),
        low: units_or_zero(r.low@),
        close: units_or_zero(r.close@),
        volume: units_or_zero(r.volume@),
        taker_buy_vol: units_or_zero(r.taker_buy_vol@),
        trades: r.trades as u32,
    }
}

fn units_or_zero_exec(s: &Vec<u8>) -> (v: i64)
    ensures
        v == units_or_zero(s@),
        in_range(v as int),
{
    match parse_decimal(s.as_slice()) {
        Some(v) => v,
        None => 0,
    }
}

pub fn candle_from_row(r: &KlineRow) -> (c: Candle)
    ensures
        c == spec_row_candle(*r),
        c.wf(),
{
    Candle {
        open_time: r.open_time,
        close_time: r.close_time,
        open: units_or_zero_exec(&r.open),
        high: units_or_zero_exec(&r.high),
        low: units_or_zero_exec(&r.low),
        close: units_or_zero_exec(&r.close),
        volume: units_or_zero_exec(&r.volume),
        taker_buy_vol: units_or_zero_exec(&r.taker_buy_vol),
        trades: r.trades as u32,
    }
}

/// The candles of the rows in order; with `skip_zero_volume`, rows whose
/// volume is zero (gaps in the exchange's data) are left out.
pub open spec fn spec_rows_candles(rows: Seq<KlineRow>, skip_zero_volume: bool) -> Seq<Candle>
    decreases rows.len(),
{
    if rows.len() == 0 {
        Seq::empty()
    } else {
        let prev = spec_rows_candles(rows.drop_last(), skip_zero_volume);
        let c = spec_row_candle(rows.last());
        if skip_zero_volume && c.volume == 0 {
            prev
        } else {
            prev.push(c)
        }
    }
}

pub fn candles_from_rows(rows: &Vec<KlineRow>, skip_zero_volume: bool) -> (out: Vec<Candle>)
    ensures
        out@ == spec_rows_candles(rows@, skip_zero_volume),
        forall|i: int| 0 <= i < out@.len() ==> (#[trigger] out@[i]).wf(),
{
    let mut out: Vec<Candle> = Vec::new();
    let mut i: usize = 0;
    while i < rows.len()
        invariant
            i <= rows@.len(),
            out@ == spec_rows_candles(rows@.take(i as int), skip_zero_volume),
            forall|j: int| 0 <= j < out@.len() ==> (#[trigger] out@[j]).wf(),
        decreases rows@.len() - i,
    {
        proof {
            assert(rows@.take(i as int + 1).drop_last() =~= rows@.take(i as int));
            assert(rows@.take(i as int + 1).last() == rows@[i as int]);
        }
        let c = candle_from_row(&rows[i]);
        if !(skip_zero_volume && c.volume == 0) {
            out.push(c);
        }
        i = i + 1;
    }
    proof {
        assert(rows@.take(i as int) =~= rows@);
    }
    out
}

/// A kline row reads each number from its own field: open, high, low,
/// close, volume and taker buy volume are the decimals of those fields (zero
/// where a field does not read), times and trades are the row's; a finished
/// candle keeps every value of the candle built and takes its close time.
pub proof fn lemma_row_fields(r: KlineRow, b: BuildingCandle, close_time: i64)
    ensures
        ({
            let c = spec_row_candle(r);
            let read = |t: Seq<u8>| match spec_parse_decimal(t) {
                Some(v) => v as i64,
                None => 0i64,
            };
            &&& c.open == read(r.open@) && c.high == read(r.high@) && c.low == read(r.low@)
            &&& c.close == read(r.close@) && c.volume == read(r.volume@) && c.taker_buy_vol == read(r.taker_buy_vol@)
            &&& c.open_time == r.open_time && c.close_time == r.close_time && c.trades == r.trades as u32
        }),
        ({
            let f = b.finish(close_time);
            &&& f.open_time == b.open_time && f.close_time == close_time
            &&& f.open == b.open && f.high == b.high && f.low == b.low && f.close == b.close
            &&& f.volume == b.volume && f.taker_buy_vol == b.taker_buy_vol && f.trades == b.trades
        }),
{
}

/// Reading rows keeps their order and drops only rows whose volume reads as
/// zero, and only when asked to: without skipping there is one candle per
/// row; with it, every candle kept has volume, and a row with volume is kept.
pub proof fn lemma_rows_read_in_order(rows: Seq<KlineRow>, skip_zero_volume: bool)
    ensures
        spec_rows_candles(rows, skip_zero_volume).len() <= rows.len(),
        !skip_zero_volume ==> spec_rows_candles(rows, false) == rows.map_values(|r: KlineRow| spec_row_candle(r)),
        skip_zero_volume ==> forall|i: int| 0 <= i < spec_rows_candles(rows, true).len() ==> (#[trigger] spec_rows_candles(
            rows,
            true,
        )[i]).volume != 0,
        (rows.len() > 0 && spec_row_candle(rows.last()).volume != 0) ==> spec_rows_candles(rows, skip_zero_volume).last()
            == spec_row_candle(rows.last()),
    decreases rows.len(),
{
    if rows.len() > 0 {
        lemma_rows_read_in_order(rows.drop_last(), skip_zero_volume);
        if !skip_zero_volume {
            assert(spec_rows_candles(rows, false) =~= rows.map_values(|r: KlineRow| spec_row_candle(r)));
        }
        if skip_zero_volume {
            let prev = spec_rows_candles(rows.drop_last(), true);
            let all = spec_rows_candles(rows, true);
            assert forall|i: int| 0 <= i < all.len() implies (#[trigger] all[i]).volume != 0 by {
                if i < prev.len() {
                    assert(all[i] == prev[i]);
                }
            }
        }
    } else {
        assert(spec_rows_candles(rows, false) =~= rows.map_values(|r: KlineRow| spec_row_candle(r)));
    }
}

/// Within one bar the building candle's high never falls, and once its low
/// is set it never rises.
pub proof fn lemma_update_widens(b: BuildingCandle, k: KlineTick)
    ensures
        spec_update(b, k).high >= b.high,
        b.low != 0 ==> spec_update(b, k).low <= b.low,
        spec_update(b, k).open == b.open,
        spec_update(b, k).open_time == b.open_time,
{
}

/// A message closes a candle exactly when it opens a new bar while one is
/// being built, or carries the closed flag for a bar not closed yet; the
/// first closed candle is the one that was being built, with its own open.
pub proof fn lemma_tick_closes(s: FeedState, k: KlineTick)
    ensures
        (spec_on_tick(s, k).1.len() > 0) <==> ((s.building is Some && k.open_time != s.current_open_time) || (
        k.is_closed && !(k.open_time == s.current_open_time && s.building is None))),
        s.building matches Some(b) ==> (spec_on_tick(s, k).1.len() > 0 ==> spec_on_tick(s, k).1[0].open_time
            == b.open_time && spec_on_tick(s, k).1[0].open == b.open),
        k.is_closed ==> spec_on_tick(s, k).0.building is None,
{
}

/// Fields of a candle, as a tuple: open, high, low, close, volume, taker buy
/// volume.
pub open spec fn bar_values(b: BuildingCandle) -> (i64, i64, i64, i64, i64, i64) {
    (b.open, b.high, b.low, b.close, b.volume, b.taker_buy_vol)
}

/// A message for the bar being built keeps the bar's open and takes the
/// message's latest close, volume and taker buy volume; its high never falls
/// below the message's high and, once set, its low never exceeds the
/// message's low. With the closed flag, the one candle closed carries these
/// values; without it, the candle still being built does.
pub proof fn lemma_tick_takes_latest_values(s: FeedState, k: KlineTick)
    requires
        s.building is Some,
        k.open_time == s.current_open_time,
    ensures
        ({
            let b = s.building.unwrap();
            let (t, closed) = spec_on_tick(s, k);
            let (o, h, l, c, v, tb) = if k.is_closed {
                (closed[0].open, closed[0].high, closed[0].low, closed[0].close, closed[0].volume, closed[0].taker_buy_vol)
            } else {
                bar_values(t.building.unwrap())
            };
            &&& k.is_closed ==> closed.len() == 1 && closed[0].open_time == b.open_time && closed[0].close_time
                == k.close_time && t.building is None
            &&& !k.is_closed ==> closed.len() == 0 && t.building is Some && t.building.unwrap().open_time
                == b.open_time
            &&& o == b.open
            &&& c == (match k.close { Some(x) => x, None => b.close })
            &&& v == (match k.volume { Some(x) => x, None => b.volume })
            &&& tb == (match k.taker_buy_vol { Some(x) => x, None => b.taker_buy_vol })
            &&& h >= b.high
            &&& (k.high matches Some(x) ==> h >= x && (h == x || h == b.high))
            &&& (k.low matches Some(x) ==> l <= x && (b.low != 0 ==> l <= b.low))
        }),
{
}

/// A message that opens a new bar starts the candle from the message's own
/// values, and closes the candle that was being built, if any, unchanged.
pub proof fn lemma_tick_starts_from_its_values(s: FeedState, k: KlineTick)
    requires
        k.open_time != s.current_open_time,
        k.open matches Some(_),
        k.high matches Some(_),
        k.low matches Some(_),
        k.close matches Some(_),
        k.volume matches Some(_),
        k.taker_buy_vol matches Some(_),
    ensures
        ({
            let (t, closed) = spec_on_tick(s, k);
            let n = closed.len();
            let started = if k.is_closed {
                (closed[n - 1].open, closed[n - 1].high, closed[n - 1].low, closed[n - 1].close, closed[n - 1].volume,
                closed[n - 1].taker_buy_vol)
            } else {
                bar_values(t.building.unwrap())
            };
            &&& started == (k.open.unwrap(), k.high.unwrap(), k.low.unwrap(), k.close.unwrap(), k.volume.unwrap(),
                k.taker_buy_vol.unwrap())
            &&& (s.building matches Some(b) ==> closed[0] == b.finish((b.open_time + BAR_SPAN_MS) as i64))
            &&& n == (if s.building is Some { 1int } else { 0 }) + (if k.is_closed { 1int } else { 0 })
        }),
{
}

/// A polled candle for the bar being built keeps the bar's open and open
/// time and takes the candle's close, volume, taker buy volume and trades,
/// the higher of the highs and, once the low is set, the lower of the lows;
/// it closes nothing. A polled candle of a later bar closes the bar being
/// built, unchanged, and starts the new one from the polled values. An
/// earlier bar changes nothing.
pub proof fn lemma_poll_takes_latest_values(s: FeedState, c: Candle)
    ensures
        ({
            let (t, closed) = spec_on_polled(s, c);
            &&& c.open_time < s.current_open_time ==> t == s && closed is None
            &&& c.open_time == s.current_open_time ==> closed is None && t.current_open_time == s.current_open_time
                && (s.building matches Some(b) ==> {
                let n = t.building.unwrap();
                &&& n.open_time == b.open_time && n.open == b.open
                &&& n.close == c.close && n.volume == c.volume && n.taker_buy_vol == c.taker_buy_vol
                &&& n.trades == c.trades
                &&& n.high >= b.high && n.high >= c.high && (n.high == b.high || n.high == c.high)
                &&& (b.low != 0 ==> n.low <= b.low && n.low <= c.low && (n.low == b.low || n.low == c.low))
                &&& (b.low == 0 ==> n.low == c.low)
            }) && (s.building is None ==> t.building is None)
            &&& c.open_time > s.current_open_time ==> {
                &&& t.current_open_time == c.open_time
                &&& t.building == Some(BuildingCandle {
                    open_time: c.open_time,
                    open: c.open,
                    high: c.high,
                    low: c.low,
                    close: c.close,
                    volume: c.volume,
                    taker_buy_vol: c.taker_buy_vol,
                    trades: c.trades,
                })
                &&& closed == (match s.building {
                    Some(b) => Some(b.finish((b.open_time + BAR_SPAN_MS) as i64)),
                    None => None,
                })
            }
        }),
{
}

/// Consecutive stream failures after which the feed polls instead.
pub const MAX_WS_FAILURES: u32 = 3;

/// Where the feed reads from next.
#[derive(Clone, Copy, Debug, PartialEq, Eq, Structural)]
pub enum FeedSource {
    Stream,
    Polling,
}

/// The stream while it has failed fewer than `MAX_WS_FAILURES` times in a
/// row, polling after that.
pub fn feed_source(ws_failures: u32) -> (r: FeedSource)
    ensures
        r == (if ws_failures < MAX_WS_FAILURES { FeedSource::Stream } else { FeedSource::Polling }),
{
    if ws_failures < MAX_WS_FAILURES {
        FeedSource::Stream
    } else {
        FeedSource::Polling
    }
}

/// Failure count after a stream connection ends, cleanly or not: one more.
pub fn after_stream_ends(ws_failures: u32) -> (r: u32)
    ensures
        r == (if ws_failures < u32::MAX { ws_failures + 1 } else { ws_failures as int }),
{
    if ws_failures < u32::MAX {
        ws_failures + 1
    } else {
        ws_failures
    }
}

/// Failure count after polling ends: back to zero when it ended cleanly, so
/// that the stream is tried again; unchanged after an error.
pub fn after_polling_ends(ws_failures: u32, ended_cleanly: bool) -> (r: u32)
    ensures
        r == (if ended_cleanly { 0 } else { ws_failures }),
{
    if ended_cleanly {
        0
    } else {
        ws_failures
    }
}

/// What paging backwards through the exchange's history does after a page.
#[derive(Clone, Copy, Debug, PartialEq, Eq, Structural)]
pub enum PageStep {
    /// Stop paging.
    Done,
    /// Fetch the page of bars that ends at `end`.
    Next { end: i64 },
}

/// Paging back as far as the exchange allows: after a page whose first bar
/// opened at `first_open`, go on with the bars before it; an empty page
/// (`None`) ends the paging.
pub fn after_page(first_open: Option<i64>) -> (r: PageStep)
    requires
        first_open matches Some(f) ==> f > i64::MIN,
    ensures
        r == (match first_open {
            Some(f) => PageStep::Next { end: (f - 1) as i64 },
            None => PageStep::Done,
        }),
        r matches PageStep::Next { end } ==> end < first_open.unwrap(),
{
    match first_open {
        Some(f) => PageStep::Next { end: f - 1 },
        None => PageStep::Done,
    }
}

/// Pages that a bootstrap fetches at most.
pub const BOOTSTRAP_PAGES: u32 = 5;

/// The bootstrap's paging: as `after_page`, but done once `pages` pages are
/// fetched and `BOOTSTRAP_PAGES` reached.
pub fn bootstrap_step(pages: u32, first_open: Option<i64>) -> (r: PageStep)
    requires
        first_open matches Some(f) ==> f > i64::MIN,
    ensures
        r == (if pages >= BOOTSTRAP_PAGES {
            PageStep::Done
        } else {
            match first_open {
                Some(f) => PageStep::Next { end: (f - 1) as i64 },
                None => PageStep::Done,
            }
        }),
{
    if pages >= BOOTSTRAP_PAGES {
        PageStep::Done
    } else {
        after_page(first_open)
    }
}

/// Once a bar has closed on its closed flag, a later message for the same bar
/// closes nothing and leaves the feed as it was: each bar closes once.
pub proof fn lemma_closed_bar_stays_closed(s: FeedState, k1: KlineTick, k2: KlineTick)
    requires
        k1.is_closed,
        k2.open_time == k1.open_time,
    ensures
        spec_on_tick(spec_on_tick(s, k1).0, k2).1.len() == 0,
        spec_on_tick(spec_on_tick(s, k1).0, k2).0 == spec_on_tick(s, k1).0,
{
}

/// The feed after the stream messages `ks` in order, and the candles that
/// closed on the way.
pub open spec fn spec_tick_all(s: FeedState, ks: Seq<KlineTick>) -> (FeedState, Seq<Candle>)
    decreases ks.len(),
{
    if ks.len() == 0 {
        (s, Seq::empty())
    } else {
        let (mid, closed) = spec_tick_all(s, ks.drop_last());
        let (next, out) = spec_on_tick(mid, ks.last());
        (next, closed + out)
    }
}

/// A stream message whose open, high and low are present, with a positive
/// open and `0 < low <= high`.
pub open spec fn tick_sane(k: KlineTick) -> bool {
    &&& k.open matches Some(o) && o > 0
    &&& k.low matches Some(l) && l > 0
    &&& k.high matches Some(h) && h >= k.low.unwrap()
}

/// The feed's candle, if one is being built, is the current bar's, with a
/// positive open and `0 < low <= high`.
pub open spec fn building_sane(s: FeedState) -> bool {
    s.building matches Some(b) ==> b.open_time == s.current_open_time && b.open > 0 && 0 < b.low <= b.high
}

/// What the candles closed so far keep: each opened before the current bar,
/// or is the current bar once nothing is being built; they closed in order
/// of their open times; each has a positive open and `low <= high`.
pub open spec fn closed_sane(t: FeedState, closed: Seq<Candle>, from: int) -> bool {
    &&& forall|i: int| 0 <= i < closed.len() ==> from <= (#[trigger] closed[i]).open_time && (closed[i].open_time
        < t.current_open_time || (closed[i].open_time == t.current_open_time && t.building is None))
    &&& forall|i: int| 0 <= i < closed.len() ==> (#[trigger] closed[i]).open > 0 && closed[i].low <= closed[i].high
    &&& forall|i: int, j: int| 0 <= i < j < closed.len() ==> (#[trigger] closed[i]).open_time < (#[trigger] closed[j]).open_time
}

/// Over a whole stream whose bars never go back, every bar is sent closed at
/// most once: the closed candles' open times strictly increase. Where every
/// message is sane, every closed candle has a positive open and its low at
/// most its high.
pub proof fn lemma_stream_closes_each_bar_once(s: FeedState, ks: Seq<KlineTick>)
    requires
        building_sane(s),
        forall|i: int| 0 <= i < ks.len() ==> tick_sane(#[trigger] ks[i]),
        forall|i: int| 0 <= i < ks.len() ==> s.current_open_time <= (#[trigger] ks[i]).open_time,
        forall|i: int, j: int| 0 <= i < j < ks.len() ==> (#[trigger] ks[i]).open_time <= (#[trigger] ks[j]).open_time,
    ensures
        ({
            let (t, closed) = spec_tick_all(s, ks);
            &&& building_sane(t)
            &&& ks.len() > 0 ==> t.current_open_time == ks.last().open_time
            &&& ks.len() == 0 ==> t == s
            &&& closed_sane(t, closed, s.current_open_time as int)
        }),
    decreases ks.len(),
{
    if ks.len() > 0 {
        let p = ks.drop_last();
        assert forall|i: int| 0 <= i < p.len() implies tick_sane(#[trigger] p[i]) by {
            assert(p[i] == ks[i]);
        }
        assert forall|i: int| 0 <= i < p.len() implies s.current_open_time <= (#[trigger] p[i]).open_time by {
            assert(p[i] == ks[i]);
        }
        assert forall|i: int, j: int| 0 <= i < j < p.len() implies (#[trigger] p[i]).open_time <= (
        #[trigger] p[j]).open_time by {
            assert(p[i] == ks[i]);
            assert(p[j] == ks[j]);
        }
        lemma_stream_closes_each_bar_once(s, p);
        let (mid, closed) = spec_tick_all(s, p);
        let k = ks.last();
        assert(k == ks[ks.len() - 1]);
        assert(tick_sane(k));
        assert(mid.current_open_time <= k.open_time) by {
            if p.len() > 0 {
                assert(p.last() == ks[p.len() - 1]);
            }
        }
        let (next, out) = spec_on_tick(mid, k);
        let all = closed + out;
        assert(closed_sane(next, all, s.current_open_time as int)) by {
            assert forall|i: int| 0 <= i < out.len() implies s.current_open_time <= (#[trigger] out[i]).open_time && (
            out[i].open_time < next.current_open_time || (out[i].open_time == next.current_open_time
                && next.building is None)) && out[i].open > 0 && out[i].low <= out[i].high
                && (forall|c: int| 0 <= c < closed.len() ==> closed[c].open_time < #[trigger] out[i].open_time) by {
            }
            assert forall|i: int, j: int| 0 <= i < j < out.len() implies (#[trigger] out[i]).open_time < (
            #[trigger] out[j]).open_time by {
            }
            assert forall|i: int| 0 <= i < all.len() implies s.current_open_time <= (#[trigger] all[i]).open_time && (
            all[i].open_time < next.current_open_time || (all[i].open_time == next.current_open_time
                && next.building is None)) && all[i].open > 0 && all[i].low <= all[i].high by {
                if i < closed.len() {
                    assert(all[i] == closed[i]);
                } else {
                    assert(all[i] == out[i - closed.len()]);
                }
            }
            assert forall|i: int, j: int| 0 <= i < j < all.len() implies (#[trigger] all[i]).open_time < (
            #[trigger] all[j]).open_time by {
                if j < closed.len() {
                    assert(all[i] == closed[i]);
                    assert(all[j] == closed[j]);
                } else if i < closed.len() {
                    assert(all[i] == closed[i]);
                    assert(all[j] == out[j - closed.len()]);
                } else {
                    assert(all[i] == out[i - closed.len()]);
                    assert(all[j] == out[j - closed.len()]);
                }
            }
        }
    }
}

/// The feed after polling the candles `cs` in order, and the candles that
/// closed on the way.
pub open spec fn spec_poll_all(s: FeedState, cs: Seq<Candle>) -> (FeedState, Seq<Candle>)
    decreases cs.len(),
{
    if cs.len() == 0 {
        (s, Seq::empty())
    } else {
        let (mid, closed) = spec_poll_all(s, cs.drop_last());
        let (next, out) = spec_on_polled(mid, cs.last());
        (
            next,
            match out {
                Some(c) => closed.push(c),
                None => closed,
            },
        )
    }
}

/// Across successive polls the current bar never goes back; every candle
/// that closes is a whole bar from the current open time on, closes before
/// the bar now current, and closes after every candle closed before it.
pub proof fn lemma_polls_advance(s: FeedState, cs: Seq<Candle>)
    requires
        s.wf(),
        forall|i: int| 0 <= i < cs.len() ==> (#[trigger] cs[i]).wf() && cs[i].open_time <= MAX_OPEN_TIME,
    ensures
        ({
            let (t, closed) = spec_poll_all(s, cs);
            &&& t.wf()
            &&& t.current_open_time >= s.current_open_time
            &&& forall|i: int|
                0 <= i < closed.len() ==> s.current_open_time <= (#[trigger] closed[i]).open_time
                    < t.current_open_time && closed[i].close_time == closed[i].open_time + BAR_SPAN_MS
            &&& forall|i: int, j: int|
                0 <= i < j < closed.len() ==> (#[trigger] closed[i]).open_time < (#[trigger] closed[j]).open_time
        }),
    decreases cs.len(),
{
    if cs.len() > 0 {
        let p = cs.drop_last();
        assert forall|i: int| 0 <= i < p.len() implies (#[trigger] p[i]).wf() && p[i].open_time
            <= MAX_OPEN_TIME by {
            assert(p[i] == cs[i]);
        }
        lemma_polls_advance(s, p);
        assert(cs.last() == cs[cs.len() - 1]);
    }
}

} // verus!
