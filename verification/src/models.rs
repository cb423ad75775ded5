//! Records of the paper-trade log and of regime snapshots, and the engine's
//! configuration.
use vstd::prelude::*;
use crate::fixed::Ratio;

verus! {

/// A paper trade record; prices, odds and profits are quantities in units.
#[derive(Clone, Debug)]
pub struct PaperTrade {
    pub id: i64,
    /// Exchange open time of the block.
    pub block_open_time: i64,
    /// Exchange close time of the block.
    pub block_close_time: i64,
    /// Exchange open price at the block's start.
    pub reference_price: i64,
    /// Exchange close price at the block's end.
    pub resolution_price: i64,
    /// "BULL", "BEAR" or "NEUTRAL".
    pub regime: String,
    /// "YES", "NO" or "SKIP".
    pub decision: String,
    pub open_odds_yes: Option<i64>,
    pub open_odds_no: Option<i64>,
    /// "WIN" or "LOSS"; absent while unresolved or for a skip.
    pub outcome: Option<String>,
    /// Simulated profit.
    pub pnl: Option<i64>,
    pub created_at: String,
}

/// A regime state snapshot for analysis.
#[derive(Clone, Debug)]
pub struct RegimeSnapshot {
    pub id: i64,
    pub block_open_time: i64,
    pub state: String,
    pub bull_score: Option<u32>,
    pub bear_score: Option<u32>,
    pub spread_7_25: Ratio,
    pub slope_25: Ratio,
    pub close_pos: Ratio,
    pub green_8: u32,
    pub red_8: u32,
}

/// Settings of a run.
#[derive(Clone, Debug)]
pub struct Config {
    pub db_path: String,
    pub market_slug: String,
    /// Bet size in units.
    pub bet_size: i64,
}

impl Config {
    pub fn new(db_path: String, market_slug: String, bet_size: i64) -> (c: Config)
        ensures
            c.db_path == db_path,
            c.market_slug == market_slug,
            c.bet_size == bet_size,
    {
        Config { db_path, market_slug, bet_size }
    }
}

} // verus!
