//! Decision logic of a paper-trading engine for fifteen- and five-minute
//! BTC up/down prediction markets.
pub mod fixed;
pub mod candle;
pub mod decision;
pub mod tracker;
pub mod bear;
pub mod feed;
pub mod obi;
pub mod clob;
pub mod features;
pub mod session;
pub mod models;
pub mod summary;
pub mod regime;
