//! The records that flow from the exchange stream to the CSV files.
//!
//! Prices and quantities in the ticks are `f64` values in the files; here they
//! are held by their IEEE-754 bit patterns (`f64::to_bits`), which is exactly
//! the value that is written.
use vstd::prelude::*;

verus! {

/// The `data` of a `<symbol>@depth5` stream message: the top levels of the
/// order book, each level a `[price, quantity]` pair of decimal texts.
#[derive(Clone, Debug, PartialEq, Eq)]
pub struct DepthData {
    pub last_update_id: u64,
    pub bids: Vec<[String; 2]>,
    pub asks: Vec<[String; 2]>,
}

/// The `data` of a `<symbol>@aggTrade` stream message.
#[derive(Clone, Debug, PartialEq, Eq)]
pub struct AggTradeData {
    pub event_ts: i64,
    pub trade_ts: i64,
    pub agg_trade_id: u64,
    pub price: String,
    pub qty: String,
    /// true = buyer is maker → taker sell; false = buyer is taker → taker buy
    pub is_buyer_maker: bool,
}

/// One row of the depth file: the five best bid and ask levels.
/// Each `_p`/`_q` field is the bit pattern of an `f64`; a level that the
/// message lacks, or whose texts do not parse, is `0.0` (bit pattern `0`).
#[derive(Clone, Copy, Debug, PartialEq, Eq, Structural)]
pub struct DepthTick {
    pub recv_ts_us: i64,
    pub last_update_id: u64,
    pub bid1_p: u64,
    pub bid1_q: u64,
    pub bid2_p: u64,
    pub bid2_q: u64,
    pub bid3_p: u64,
    pub bid3_q: u64,
    pub bid4_p: u64,
    pub bid4_q: u64,
    pub bid5_p: u64,
    pub bid5_q: u64,
    pub ask1_p: u64,
    pub ask1_q: u64,
    pub ask2_p: u64,
    pub ask2_q: u64,
    pub ask3_p: u64,
    pub ask3_q: u64,
    pub ask4_p: u64,
    pub ask4_q: u64,
    pub ask5_p: u64,
    pub ask5_q: u64,
}

/// One row of the trades file. `price` and `qty` are `f64` bit patterns.
#[derive(Clone, Copy, Debug, PartialEq, Eq, Structural)]
pub struct TradeTick {
    pub recv_ts_us: i64,
    pub event_ts_ms: i64,
    pub trade_ts_ms: i64,
    pub agg_trade_id: u64,
    pub price: u64,
    pub qty: u64,
    pub is_buyer_maker: bool,
}

} // verus!
