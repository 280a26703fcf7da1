//! Decisions of the stream collector: which stream a message belongs to,
//! how a depth snapshot and an aggregated trade become ticks, and what to
//! do with each WebSocket frame.
use vstd::prelude::*;

use crate::models::{AggTradeData, DepthData, DepthTick, TradeTick};
use crate::text::{contains_str, contains_text, lemma_contains_text_split};

verus! {

/// The stream a combined-stream message comes from.
#[derive(Clone, Copy, Debug, PartialEq, Eq, Structural)]
pub enum StreamKind {
    Depth,
    AggTrade,
    Other,
}

/// A stream whose name holds `depth5` carries depth snapshots; otherwise one
/// whose name holds `aggTrade` carries aggregated trades.
pub open spec fn stream_kind_of(stream: Seq<char>) -> StreamKind {
    if contains_text(stream, "depth5"@) {
        StreamKind::Depth
    } else if contains_text(stream, "aggTrade"@) {
        StreamKind::AggTrade
    } else {
        StreamKind::Other
    }
}

/// A name holding `depth5` is a depth stream, whatever else it holds; a name
/// holding `aggTrade` but not `depth5` is a trade stream; any other is
/// neither.
pub proof fn lemma_stream_kind(stream: Seq<char>)
    ensures
        (exists|a: Seq<char>, b: Seq<char>| stream == a + "depth5"@ + b) ==> stream_kind_of(stream)
            == StreamKind::Depth,
        !(exists|a: Seq<char>, b: Seq<char>| stream == a + "depth5"@ + b) && (exists|
            a: Seq<char>,
            b: Seq<char>,
        | stream == a + "aggTrade"@ + b) ==> stream_kind_of(stream) == StreamKind::AggTrade,
        !(exists|a: Seq<char>, b: Seq<char>| stream == a + "depth5"@ + b) && !(exists|
            a: Seq<char>,
            b: Seq<char>,
        | stream == a + "aggTrade"@ + b) ==> stream_kind_of(stream) == StreamKind::Other,
{
    lemma_contains_text_split(stream, "depth5"@);
    lemma_contains_text_split(stream, "aggTrade"@);
}

/// Classifies a message by the `stream` field of its envelope.
pub fn stream_kind(stream: &str) -> (kind: StreamKind)
    ensures
        kind == stream_kind_of(stream@),
{
    if contains_str(stream, "depth5") {
        StreamKind::Depth
    } else if contains_str(stream, "aggTrade") {
        StreamKind::AggTrade
    } else {
        StreamKind::Other
    }
}

/// Level `i` of one side of the book: its `(price, quantity)` bit patterns
/// when the level exists and both of its texts parse as `f64`, `(0, 0)`
/// (that is `(0.0, 0.0)`) otherwise. `values[i]` is the parse of level `i`.
pub open spec fn level_at(values: Seq<Option<(u64, u64)>>, i: int) -> (u64, u64) {
    if 0 <= i < values.len() {
        match values[i] {
            Some(pq) => pq,
            None => (0, 0),
        }
    } else {
        (0, 0)
    }
}

/// The depth row made of a snapshot whose levels parsed to `bids` and `asks`.
pub open spec fn depth_tick_of(
    recv_ts_us: i64,
    last_update_id: u64,
    bids: Seq<Option<(u64, u64)>>,
    asks: Seq<Option<(u64, u64)>>,
) -> DepthTick {
    DepthTick {
        recv_ts_us,
        last_update_id,
        bid1_p: level_at(bids, 0).0,
        bid1_q: level_at(bids, 0).1,
        bid2_p: level_at(bids, 1).0,
        bid2_q: level_at(bids, 1).1,
        bid3_p: level_at(bids, 2).0,
        bid3_q: level_at(bids, 2).1,
        bid4_p: level_at(bids, 3).0,
        bid4_q: level_at(bids, 3).1,
        bid5_p: level_at(bids, 4).0,
        bid5_q: level_at(bids, 4).1,
        ask1_p: level_at(asks, 0).0,
        ask1_q: level_at(asks, 0).1,
        ask2_p: level_at(asks, 1).0,
        ask2_q: level_at(asks, 1).1,
        ask3_p: level_at(asks, 2).0,
        ask3_q: level_at(asks, 2).1,
        ask4_p: level_at(asks, 3).0,
        ask4_q: level_at(asks, 3).1,
        ask5_p: level_at(asks, 4).0,
        ask5_q: level_at(asks, 4).1,
    }
}

/// Level `k` of each side of the row is the `k`-th level of the snapshot on
/// that side when the snapshot has it and both its texts parse, and
/// `(0.0, 0.0)` otherwise; the row keeps the receive time and update id.
pub proof fn lemma_depth_row_levels(
    recv_ts_us: i64,
    last_update_id: u64,
    bids: Seq<Option<(u64, u64)>>,
    asks: Seq<Option<(u64, u64)>>,
)
    ensures
        ({
            let t = depth_tick_of(recv_ts_us, last_update_id, bids, asks);
            &&& t.recv_ts_us == recv_ts_us
            &&& t.last_update_id == last_update_id
            &&& (t.bid1_p, t.bid1_q) == (if 0 < bids.len() && bids[0] is Some { bids[0]->0 } else { (0u64, 0u64) })
            &&& (t.bid2_p, t.bid2_q) == (if 1 < bids.len() && bids[1] is Some { bids[1]->0 } else { (0u64, 0u64) })
            &&& (t.bid3_p, t.bid3_q) == (if 2 < bids.len() && bids[2] is Some { bids[2]->0 } else { (0u64, 0u64) })
            &&& (t.bid4_p, t.bid4_q) == (if 3 < bids.len() && bids[3] is Some { bids[3]->0 } else { (0u64, 0u64) })
            &&& (t.bid5_p, t.bid5_q) == (if 4 < bids.len() && bids[4] is Some { bids[4]->0 } else { (0u64, 0u64) })
            &&& (t.ask1_p, t.ask1_q) == (if 0 < asks.len() && asks[0] is Some { asks[0]->0 } else { (0u64, 0u64) })
            &&& (t.ask2_p, t.ask2_q) == (if 1 < asks.len() && asks[1] is Some { asks[1]->0 } else { (0u64, 0u64) })
            &&& (t.ask3_p, t.ask3_q) == (if 2 < asks.len() && asks[2] is Some { asks[2]->0 } else { (0u64, 0u64) })
            &&& (t.ask4_p, t.ask4_q) == (if 3 < asks.len() && asks[3] is Some { asks[3]->0 } else { (0u64, 0u64) })
            &&& (t.ask5_p, t.ask5_q) == (if 4 < asks.len() && asks[4] is Some { asks[4]->0 } else { (0u64, 0u64) })
        }),
{
}

fn level(values: &Vec<Option<(u64, u64)>>, i: usize) -> (pq: (u64, u64))
    ensures
        pq == level_at(values@, i as int),
{
    if i < values.len() {
        match values[i] {
            Some(pq) => pq,
            None => (0, 0),
        }
    } else {
        (0, 0)
    }
}

/// Builds the depth row of a snapshot received at `recv_ts_us`.
/// `bid_values[i]` (`ask_values[i]`) is the parse of `depth.bids[i]`
/// (`depth.asks[i]`): both texts as `f64` bit patterns, or `None` when one of
/// them is not a number.
pub fn parse_depth(
    recv_ts_us: i64,
    depth: &DepthData,
    bid_values: &Vec<Option<(u64, u64)>>,
    ask_values: &Vec<Option<(u64, u64)>>,
) -> (tick: DepthTick)
    ensures
        tick == depth_tick_of(recv_ts_us, depth.last_update_id, bid_values@, ask_values@),
{
    let (bid1_p, bid1_q) = level(bid_values, 0);
    let (bid2_p, bid2_q) = level(bid_values, 1);
    let (bid3_p, bid3_q) = level(bid_values, 2);
    let (bid4_p, bid4_q) = level(bid_values, 3);
    let (bid5_p, bid5_q) = level(bid_values, 4);
    let (ask1_p, ask1_q) = level(ask_values, 0);
    let (ask2_p, ask2_q) = level(ask_values, 1);
    let (ask3_p, ask3_q) = level(ask_values, 2);
    let (ask4_p, ask4_q) = level(ask_values, 3);
    let (ask5_p, ask5_q) = level(ask_values, 4);
    DepthTick {
        recv_ts_us,
        last_update_id: depth.last_update_id,
        bid1_p,
        bid1_q,
        bid2_p,
        bid2_q,
        bid3_p,
        bid3_q,
        bid4_p,
        bid4_q,
        bid5_p,
        bid5_q,
        ask1_p,
        ask1_q,
        ask2_p,
        ask2_q,
        ask3_p,
        ask3_q,
        ask4_p,
        ask4_q,
        ask5_p,
        ask5_q,
    }
}

/// Why an aggregated trade gave no row: its price, or else its quantity, is
/// not a number.
#[derive(Clone, Copy, Debug, PartialEq, Eq, Structural)]
pub enum TickError {
    Price,
    Qty,
}

/// Builds the trade row of `trade` received at `recv_ts_us`; `price` and
/// `qty` are the parses of `trade.price` and `trade.qty` as `f64` bit
/// patterns. The price is looked at first.
pub fn trade_tick(recv_ts_us: i64, trade: &AggTradeData, price: Option<u64>, qty: Option<u64>) -> (r:
    Result<TradeTick, TickError>)
    ensures
        price is None ==> r == Err::<TradeTick, TickError>(TickError::Price),
        price is Some && qty is None ==> r == Err::<TradeTick, TickError>(TickError::Qty),
        price is Some && qty is Some ==> r == Ok::<TradeTick, TickError>(
            TradeTick {
                recv_ts_us,
                event_ts_ms: trade.event_ts,
                trade_ts_ms: trade.trade_ts,
                agg_trade_id: trade.agg_trade_id,
                price: price->0,
                qty: qty->0,
                is_buyer_maker: trade.is_buyer_maker,
            },
        ),
{
    let price = match price {
        Some(p) => p,
        None => return Err(TickError::Price),
    };
    let qty = match qty {
        Some(q) => q,
        None => return Err(TickError::Qty),
    };
    Ok(
        TradeTick {
            recv_ts_us,
            event_ts_ms: trade.event_ts,
            trade_ts_ms: trade.trade_ts,
            agg_trade_id: trade.agg_trade_id,
            price,
            qty,
            is_buyer_maker: trade.is_buyer_maker,
        },
    )
}

/// A frame read from the WebSocket.
#[derive(Clone, Debug, PartialEq, Eq)]
pub enum WsFrame {
    Text(String),
    Binary(Vec<u8>),
    Ping(Vec<u8>),
    Pong(Vec<u8>),
    Close,
    Other,
}

/// What the collector does with a frame.
#[derive(Clone, Debug, PartialEq, Eq)]
pub enum WsAction {
    /// Handle the text as a stream message.
    Handle(String),
    /// Answer with a pong that carries this payload.
    Pong(Vec<u8>),
    /// The server closed the stream: stop reading.
    Stop,
    /// Nothing to do.
    Ignore,
}

/// A text frame is handled, a ping is answered with a pong carrying the same
/// payload, a close frame ends the session, and anything else is ignored.
pub fn ws_action(frame: WsFrame) -> (action: WsAction)
    ensures
        match frame {
            WsFrame::Text(t) => action == WsAction::Handle(t),
            WsFrame::Ping(p) => action == WsAction::Pong(p),
            WsFrame::Close => action == WsAction::Stop,
            _ => action == WsAction::Ignore,
        },
{
    match frame {
        WsFrame::Text(t) => WsAction::Handle(t),
        WsFrame::Ping(p) => WsAction::Pong(p),
        WsFrame::Close => WsAction::Stop,
        _ => WsAction::Ignore,
    }
}

} // verus!
