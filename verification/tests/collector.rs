use quant_2::collector::{parse_depth, stream_kind, trade_tick, ws_action, StreamKind, TickError, WsAction, WsFrame};
use quant_2::models::{AggTradeData, DepthData, TradeTick};

fn bits(x: f64) -> u64 {
    x.to_bits()
}

fn level(p: &str, q: &str) -> [String; 2] {
    [p.to_string(), q.to_string()]
}

/// What the app hands the library: each level parsed as two floats.
fn parse_levels(levels: &[[String; 2]]) -> Vec<Option<(u64, u64)>> {
    levels
        .iter()
        .map(|[p, q]| Some((p.parse::<f64>().ok()?.to_bits(), q.parse::<f64>().ok()?.to_bits())))
        .collect()
}

#[test]
fn stream_kind_by_name() {
    assert_eq!(stream_kind("btcusdt@depth5@100ms"), StreamKind::Depth);
    assert_eq!(stream_kind("btcusdt@aggTrade"), StreamKind::AggTrade);
    assert_eq!(stream_kind("btcusdt@trade"), StreamKind::Other);
    assert_eq!(stream_kind(""), StreamKind::Other);
    // depth5 is looked for first
    assert_eq!(stream_kind("aggTrade@depth5"), StreamKind::Depth);
}

#[test]
fn parse_depth_takes_five_levels_and_zeroes_the_rest() {
    let depth = DepthData {
        last_update_id: 42,
        bids: vec![level("100.5", "1.25"), level("oops", "2"), level("99.5", "3")],
        asks: (0..7).map(|i| level(&format!("{}.0", 101 + i), "0.5")).collect(),
    };
    let bids = parse_levels(&depth.bids);
    let asks = parse_levels(&depth.asks);
    let t = parse_depth(1_700_000_000_000_000, &depth, &bids, &asks);
    assert_eq!(t.recv_ts_us, 1_700_000_000_000_000);
    assert_eq!(t.last_update_id, 42);
    assert_eq!((t.bid1_p, t.bid1_q), (bits(100.5), bits(1.25)));
    // an unparsable level reads as (0.0, 0.0)
    assert_eq!((t.bid2_p, t.bid2_q), (bits(0.0), bits(0.0)));
    assert_eq!((t.bid3_p, t.bid3_q), (bits(99.5), bits(3.0)));
    // missing levels read as (0.0, 0.0)
    assert_eq!((t.bid4_p, t.bid4_q), (0, 0));
    assert_eq!((t.bid5_p, t.bid5_q), (0, 0));
    assert_eq!((t.ask1_p, t.ask1_q), (bits(101.0), bits(0.5)));
    assert_eq!((t.ask5_p, t.ask5_q), (bits(105.0), bits(0.5)));
}

#[test]
fn parse_depth_of_empty_book_is_all_zero() {
    let depth = DepthData { last_update_id: 7, bids: vec![], asks: vec![] };
    let t = parse_depth(5, &depth, &vec![], &vec![]);
    assert_eq!(t.last_update_id, 7);
    assert_eq!(
        [t.bid1_p, t.bid1_q, t.bid5_p, t.bid5_q, t.ask1_p, t.ask1_q, t.ask5_p, t.ask5_q],
        [0; 8]
    );
}

fn agg(price: &str, qty: &str) -> AggTradeData {
    AggTradeData {
        event_ts: 1_700_000_000_123,
        trade_ts: 1_700_000_000_120,
        agg_trade_id: 987_654,
        price: price.to_string(),
        qty: qty.to_string(),
        is_buyer_maker: true,
    }
}

#[test]
fn trade_tick_copies_the_trade() {
    let a = agg("43210.01", "0.002");
    let p = a.price.parse::<f64>().ok().map(f64::to_bits);
    let q = a.qty.parse::<f64>().ok().map(f64::to_bits);
    let t = trade_tick(11, &a, p, q).unwrap();
    assert_eq!(
        t,
        TradeTick {
            recv_ts_us: 11,
            event_ts_ms: 1_700_000_000_123,
            trade_ts_ms: 1_700_000_000_120,
            agg_trade_id: 987_654,
            price: 43210.01f64.to_bits(),
            qty: 0.002f64.to_bits(),
            is_buyer_maker: true,
        }
    );
}

#[test]
fn trade_tick_errors() {
    let a = agg("x", "y");
    assert_eq!(trade_tick(1, &a, None, None), Err(TickError::Price));
    assert_eq!(trade_tick(1, &a, None, Some(1)), Err(TickError::Price));
    assert_eq!(trade_tick(1, &a, Some(1), None), Err(TickError::Qty));
}

#[test]
fn ws_frames() {
    assert_eq!(ws_action(WsFrame::Text("{}".to_string())), WsAction::Handle("{}".to_string()));
    assert_eq!(ws_action(WsFrame::Ping(vec![1, 2, 3])), WsAction::Pong(vec![1, 2, 3]));
    assert_eq!(ws_action(WsFrame::Close), WsAction::Stop);
    assert_eq!(ws_action(WsFrame::Binary(vec![9])), WsAction::Ignore);
    assert_eq!(ws_action(WsFrame::Pong(vec![])), WsAction::Ignore);
    assert_eq!(ws_action(WsFrame::Other), WsAction::Ignore);
}
