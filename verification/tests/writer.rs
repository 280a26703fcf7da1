use quant_2::models::{DepthTick, TradeTick};
use quant_2::writer::{tick_file_name, tick_file_path, TickFile, Writer, WriterEvent, FLUSH_THRESHOLD};

fn depth(i: u64) -> DepthTick {
    DepthTick {
        recv_ts_us: i as i64,
        last_update_id: i,
        bid1_p: 0, bid1_q: 0, bid2_p: 0, bid2_q: 0, bid3_p: 0, bid3_q: 0, bid4_p: 0, bid4_q: 0,
        bid5_p: 0, bid5_q: 0, ask1_p: 0, ask1_q: 0, ask2_p: 0, ask2_q: 0, ask3_p: 0, ask3_q: 0,
        ask4_p: 0, ask4_q: 0, ask5_p: 0, ask5_q: 0,
    }
}

fn trade(i: u64) -> TradeTick {
    TradeTick {
        recv_ts_us: i as i64,
        event_ts_ms: 0,
        trade_ts_ms: 0,
        agg_trade_id: i,
        price: 1,
        qty: 2,
        is_buyer_maker: i % 2 == 0,
    }
}

#[test]
fn buffer_flushes_at_threshold() {
    assert_eq!(FLUSH_THRESHOLD, 500);
    let mut w = Writer::new();
    for i in 0..499 {
        let out = w.step(WriterEvent::Depth(Some(depth(i))));
        assert_eq!(out.depth, None);
        assert_eq!(out.trades, None);
    }
    assert_eq!(w.depth_buffered(), 499);
    let out = w.step(WriterEvent::Depth(Some(depth(499))));
    let batch = out.depth.expect("a full buffer is written");
    assert_eq!(batch.len(), 500);
    assert!(batch.iter().enumerate().all(|(i, t)| t.last_update_id == i as u64));
    assert_eq!(out.trades, None);
    assert_eq!(w.depth_buffered(), 0);
    assert_eq!(w.total_depth(), 500);
}

#[test]
fn flush_tick_writes_both_non_empty_buffers() {
    let mut w = Writer::new();
    let out = w.step(WriterEvent::FlushTick);
    assert_eq!((out.depth, out.trades), (None, None));
    w.step(WriterEvent::Trade(Some(trade(1))));
    w.step(WriterEvent::Trade(Some(trade(2))));
    let out = w.step(WriterEvent::FlushTick);
    assert_eq!(out.depth, None);
    assert_eq!(out.trades, Some(vec![trade(1), trade(2)]));
    w.step(WriterEvent::Depth(Some(depth(3))));
    w.step(WriterEvent::Trade(Some(trade(4))));
    let out = w.step(WriterEvent::FlushTick);
    assert_eq!(out.depth, Some(vec![depth(3)]));
    assert_eq!(out.trades, Some(vec![trade(4)]));
    assert_eq!(w.total_trades(), 3);
    assert_eq!(w.total_depth(), 1);
}

#[test]
fn closing_both_channels_ends_with_a_final_flush() {
    let mut w = Writer::new();
    w.step(WriterEvent::Depth(Some(depth(1))));
    w.step(WriterEvent::Depth(None));
    assert!(!w.wants_depth());
    assert!(w.wants_trades());
    assert!(!w.is_done());
    w.step(WriterEvent::Trade(Some(trade(2))));
    w.step(WriterEvent::Trade(None));
    assert!(w.is_done());
    let out = w.finish();
    assert_eq!(out.depth, Some(vec![depth(1)]));
    assert_eq!(out.trades, Some(vec![trade(2)]));
}

#[test]
fn every_tick_is_written_once_in_order() {
    // A mixed run: 1234 depth ticks and 777 trades, flush ticks now and then.
    let mut w = Writer::new();
    let mut written_depth = Vec::new();
    let mut written_trades = Vec::new();
    let (mut d, mut t) = (0u64, 0u64);
    for step in 0..3000u64 {
        let event = if step % 97 == 0 {
            WriterEvent::FlushTick
        } else if step % 3 != 0 && d < 1234 {
            d += 1;
            WriterEvent::Depth(Some(depth(d)))
        } else if t < 777 {
            t += 1;
            WriterEvent::Trade(Some(trade(t)))
        } else {
            WriterEvent::FlushTick
        };
        let out = w.step(event);
        if let Some(b) = out.depth {
            assert!(!b.is_empty());
            written_depth.extend(b);
        }
        if let Some(b) = out.trades {
            assert!(!b.is_empty());
            written_trades.extend(b);
        }
        assert!(w.depth_buffered() < FLUSH_THRESHOLD && w.trades_buffered() < FLUSH_THRESHOLD);
    }
    w.step(WriterEvent::Depth(None));
    w.step(WriterEvent::Trade(None));
    let out = w.finish();
    written_depth.extend(out.depth.unwrap_or_default());
    written_trades.extend(out.trades.unwrap_or_default());
    assert_eq!(written_depth, (1..=1234).map(depth).collect::<Vec<_>>());
    assert_eq!(written_trades, (1..=777).map(trade).collect::<Vec<_>>());
}

#[test]
fn tick_file_names() {
    assert_eq!(tick_file_name(TickFile::Depth, "20240115"), "depth5_tick_20240115.csv");
    assert_eq!(tick_file_name(TickFile::Trades, "20240115"), "trades_tick_20240115.csv");
    assert_eq!(tick_file_path(TickFile::Depth, "20240115"), "data/depth5_tick_20240115.csv");
    assert_eq!(tick_file_path(TickFile::Trades, "20991231"), "data/trades_tick_20991231.csv");
}
