//! The buffering policy of the CSV writer, as a state machine.
//!
//! The writer task receives depth and trade ticks on two channels and a
//! periodic flush tick. Ticks are buffered per stream; a buffer is written
//! out when it reaches `FLUSH_THRESHOLD` rows, on every flush tick when it is
//! not empty, and once more when both channels have closed. Rows go to
//! date-partitioned files `data/<stream>_tick_<YYYYMMDD>.csv`.
use vstd::prelude::*;
use vstd::string::*;

use crate::models::{DepthTick, TradeTick};

verus! {

/// Seconds between two periodic flushes.
pub const FLUSH_INTERVAL_SECS: u64 = 5;

/// A buffer that reaches this many rows is written out at once.
pub const FLUSH_THRESHOLD: usize = 500;

/// The two files the writer appends to.
#[derive(Clone, Copy, Debug, PartialEq, Eq, Structural)]
pub enum TickFile {
    Depth,
    Trades,
}

/// The name of the file that holds the rows of `kind` for the UTC day
/// `date` (written `YYYYMMDD`).
pub open spec fn tick_file_name_of(kind: TickFile, date: Seq<char>) -> Seq<char> {
    match kind {
        TickFile::Depth => "depth5_tick_"@ + date + ".csv"@,
        TickFile::Trades => "trades_tick_"@ + date + ".csv"@,
    }
}

/// The directory the collector writes to.
pub open spec fn data_dir_text() -> Seq<char> {
    "data/"@
}

/// `<stream>_tick_<date>.csv`.
pub fn tick_file_name(kind: TickFile, date: &str) -> (name: String)
    ensures
        name@ == tick_file_name_of(kind, date@),
{
    let mut name = match kind {
        TickFile::Depth => "depth5_tick_".to_owned(),
        TickFile::Trades => "trades_tick_".to_owned(),
    };
    name.append(date);
    name.append(".csv");
    name
}

/// `data/<stream>_tick_<date>.csv`: where a flush of `kind` on day `date` goes.
pub fn tick_file_path(kind: TickFile, date: &str) -> (path: String)
    ensures
        path@ == data_dir_text() + tick_file_name_of(kind, date@),
{
    let mut path = "data/".to_owned();
    let name = tick_file_name(kind, date);
    path.append(name.as_str());
    path
}

/// What the writer task waits for.
#[derive(Clone, Copy, Debug, PartialEq, Eq, Structural)]
pub enum WriterEvent {
    /// The periodic flush timer fired.
    FlushTick,
    /// The depth channel yielded a tick, or `None` once it has closed.
    Depth(Option<DepthTick>),
    /// The trade channel yielded a tick, or `None` once it has closed.
    Trade(Option<TradeTick>),
}

/// Batches to append to the files now, depth rows first. `None` means that
/// nothing is written to that file.
#[derive(Clone, Debug, PartialEq, Eq)]
pub struct Flush {
    pub depth: Option<Vec<DepthTick>>,
    pub trades: Option<Vec<TradeTick>>,
}

pub struct FlushModel {
    pub depth: Option<Seq<DepthTick>>,
    pub trades: Option<Seq<TradeTick>>,
}

pub open spec fn opt_seq<T>(o: Option<Vec<T>>) -> Option<Seq<T>> {
    match o {
        Some(v) => Some(v@),
        None => None,
    }
}

impl View for Flush {
    type V = FlushModel;

    open spec fn view(&self) -> FlushModel {
        FlushModel { depth: opt_seq(self.depth), trades: opt_seq(self.trades) }
    }
}

/// The state of the writer task.
pub struct Writer {
    depth_buf: Vec<DepthTick>,
    trade_buf: Vec<TradeTick>,
    depth_closed: bool,
    trade_closed: bool,
    total_depth: u64,
    total_trades: u64,
}

pub struct WriterModel {
    pub depth_buf: Seq<DepthTick>,
    pub trade_buf: Seq<TradeTick>,
    pub depth_closed: bool,
    pub trade_closed: bool,
    pub total_depth: int,
    pub total_trades: int,
}

impl View for Writer {
    type V = WriterModel;

    closed spec fn view(&self) -> WriterModel {
        WriterModel {
            depth_buf: self.depth_buf@,
            trade_buf: self.trade_buf@,
            depth_closed: self.depth_closed,
            trade_closed: self.trade_closed,
            total_depth: self.total_depth as int,
            total_trades: self.total_trades as int,
        }
    }
}

/// A buffer's contents as a batch to write: `None` when it is empty.
pub open spec fn batch_of<T>(buf: Seq<T>) -> Option<Seq<T>> {
    if buf.len() > 0 {
        Some(buf)
    } else {
        None
    }
}

/// Buffers stay below the threshold between events.
pub open spec fn writer_wf(m: WriterModel) -> bool {
    &&& m.depth_buf.len() < FLUSH_THRESHOLD
    &&& m.trade_buf.len() < FLUSH_THRESHOLD
    &&& 0 <= m.total_depth <= u64::MAX
    &&& 0 <= m.total_trades <= u64::MAX
}

pub open spec fn writer_initial() -> WriterModel {
    WriterModel {
        depth_buf: Seq::empty(),
        trade_buf: Seq::empty(),
        depth_closed: false,
        trade_closed: false,
        total_depth: 0,
        total_trades: 0,
    }
}

/// How the writer reacts to one event: the next state and what is written.
pub open spec fn writer_next(m: WriterModel, e: WriterEvent) -> (WriterModel, FlushModel) {
    match e {
        WriterEvent::FlushTick => (
            WriterModel { depth_buf: Seq::empty(), trade_buf: Seq::empty(), ..m },
            FlushModel { depth: batch_of(m.depth_buf), trades: batch_of(m.trade_buf) },
        ),
        WriterEvent::Depth(Some(t)) => {
            let buf = m.depth_buf.push(t);
            let total = m.total_depth + 1;
            if buf.len() >= FLUSH_THRESHOLD {
                (
                    WriterModel { depth_buf: Seq::empty(), total_depth: total, ..m },
                    FlushModel { depth: Some(buf), trades: None },
                )
            } else {
                (
                    WriterModel { depth_buf: buf, total_depth: total, ..m },
                    FlushModel { depth: None, trades: None },
                )
            }
        },
        WriterEvent::Depth(None) => (
            WriterModel { depth_closed: true, ..m },
            FlushModel { depth: None, trades: None },
        ),
        WriterEvent::Trade(Some(t)) => {
            let buf = m.trade_buf.push(t);
            let total = m.total_trades + 1;
            if buf.len() >= FLUSH_THRESHOLD {
                (
                    WriterModel { trade_buf: Seq::empty(), total_trades: total, ..m },
                    FlushModel { depth: None, trades: Some(buf) },
                )
            } else {
                (
                    WriterModel { trade_buf: buf, total_trades: total, ..m },
                    FlushModel { depth: None, trades: None },
                )
            }
        },
        WriterEvent::Trade(None) => (
            WriterModel { trade_closed: true, ..m },
            FlushModel { depth: None, trades: None },
        ),
    }
}

/// What is written when the task ends: whatever is still buffered.
pub open spec fn writer_final(m: WriterModel) -> FlushModel {
    FlushModel { depth: batch_of(m.depth_buf), trades: batch_of(m.trade_buf) }
}

/// The events that the task can still see: a tick from a channel that has
/// not closed, whose counter can still grow, or a flush tick.
pub open spec fn writer_accepts(m: WriterModel, e: WriterEvent) -> bool {
    match e {
        WriterEvent::FlushTick => true,
        WriterEvent::Depth(_) => !m.depth_closed && m.total_depth < u64::MAX,
        WriterEvent::Trade(_) => !m.trade_closed && m.total_trades < u64::MAX,
    }
}

/// The depth rows that an event brings.
pub open spec fn depth_in(e: WriterEvent) -> Seq<DepthTick> {
    match e {
        WriterEvent::Depth(Some(t)) => seq![t],
        _ => Seq::empty(),
    }
}

/// The trade rows that an event brings.
pub open spec fn trades_in(e: WriterEvent) -> Seq<TradeTick> {
    match e {
        WriterEvent::Trade(Some(t)) => seq![t],
        _ => Seq::empty(),
    }
}

pub open spec fn rows_of<T>(batch: Option<Seq<T>>) -> Seq<T> {
    match batch {
        Some(rows) => rows,
        None => Seq::empty(),
    }
}

/// The writer's reaction to a sequence of events, one after the other.
pub open spec fn writer_run(m: WriterModel, events: Seq<WriterEvent>) -> (WriterModel, Seq<FlushModel>)
    decreases events.len(),
{
    if events.len() == 0 {
        (m, Seq::empty())
    } else {
        let (m1, out) = writer_next(m, events[0]);
        let (last, outs) = writer_run(m1, events.drop_first());
        (last, seq![out] + outs)
    }
}

/// The events are ones the task can see, one after the other.
pub open spec fn writer_run_accepts(m: WriterModel, events: Seq<WriterEvent>) -> bool
    decreases events.len(),
{
    events.len() == 0 || (writer_accepts(m, events[0]) && writer_run_accepts(
        writer_next(m, events[0]).0,
        events.drop_first(),
    ))
}

/// All depth rows received over a sequence of events, in order.
pub open spec fn depth_received(events: Seq<WriterEvent>) -> Seq<DepthTick>
    decreases events.len(),
{
    if events.len() == 0 {
        Seq::empty()
    } else {
        depth_in(events[0]) + depth_received(events.drop_first())
    }
}

/// All trade rows received over a sequence of events, in order.
pub open spec fn trades_received(events: Seq<WriterEvent>) -> Seq<TradeTick>
    decreases events.len(),
{
    if events.len() == 0 {
        Seq::empty()
    } else {
        trades_in(events[0]) + trades_received(events.drop_first())
    }
}

/// All depth rows written by a sequence of flushes, in order.
pub open spec fn depth_written(outs: Seq<FlushModel>) -> Seq<DepthTick>
    decreases outs.len(),
{
    if outs.len() == 0 {
        Seq::empty()
    } else {
        rows_of(outs[0].depth) + depth_written(outs.drop_first())
    }
}

/// All trade rows written by a sequence of flushes, in order.
pub open spec fn trades_written(outs: Seq<FlushModel>) -> Seq<TradeTick>
    decreases outs.len(),
{
    if outs.len() == 0 {
        Seq::empty()
    } else {
        rows_of(outs[0].trades) + trades_written(outs.drop_first())
    }
}

/// No flush writes an empty batch.
pub open spec fn no_empty_batch(out: FlushModel) -> bool {
    &&& (out.depth matches Some(rows) ==> rows.len() > 0)
    &&& (out.trades matches Some(rows) ==> rows.len() > 0)
}

/// One event keeps the buffers below the threshold, writes no empty batch,
/// loses and duplicates no row (what was buffered, then what came in, is
/// what is written, then what stays buffered), and counts each row received.
pub proof fn lemma_writer_step(m: WriterModel, e: WriterEvent)
    requires
        writer_wf(m),
        writer_accepts(m, e),
    ensures
        ({
            let (m1, out) = writer_next(m, e);
            &&& writer_wf(m1)
            &&& no_empty_batch(out)
            &&& m.depth_buf + depth_in(e) == rows_of(out.depth) + m1.depth_buf
            &&& m.trade_buf + trades_in(e) == rows_of(out.trades) + m1.trade_buf
            &&& m1.total_depth == m.total_depth + depth_in(e).len()
            &&& m1.total_trades == m.total_trades + trades_in(e).len()
        }),
{
    let (m1, out) = writer_next(m, e);
    assert(m.depth_buf + depth_in(e) =~= rows_of(out.depth) + m1.depth_buf);
    assert(m.trade_buf + trades_in(e) =~= rows_of(out.trades) + m1.trade_buf);
}

/// Over any run of events the task can see, every row received is written
/// exactly once and in order, or is still buffered: buffered-before followed
/// by received equals written followed by buffered-after. The counters grow
/// by the number of rows received, and no empty batch is ever written.
pub proof fn lemma_writer_run(m: WriterModel, events: Seq<WriterEvent>)
    requires
        writer_wf(m),
        writer_run_accepts(m, events),
    ensures
        ({
            let (last, outs) = writer_run(m, events);
            &&& writer_wf(last)
            &&& m.depth_buf + depth_received(events) == depth_written(outs) + last.depth_buf
            &&& m.trade_buf + trades_received(events) == trades_written(outs) + last.trade_buf
            &&& last.total_depth == m.total_depth + depth_received(events).len()
            &&& last.total_trades == m.total_trades + trades_received(events).len()
            &&& forall|i: int| 0 <= i < outs.len() ==> no_empty_batch(#[trigger] outs[i])
        }),
    decreases events.len(),
{
    if events.len() == 0 {
        assert(m.depth_buf + depth_received(events) =~= m.depth_buf);
        assert(depth_written(Seq::<FlushModel>::empty()) + m.depth_buf =~= m.depth_buf);
        assert(m.trade_buf + trades_received(events) =~= m.trade_buf);
        assert(trades_written(Seq::<FlushModel>::empty()) + m.trade_buf =~= m.trade_buf);
    } else {
        let e = events[0];
        let rest = events.drop_first();
        let (m1, out) = writer_next(m, e);
        lemma_writer_step(m, e);
        lemma_writer_run(m1, rest);
        let (last, outs1) = writer_run(m1, rest);
        let outs = seq![out] + outs1;
        assert(outs.drop_first() =~= outs1);
        assert(outs[0] == out);
        assert(m.depth_buf + depth_received(events) =~= (m.depth_buf + depth_in(e))
            + depth_received(rest));
        assert(depth_written(outs) + last.depth_buf =~= rows_of(out.depth) + (depth_written(outs1)
            + last.depth_buf));
        assert(m.trade_buf + trades_received(events) =~= (m.trade_buf + trades_in(e))
            + trades_received(rest));
        assert(trades_written(outs) + last.trade_buf =~= rows_of(out.trades) + (trades_written(
            outs1,
        ) + last.trade_buf));
        assert forall|i: int| 0 <= i < outs.len() implies no_empty_batch(#[trigger] outs[i]) by {
            if i > 0 {
                assert(outs[i] == outs1[i - 1]);
            }
        }
    }
}

/// From a fresh writer, through any run of events the task can see and the
/// final flush, every row received is written exactly once and in order:
/// nothing is lost when the task ends.
pub proof fn lemma_writer_delivers_all(events: Seq<WriterEvent>)
    requires
        writer_run_accepts(writer_initial(), events),
    ensures
        ({
            let (last, outs) = writer_run(writer_initial(), events);
            let fin = writer_final(last);
            &&& depth_received(events) == depth_written(outs) + rows_of(fin.depth)
            &&& trades_received(events) == trades_written(outs) + rows_of(fin.trades)
            &&& no_empty_batch(fin)
        }),
{
    let m = writer_initial();
    lemma_writer_run(m, events);
    let (last, outs) = writer_run(m, events);
    assert(m.depth_buf + depth_received(events) =~= depth_received(events));
    assert(m.trade_buf + trades_received(events) =~= trades_received(events));
    assert(rows_of(writer_final(last).depth) =~= last.depth_buf);
    assert(rows_of(writer_final(last).trades) =~= last.trade_buf);
}

/// On a flush tick every non-empty buffer is written, whole and in order,
/// and both buffers are empty afterwards; nothing else changes.
pub proof fn lemma_flush_tick_writes_buffers(m: WriterModel)
    ensures
        ({
            let (m1, out) = writer_next(m, WriterEvent::FlushTick);
            &&& out.depth == if m.depth_buf.len() > 0 { Some(m.depth_buf) } else { None::<Seq<DepthTick>> }
            &&& out.trades == if m.trade_buf.len() > 0 { Some(m.trade_buf) } else { None::<Seq<TradeTick>> }
            &&& m1.depth_buf.len() == 0
            &&& m1.trade_buf.len() == 0
            &&& m1.depth_closed == m.depth_closed
            &&& m1.trade_closed == m.trade_closed
            &&& m1.total_depth == m.total_depth
            &&& m1.total_trades == m.total_trades
        }),
{
}

/// A depth row is counted and buffered; when the buffer then holds 500 rows
/// they are all written, in order, and the buffer is emptied. The trade side
/// is untouched and nothing else is written.
pub proof fn lemma_depth_row_buffered(m: WriterModel, t: DepthTick)
    ensures
        ({
            let (m1, out) = writer_next(m, WriterEvent::Depth(Some(t)));
            &&& m1.total_depth == m.total_depth + 1
            &&& if m.depth_buf.len() + 1 >= 500 {
                out.depth == Some(m.depth_buf.push(t)) && m1.depth_buf.len() == 0
            } else {
                out.depth is None && m1.depth_buf == m.depth_buf.push(t)
            }
            &&& out.trades is None
            &&& m1.trade_buf == m.trade_buf
            &&& m1.total_trades == m.total_trades
            &&& m1.depth_closed == m.depth_closed
            &&& m1.trade_closed == m.trade_closed
        }),
{
}

/// A trade row is counted and buffered; when the buffer then holds 500 rows
/// they are all written, in order, and the buffer is emptied. The depth side
/// is untouched and nothing else is written.
pub proof fn lemma_trade_row_buffered(m: WriterModel, t: TradeTick)
    ensures
        ({
            let (m1, out) = writer_next(m, WriterEvent::Trade(Some(t)));
            &&& m1.total_trades == m.total_trades + 1
            &&& if m.trade_buf.len() + 1 >= 500 {
                out.trades == Some(m.trade_buf.push(t)) && m1.trade_buf.len() == 0
            } else {
                out.trades is None && m1.trade_buf == m.trade_buf.push(t)
            }
            &&& out.depth is None
            &&& m1.depth_buf == m.depth_buf
            &&& m1.total_depth == m.total_depth
            &&& m1.depth_closed == m.depth_closed
            &&& m1.trade_closed == m.trade_closed
        }),
{
}

/// A closed channel only marks its side closed: nothing is written, no row
/// is dropped and no counter moves.
pub proof fn lemma_channel_close(m: WriterModel)
    ensures
        ({
            let (m1, out) = writer_next(m, WriterEvent::Depth(None));
            &&& m1.depth_closed && m1.trade_closed == m.trade_closed
            &&& m1.depth_buf == m.depth_buf && m1.trade_buf == m.trade_buf
            &&& m1.total_depth == m.total_depth && m1.total_trades == m.total_trades
            &&& out.depth is None && out.trades is None
        }),
        ({
            let (m1, out) = writer_next(m, WriterEvent::Trade(None));
            &&& m1.trade_closed && m1.depth_closed == m.depth_closed
            &&& m1.depth_buf == m.depth_buf && m1.trade_buf == m.trade_buf
            &&& m1.total_depth == m.total_depth && m1.total_trades == m.total_trades
            &&& out.depth is None && out.trades is None
        }),
{
}

/// When the task ends every non-empty buffer is written, whole.
pub proof fn lemma_final_flush(m: WriterModel)
    ensures
        writer_final(m).depth == if m.depth_buf.len() > 0 { Some(m.depth_buf) } else { None::<Seq<DepthTick>> },
        writer_final(m).trades == if m.trade_buf.len() > 0 { Some(m.trade_buf) } else { None::<Seq<TradeTick>> },
{
}

/// A new writer has empty buffers, both channels open and zero counts.
pub proof fn lemma_writer_starts_empty()
    ensures
        writer_initial().depth_buf.len() == 0,
        writer_initial().trade_buf.len() == 0,
        !writer_initial().depth_closed,
        !writer_initial().trade_closed,
        writer_initial().total_depth == 0,
        writer_initial().total_trades == 0,
        FLUSH_THRESHOLD == 500,
        FLUSH_INTERVAL_SECS == 5,
{
}

impl Writer {
    pub open spec fn wf(&self) -> bool {
        writer_wf(self@)
    }

    /// A writer with empty buffers and both channels open.
    pub fn new() -> (w: Writer)
        ensures
            w@ == writer_initial(),
            w.wf(),
    {
        Writer {
            depth_buf: Vec::with_capacity(FLUSH_THRESHOLD),
            trade_buf: Vec::with_capacity(FLUSH_THRESHOLD),
            depth_closed: false,
            trade_closed: false,
            total_depth: 0,
            total_trades: 0,
        }
    }

    fn take_depth(&mut self) -> (batch: Option<Vec<DepthTick>>)
        ensures
            opt_seq(batch) == batch_of(old(self)@.depth_buf),
            final(self)@ == (WriterModel { depth_buf: Seq::empty(), ..old(self)@ }),
    {
        if self.depth_buf.len() == 0 {
            assert(self.depth_buf@ =~= Seq::<DepthTick>::empty());
            None
        } else {
            let mut batch: Vec<DepthTick> = Vec::new();
            std::mem::swap(&mut batch, &mut self.depth_buf);
            Some(batch)
        }
    }

    fn take_trades(&mut self) -> (batch: Option<Vec<TradeTick>>)
        ensures
            opt_seq(batch) == batch_of(old(self)@.trade_buf),
            final(self)@ == (WriterModel { trade_buf: Seq::empty(), ..old(self)@ }),
    {
        if self.trade_buf.len() == 0 {
            assert(self.trade_buf@ =~= Seq::<TradeTick>::empty());
            None
        } else {
            let mut batch: Vec<TradeTick> = Vec::new();
            std::mem::swap(&mut batch, &mut self.trade_buf);
            Some(batch)
        }
    }

    /// Reacts to one event and returns the batches to write now.
    pub fn step(&mut self, event: WriterEvent) -> (out: Flush)
        requires
            old(self).wf(),
            writer_accepts(old(self)@, event),
        ensures
            final(self).wf(),
            (final(self)@, out@) == writer_next(old(self)@, event),
    {
        match event {
            WriterEvent::FlushTick => {
                let depth = self.take_depth();
                let trades = self.take_trades();
                Flush { depth, trades }
            },
            WriterEvent::Depth(Some(t)) => {
                self.total_depth = self.total_depth + 1;
                self.depth_buf.push(t);
                if self.depth_buf.len() >= FLUSH_THRESHOLD {
                    let depth = self.take_depth();
                    Flush { depth, trades: None }
                } else {
                    Flush { depth: None, trades: None }
                }
            },
            WriterEvent::Depth(None) => {
                self.depth_closed = true;
                Flush { depth: None, trades: None }
            },
            WriterEvent::Trade(Some(t)) => {
                self.total_trades = self.total_trades + 1;
                self.trade_buf.push(t);
                if self.trade_buf.len() >= FLUSH_THRESHOLD {
                    let trades = self.take_trades();
                    Flush { depth: None, trades }
                } else {
                    Flush { depth: None, trades: None }
                }
            },
            WriterEvent::Trade(None) => {
                self.trade_closed = true;
                Flush { depth: None, trades: None }
            },
        }
    }

    /// Ends the task: returns what is still buffered.
    pub fn finish(self) -> (out: Flush)
        ensures
            out@ == writer_final(self@),
    {
        let mut w = self;
        let depth = w.take_depth();
        let trades = w.take_trades();
        Flush { depth, trades }
    }

    /// The task loops until both channels have closed.
    pub fn is_done(&self) -> (r: bool)
        ensures
            r == (self@.depth_closed && self@.trade_closed),
    {
        self.depth_closed && self.trade_closed
    }

    /// Whether the depth channel is still to be read.
    pub fn wants_depth(&self) -> (r: bool)
        ensures
            r == !self@.depth_closed,
    {
        !self.depth_closed
    }

    /// Whether the trade channel is still to be read.
    pub fn wants_trades(&self) -> (r: bool)
        ensures
            r == !self@.trade_closed,
    {
        !self.trade_closed
    }

    pub fn depth_buffered(&self) -> (n: usize)
        ensures
            n == self@.depth_buf.len(),
    {
        self.depth_buf.len()
    }

    pub fn trades_buffered(&self) -> (n: usize)
        ensures
            n == self@.trade_buf.len(),
    {
        self.trade_buf.len()
    }

    pub fn total_depth(&self) -> (n: u64)
        ensures
            n == self@.total_depth,
    {
        self.total_depth
    }

    pub fn total_trades(&self) -> (n: u64)
        ensures
            n == self@.total_trades,
    {
        self.total_trades
    }
}

} // verus!
