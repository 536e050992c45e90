//! The batching worker's decisions: when a batch is handed to the sink, what
//! it contains, and how long the worker may wait. The host thread owns the
//! channel and the sink; every decision it acts on comes from here.

use vstd::prelude::*;

use crate::log_query::LogRecord;

verus! {

/// Batch behaviour: flush when the buffer reaches `max_batch_size` records
/// or `max_batch_time` milliseconds after the last flush, whichever comes
/// first; `flush_on_drop` asks for a graceful shutdown on destruction.
#[derive(Debug, Clone, Copy)]
pub struct BatchConfig {
    /// Most records a batch may hold before it must be flushed.
    pub max_batch_size: usize,
    /// Longest time a partial batch may wait, in milliseconds.
    pub max_batch_time: u64,
    /// Whether destruction attempts a final flush.
    pub flush_on_drop: bool,
}

impl BatchConfig {
    /// A usable configuration: both triggers are positive.
    pub open spec fn well_formed(self) -> bool {
        self.max_batch_size > 0 && self.max_batch_time > 0
    }
}

impl Default for BatchConfig {
    /// A hundred records or half a second, flushing on drop.
    fn default() -> (r: BatchConfig)
        ensures
            r.max_batch_size == 100,
            r.max_batch_time == 500,
            r.flush_on_drop,
            r.well_formed(),
    {
        BatchConfig { max_batch_size: 100, max_batch_time: 500, flush_on_drop: true }
    }
}

/// One thing the worker reacts to: a record, an explicit flush or query
/// request, a shutdown request, an expired batch timer, or the loss of the
/// producer side.
pub enum BatchEvent {
    Log(LogRecord),
    Flush,
    Query,
    Shutdown,
    Timeout,
    Disconnect,
}

/// Whether an event forces the buffer out regardless of its size.
pub open spec fn is_trigger(e: BatchEvent) -> bool {
    !(e is Log)
}

/// The batch an event causes to be delivered to the sink, if any, given the
/// records buffered before it.
pub open spec fn step_delivery(buffer: Seq<LogRecord>, e: BatchEvent, cfg: BatchConfig) -> Option<
    Seq<LogRecord>,
> {
    match e {
        BatchEvent::Log(rec) => if buffer.len() + 1 >= cfg.max_batch_size {
            Some(buffer.push(rec))
        } else {
            None
        },
        _ => if buffer.len() > 0 {
            Some(buffer)
        } else {
            None
        },
    }
}

/// The records still buffered after an event.
pub open spec fn step_buffer(buffer: Seq<LogRecord>, e: BatchEvent, cfg: BatchConfig) -> Seq<
    LogRecord,
> {
    match e {
        BatchEvent::Log(rec) => if buffer.len() + 1 >= cfg.max_batch_size {
            Seq::empty()
        } else {
            buffer.push(rec)
        },
        _ => Seq::empty(),
    }
}

/// A worker's history: every batch handed to the sink, and what is still
/// buffered.
pub struct SpecWorker {
    pub delivered: Seq<Seq<LogRecord>>,
    pub buffer: Seq<LogRecord>,
}

pub open spec fn spec_step(w: SpecWorker, e: BatchEvent, cfg: BatchConfig) -> SpecWorker {
    SpecWorker {
        delivered: match step_delivery(w.buffer, e, cfg) {
            Some(b) => w.delivered.push(b),
            None => w.delivered,
        },
        buffer: step_buffer(w.buffer, e, cfg),
    }
}

/// The worker's history after a sequence of events, starting empty.
pub open spec fn spec_replay(events: Seq<BatchEvent>, cfg: BatchConfig) -> SpecWorker
    decreases events.len(),
{
    if events.len() == 0 {
        SpecWorker { delivered: Seq::empty(), buffer: Seq::empty() }
    } else {
        spec_step(spec_replay(events.drop_last(), cfg), events.last(), cfg)
    }
}

/// The records logged by a sequence of events, in order.
pub open spec fn logged(events: Seq<BatchEvent>) -> Seq<LogRecord>
    decreases events.len(),
{
    if events.len() == 0 {
        Seq::empty()
    } else {
        match events.last() {
            BatchEvent::Log(rec) => logged(events.drop_last()).push(rec),
            _ => logged(events.drop_last()),
        }
    }
}

/// How many events force a flush regardless of buffer size.
pub open spec fn trigger_count(events: Seq<BatchEvent>) -> int
    decreases events.len(),
{
    if events.len() == 0 {
        0
    } else {
        trigger_count(events.drop_last()) + if is_trigger(events.last()) {
            1int
        } else {
            0int
        }
    }
}

/// All delivered batches, flattened in delivery order.
pub open spec fn flatten_batches(batches: Seq<Seq<LogRecord>>) -> Seq<LogRecord>
    decreases batches.len(),
{
    if batches.len() == 0 {
        Seq::empty()
    } else {
        flatten_batches(batches.drop_last()) + batches.last()
    }
}

/// Records reach the sink exactly once and in enqueue order: after any run
/// of events, the delivered batches in order, followed by what is still
/// buffered, are precisely the records logged, in logging order.
pub proof fn lemma_delivery_in_order(events: Seq<BatchEvent>, cfg: BatchConfig)
    ensures
        flatten_batches(spec_replay(events, cfg).delivered) + spec_replay(events, cfg).buffer
            =~= logged(events),
    decreases events.len(),
{
    if events.len() > 0 {
        lemma_delivery_in_order(events.drop_last(), cfg);
        let w = spec_replay(events.drop_last(), cfg);
        match step_delivery(w.buffer, events.last(), cfg) {
            Some(b) => {
                assert(w.delivered.push(b).drop_last() =~= w.delivered);
                assert(w.delivered.push(b).last() == b);
                assert(flatten_batches(w.delivered.push(b)) =~= flatten_batches(w.delivered) + b);
            }
            None => {}
        }
    }
}

/// The flush barrier: an event that triggers a flush leaves nothing
/// buffered, so when the worker then answers the caller, every record
/// logged before the request has already been handed to the sink.
pub proof fn lemma_flush_barrier(events: Seq<BatchEvent>, cfg: BatchConfig)
    requires
        events.len() > 0,
        is_trigger(events.last()),
    ensures
        spec_replay(events, cfg).buffer.len() == 0,
        flatten_batches(spec_replay(events, cfg).delivered) =~= logged(events),
{
    lemma_delivery_in_order(events, cfg);
}

/// The batch-count bound: over any run, the number of sink deliveries times
/// the batch size never exceeds the number of records logged plus the batch
/// size for every forcing event. Dividing through, the worker calls the sink
/// at most once per full batch plus once per forcing event.
pub proof fn lemma_batch_count(events: Seq<BatchEvent>, cfg: BatchConfig)
    requires
        cfg.max_batch_size > 0,
    ensures
        spec_replay(events, cfg).delivered.len() * cfg.max_batch_size <= logged(events).len()
            + trigger_count(events) * cfg.max_batch_size,
    decreases events.len(),
{
    lemma_batch_count_strong(events, cfg);
}

/// Induction form of the batch-count bound, keeping the buffered records on
/// the ledger.
proof fn lemma_batch_count_strong(events: Seq<BatchEvent>, cfg: BatchConfig)
    requires
        cfg.max_batch_size > 0,
    ensures
        spec_replay(events, cfg).delivered.len() * cfg.max_batch_size + spec_replay(
            events,
            cfg,
        ).buffer.len() <= logged(events).len() + trigger_count(events) * cfg.max_batch_size,
        spec_replay(events, cfg).buffer.len() < cfg.max_batch_size,
    decreases events.len(),
{
    if events.len() > 0 {
        lemma_batch_count_strong(events.drop_last(), cfg);
        let w = spec_replay(events.drop_last(), cfg);
        let e = events.last();
        match e {
            BatchEvent::Log(_) => {
                if w.buffer.len() + 1 >= cfg.max_batch_size {
                    assert((w.delivered.len() + 1) * cfg.max_batch_size == w.delivered.len()
                        * cfg.max_batch_size + cfg.max_batch_size) by (nonlinear_arith);
                } else {
                }
            }
            _ => {
                assert((trigger_count(events.drop_last()) + 1) * cfg.max_batch_size
                    == trigger_count(events.drop_last()) * cfg.max_batch_size
                    + cfg.max_batch_size) by (nonlinear_arith);
                if w.buffer.len() > 0 {
                    assert((w.delivered.len() + 1) * cfg.max_batch_size == w.delivered.len()
                        * cfg.max_batch_size + cfg.max_batch_size) by (nonlinear_arith);
                }
            }
        }
    }
}

/// The worker's live state: the records accumulated since the last flush,
/// and when that flush happened, in host-clock milliseconds.
pub struct BatchWorker {
    pub batch: Vec<LogRecord>,
    pub last_flush: u64,
}

impl BatchWorker {
    /// A worker with an empty buffer whose timer starts now.
    pub fn new(now: u64) -> (r: BatchWorker)
        ensures
            r.batch@.len() == 0,
            r.last_flush == now,
    {
        BatchWorker { batch: Vec::new(), last_flush: now }
    }

    /// How long the host may wait for the next event: forever with nothing
    /// buffered, and never longer than the rest of the batch window
    /// otherwise.
    pub fn next_wait(&self, now: u64, cfg: &BatchConfig) -> (r: Option<u64>)
        ensures
            (r is None) == (self.batch@.len() == 0),
            self.batch@.len() > 0 ==> r->0 <= cfg.max_batch_time && r->0 == (
            if now >= self.last_flush && now - self.last_flush < cfg.max_batch_time {
                (cfg.max_batch_time - (now - self.last_flush)) as u64
            } else if now < self.last_flush {
                cfg.max_batch_time
            } else {
                0u64
            }),
    {
        if self.batch.len() == 0 {
            None
        } else if now < self.last_flush {
            Some(cfg.max_batch_time)
        } else {
            let elapsed = now - self.last_flush;
            if elapsed >= cfg.max_batch_time {
                Some(0)
            } else {
                Some(cfg.max_batch_time - elapsed)
            }
        }
    }

    /// Take in one record; a full buffer comes back as the batch to deliver.
    pub fn on_log(&mut self, rec: LogRecord, now: u64, cfg: &BatchConfig) -> (r: Option<
        Vec<LogRecord>,
    >)
        ensures
            match r {
                Some(b) => step_delivery(old(self).batch@, BatchEvent::Log(rec), *cfg) == Some(b@)
                    && final(self).last_flush == now,
                None => step_delivery(old(self).batch@, BatchEvent::Log(rec), *cfg) is None
                    && final(self).last_flush == old(self).last_flush,
            },
            final(self).batch@ == step_buffer(old(self).batch@, BatchEvent::Log(rec), *cfg),
    {
        self.batch.push(rec);
        if self.batch.len() >= cfg.max_batch_size {
            let mut out: Vec<LogRecord> = Vec::new();
            core::mem::swap(&mut out, &mut self.batch);
            self.last_flush = now;
            proof {
                assert(final(self).batch@ =~= Seq::<LogRecord>::empty());
            }
            Some(out)
        } else {
            None
        }
    }

    /// A forcing event: everything buffered comes back to be delivered.
    pub fn on_trigger(&mut self, now: u64) -> (r: Option<Vec<LogRecord>>)
        ensures
            match r {
                Some(b) => old(self).batch@.len() > 0 && b@ == old(self).batch@,
                None => old(self).batch@.len() == 0,
            },
            final(self).batch@.len() == 0,
            final(self).last_flush == now,
    {
        self.last_flush = now;
        if self.batch.len() == 0 {
            return None;
        }
        let mut out: Vec<LogRecord> = Vec::new();
        core::mem::swap(&mut out, &mut self.batch);
        proof {
            assert(final(self).batch@ =~= Seq::<LogRecord>::empty());
        }
        Some(out)
    }
}

} // verus!
