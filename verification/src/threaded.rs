//! The background-execution worker's decisions: each message maps to one
//! action on the wrapped sink. The host thread owns the channel, the sink
//! and the reply channels; it performs exactly the action decided here.

use vstd::prelude::*;

use crate::log_query::LogRecord;

verus! {

/// One message a producer sends to the worker.
pub enum ThreadedEvent {
    /// Fire-and-forget: write one record.
    Log(LogRecord),
    /// Flush the sink and send the result back.
    Flush,
    /// Run a query on the sink and send the result back.
    Query,
    /// Flush the sink and exit.
    Shutdown,
}

/// What the worker does with one message.
pub enum ThreadedAction {
    /// Call `log` on the sink with this record.
    SinkLog(LogRecord),
    /// Call `flush` on the sink and reply with its result.
    SinkFlushReply,
    /// Call `query` on the sink and reply with its result.
    SinkQueryReply,
    /// Call `flush` on the sink, discard the result, and stop.
    FlushAndExit,
}

/// The action an event maps to.
pub open spec fn spec_threaded_step(e: ThreadedEvent) -> ThreadedAction {
    match e {
        ThreadedEvent::Log(rec) => ThreadedAction::SinkLog(rec),
        ThreadedEvent::Flush => ThreadedAction::SinkFlushReply,
        ThreadedEvent::Query => ThreadedAction::SinkQueryReply,
        ThreadedEvent::Shutdown => ThreadedAction::FlushAndExit,
    }
}

/// Decide the worker's next action. Every record goes to the sink as it
/// arrives, so the sink sees records in channel order, and a flush or query
/// that the worker reaches has every earlier record already written.
pub fn threaded_step(e: ThreadedEvent) -> (a: ThreadedAction)
    ensures
        a == spec_threaded_step(e),
{
    match e {
        ThreadedEvent::Log(rec) => ThreadedAction::SinkLog(rec),
        ThreadedEvent::Flush => ThreadedAction::SinkFlushReply,
        ThreadedEvent::Query => ThreadedAction::SinkQueryReply,
        ThreadedEvent::Shutdown => ThreadedAction::FlushAndExit,
    }
}

/// The records a sequence of messages writes to the sink, in order.
pub open spec fn threaded_logged(events: Seq<ThreadedEvent>) -> Seq<LogRecord>
    decreases events.len(),
{
    if events.len() == 0 {
        Seq::empty()
    } else {
        match events.last() {
            ThreadedEvent::Log(rec) => threaded_logged(events.drop_last()).push(rec),
            _ => threaded_logged(events.drop_last()),
        }
    }
}

/// The sink calls a sequence of messages produces, in order.
pub open spec fn threaded_sunk(events: Seq<ThreadedEvent>) -> Seq<LogRecord>
    decreases events.len(),
{
    if events.len() == 0 {
        Seq::empty()
    } else {
        match spec_threaded_step(events.last()) {
            ThreadedAction::SinkLog(rec) => threaded_sunk(events.drop_last()).push(rec),
            _ => threaded_sunk(events.drop_last()),
        }
    }
}

/// The sink receives exactly the logged records, in logging order.
pub proof fn lemma_threaded_order(events: Seq<ThreadedEvent>)
    ensures
        threaded_sunk(events) =~= threaded_logged(events),
    decreases events.len(),
{
    if events.len() > 0 {
        lemma_threaded_order(events.drop_last());
    }
}

} // verus!
