//! The capability every sink implements: accept records one at a time or in
//! batches, flush, answer queries, and expose an optional level.

use vstd::prelude::*;

use crate::log_query::{LogQuery, LogRecord};

verus! {

/// A destination for log records. `log` must never fail the producer; any
/// error it meets is the transport's own concern. `flush` and `query` are
/// the fallible, possibly blocking operations.
pub trait Transport {
    /// Accept one record.
    fn log(&self, info: LogRecord);

    /// Accept a contiguous run of records; by default one `log` per record,
    /// in order.
    fn log_batch(&self, logs: Vec<LogRecord>) {
        let mut rest = logs;
        while rest.len() > 0
            decreases rest.len(),
        {
            let info = rest.remove(0);
            self.log(info);
        }
    }

    /// Force buffered state to the underlying medium; trivially successful
    /// by default.
    fn flush(&self) -> (r: Result<(), String>)
        default_ensures
            r is Ok,
    {
        Ok(())
    }

    /// The transport's level threshold; none by default.
    fn get_level(&self) -> (r: Option<&String>)
        default_ensures
            r is None,
    {
        None
    }

    /// The records matching a query; the default returns the empty list for
    /// every query.
    fn query(&self, options: &LogQuery) -> (r: Result<Vec<LogRecord>, String>)
        default_ensures
            r matches Ok(v) && v@.len() == 0,
    {
        let _ = options;
        Ok(Vec::new())
    }
}

} // verus!
