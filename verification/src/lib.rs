//! A composable log transport library: structured records move from producers
//! to sinks through wrappers that add batching, background execution, and a
//! retrospective query language.
//!
//! The decision logic — field-path extraction, comparator evaluation, the
//! predicate tree and its JSON surface form, query matching, the batching and
//! threading state machines, and line buffering — is verified. Host code
//! supplies the threads, channels and I/O around it.

pub mod batch;
pub mod comparator;
pub mod field_path;
pub mod json;
pub mod json_query;
pub mod line_buffer;
pub mod log_query;
pub mod query_node;
pub mod query_value;
pub mod regex_support;
pub mod strings;
pub mod threaded;
pub mod time;
pub mod transport;

pub use batch::BatchConfig;
pub use comparator::Comparator;
pub use field_path::FieldPath;
pub use field_path::PathSegment;
pub use json::JsonValue;
pub use json::SpecJson;
pub use log_query::LogQuery;
pub use log_query::LogRecord;
pub use log_query::Order;
pub use query_value::QueryValue;
pub use time::UtcInstant;
pub use transport::Transport;
