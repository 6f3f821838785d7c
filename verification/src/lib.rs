//! Per-service statistics over JSON log lines: counting entries, error and
//! fatal levels and latency, merging partial results computed in parallel,
//! and ordering the rows of the final report.

pub mod batching;
pub mod log_event;
pub mod order;
pub mod report;
pub mod service_laws;
pub mod service_stats;
pub mod tally;

pub use batching::{
    progress_due, LineBatcher, ReadAction, ReadOutcome, StatsBatcher, FLUSH_EVERY, PROGRESS_EVERY,
};
pub use log_event::{LogEvent, LogStats, Timestamp};
pub use order::{sort_names, str_lt};
pub use report::{checked_total, make_report, Report};
pub use service_stats::{document_log_event, ServiceStats};
