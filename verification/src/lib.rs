//! Parsing for the Common Log Format (CLF): one text line per request,
//! with seven whitespace- and bracket-delimited fields, any of which may
//! be absent (written as `-`).
//!
//! The entry point is [`LogEntry::parse`]; the individual field peelers
//! (`peel_ip`, `peel_string`, `peel_quoted_string`, `peel_timestamp`,
//! `peel_status_code`, `peel_usize`) are also public so that callers can
//! consume fields one at a time.

pub mod entry;
pub mod error;
pub mod interchange;
pub mod ip;
pub mod laws;
pub mod numbers;
pub mod peel;
pub mod status;
pub mod text;
pub mod timestamp;

pub use entry::LogEntry;
pub use error::LogEntryParseError;
pub use interchange::{from_interchange, to_interchange, LogEntryData};
pub use ip::IpAddr;
pub use peel::{peel_ip, peel_quoted_string, peel_status_code, peel_string, peel_timestamp, peel_usize};
pub use status::StatusCode;
pub use timestamp::Timestamp;
