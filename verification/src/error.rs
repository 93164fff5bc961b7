//! The closed set of ways a log line can fail to parse.

use vstd::prelude::*;

verus! {

/// An error parsing a log entry.
///
/// Each variant is terminal for the line being parsed: the first field
/// that fails aborts the whole parse and its error is returned unchanged.
#[derive(Debug, Clone, Copy, PartialEq, Eq, Structural)]
pub enum LogEntryParseError {
    /// A required delimiter or terminator was missing or malformed, and
    /// the field was not explicitly marked absent with `-`.
    FieldNotFound,
    /// The host field was bounded correctly but is not a textual IP address.
    IpAddrParse,
    /// The bracketed timestamp was bounded correctly but is not a valid
    /// RFC 3339 date-and-time.
    DateTimeParse,
    /// The status field is not an integer in the valid HTTP status range.
    StatusCodeParse,
    /// The size field is not a non-negative integer.
    SizeParse,
}

impl LogEntryParseError {
    /// A short human-readable description of the error kind.
    pub fn describe(&self) -> (r: &'static str)
        ensures
            r@.len() > 0,
    {
        proof {
            reveal_strlit("error parsing log entry");
        }
        "error parsing log entry"
    }
}

} // verus!
