//! The record assembler: one parsed log line, built by running the six
//! peelers in the fixed CLF field order.

use vstd::prelude::*;
use crate::error::LogEntryParseError;
use crate::ip::IpAddr;
use crate::peel::{
    peel_ip, peel_quoted_string, peel_status_code, peel_string, peel_timestamp, peel_usize,
    spec_peel_ip, spec_peel_quoted_string, spec_peel_status_code, spec_peel_string,
    spec_peel_timestamp, spec_peel_usize,
};
use crate::status::StatusCode;
use crate::timestamp::Timestamp;

verus! {

/// A single line in Common Log Format.
///
/// Any field could be missing, which is indicated with a dash (`-`) in
/// the source text. Build instances with [`LogEntry::parse`] (also
/// reachable through `str::parse`).
#[derive(Debug, Clone, PartialEq)]
pub struct LogEntry {
    pub host: Option<IpAddr>,
    pub ident: Option<String>,
    pub authuser: Option<String>,
    pub time: Option<Timestamp>,
    pub request_line: Option<String>,
    pub status_code: Option<StatusCode>,
    pub object_size: Option<usize>,
}

/// The mathematical content of a [`LogEntry`]: its text fields as
/// character sequences.
#[verifier::ext_equal]
pub ghost struct LogEntryView {
    pub host: Option<IpAddr>,
    pub ident: Option<Seq<char>>,
    pub authuser: Option<Seq<char>>,
    pub time: Option<Timestamp>,
    pub request_line: Option<Seq<char>>,
    pub status_code: Option<StatusCode>,
    pub object_size: Option<usize>,
}

impl LogEntryView {
    /// A well-formed record holds only a valid status code, if any.
    pub open spec fn wf(self) -> bool {
        match self.status_code {
            Some(c) => c.is_valid(),
            None => true,
        }
    }
}

impl View for LogEntry {
    type V = LogEntryView;

    open spec fn view(&self) -> LogEntryView {
        LogEntryView {
            host: self.host,
            ident: match self.ident {
                Some(s) => Some(s@),
                None => None,
            },
            authuser: match self.authuser {
                Some(s) => Some(s@),
                None => None,
            },
            time: self.time,
            request_line: match self.request_line {
                Some(s) => Some(s@),
                None => None,
            },
            status_code: self.status_code,
            object_size: self.object_size,
        }
    }
}

/// What parsing a whole line yields: the six peelers run in the fixed
/// field order, the remainder threaded from one to the next, stopping at
/// the first failure; whatever remains after the size field is ignored.
pub open spec fn spec_parse(s: Seq<char>) -> Result<LogEntryView, LogEntryParseError> {
    match spec_peel_ip(s) {
        Err(e) => Err(e),
        Ok((host, r1)) => match spec_peel_string(r1) {
            Err(e) => Err(e),
            Ok((ident, r2)) => match spec_peel_string(r2) {
                Err(e) => Err(e),
                Ok((authuser, r3)) => match spec_peel_timestamp(r3) {
                    Err(e) => Err(e),
                    Ok((time, r4)) => match spec_peel_quoted_string(r4) {
                        Err(e) => Err(e),
                        Ok((request_line, r5)) => match spec_peel_status_code(r5) {
                            Err(e) => Err(e),
                            Ok((status_code, r6)) => match spec_peel_usize(r6) {
                                Err(e) => Err(e),
                                Ok((object_size, _r7)) => Ok(
                                    LogEntryView {
                                        host,
                                        ident,
                                        authuser,
                                        time,
                                        request_line,
                                        status_code,
                                        object_size,
                                    },
                                ),
                            },
                        },
                    },
                },
            },
        },
    }
}

/// Every record that a line parses to is well-formed.
pub proof fn lemma_spec_parse_wf(s: Seq<char>)
    ensures
        spec_parse(s) matches Ok(v) ==> v.wf(),
{
}

impl LogEntry {
    /// Parse one line of Common Log Format.
    ///
    /// Succeeds exactly when every field parses in order; the first
    /// failing field decides the error. Text remaining after the size
    /// field is ignored.
    pub fn parse(line: &str) -> (r: Result<LogEntry, LogEntryParseError>)
        ensures
            (r is Ok) == (spec_parse(line@) is Ok),
            r is Ok ==> r->Ok_0@ == spec_parse(line@)->Ok_0,
            r is Err ==> r->Err_0 == spec_parse(line@)->Err_0,
    {
        let (host, rem) = match peel_ip(line) {
            Ok(p) => p,
            Err(e) => {
                return Err(e);
            },
        };
        let (ident, rem) = match peel_string(rem) {
            Ok(p) => p,
            Err(e) => {
                return Err(e);
            },
        };
        let (authuser, rem) = match peel_string(rem) {
            Ok(p) => p,
            Err(e) => {
                return Err(e);
            },
        };
        let (time, rem) = match peel_timestamp(rem) {
            Ok(p) => p,
            Err(e) => {
                return Err(e);
            },
        };
        let (request_line, rem) = match peel_quoted_string(rem) {
            Ok(p) => p,
            Err(e) => {
                return Err(e);
            },
        };
        let (status_code, rem) = match peel_status_code(rem) {
            Ok(p) => p,
            Err(e) => {
                return Err(e);
            },
        };
        let (object_size, _rem) = match peel_usize(rem) {
            Ok(p) => p,
            Err(e) => {
                return Err(e);
            },
        };
        let entry = LogEntry {
            host,
            ident: match ident {
                Some(s) => Some(s.to_owned()),
                None => None,
            },
            authuser: match authuser {
                Some(s) => Some(s.to_owned()),
                None => None,
            },
            time,
            request_line: match request_line {
                Some(s) => Some(s.to_owned()),
                None => None,
            },
            status_code,
            object_size,
        };
        proof {
            assert(entry@ =~= spec_parse(line@)->Ok_0);
        }
        Ok(entry)
    }
}

impl core::str::FromStr for LogEntry {
    type Err = LogEntryParseError;

    fn from_str(line: &str) -> Result<LogEntry, LogEntryParseError> {
        LogEntry::parse(line)
    }
}

} // verus!
