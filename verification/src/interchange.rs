//! The interchange form of a record: every field maps structurally,
//! except that the status code travels as a plain integer. Reading the
//! integer back is lenient: one outside the valid HTTP status range
//! becomes an absent status, not an error.

use vstd::prelude::*;
use crate::entry::{LogEntry, LogEntryView};
use crate::ip::IpAddr;
use crate::status::{spec_status_from_u16, StatusCode};
use crate::timestamp::Timestamp;

verus! {

/// A record in interchange form: as [`LogEntry`], with the status code
/// as a plain integer.
#[derive(Debug, Clone, PartialEq)]
pub struct LogEntryData {
    pub host: Option<IpAddr>,
    pub ident: Option<String>,
    pub authuser: Option<String>,
    pub time: Option<Timestamp>,
    pub request_line: Option<String>,
    pub status_code: Option<u16>,
    pub object_size: Option<usize>,
}

/// The mathematical content of a [`LogEntryData`].
#[verifier::ext_equal]
pub ghost struct LogEntryDataView {
    pub host: Option<IpAddr>,
    pub ident: Option<Seq<char>>,
    pub authuser: Option<Seq<char>>,
    pub time: Option<Timestamp>,
    pub request_line: Option<Seq<char>>,
    pub status_code: Option<u16>,
    pub object_size: Option<usize>,
}

impl View for LogEntryData {
    type V = LogEntryDataView;

    open spec fn view(&self) -> LogEntryDataView {
        LogEntryDataView {
            host: self.host,
            ident: match self.ident {
                Some(s) => Some(s@),
                None => None,
            },
            authuser: match self.authuser {
                Some(s) => Some(s@),
                None => None,
            },
            time: self.time,
            request_line: match self.request_line {
                Some(s) => Some(s@),
                None => None,
            },
            status_code: self.status_code,
            object_size: self.object_size,
        }
    }
}

/// Writing a record to the interchange form: structural, with the
/// status code as its integer.
pub open spec fn spec_to_interchange(v: LogEntryView) -> LogEntryDataView {
    LogEntryDataView {
        host: v.host,
        ident: v.ident,
        authuser: v.authuser,
        time: v.time,
        request_line: v.request_line,
        status_code: match v.status_code {
            Some(c) => Some(c.code),
            None => None,
        },
        object_size: v.object_size,
    }
}

/// Reading a record from the interchange form: structural, with an
/// integer outside the valid HTTP status range read as an absent
/// status.
pub open spec fn spec_from_interchange(d: LogEntryDataView) -> LogEntryView {
    LogEntryView {
        host: d.host,
        ident: d.ident,
        authuser: d.authuser,
        time: d.time,
        request_line: d.request_line,
        status_code: match d.status_code {
            Some(n) => spec_status_from_u16(n),
            None => None,
        },
        object_size: d.object_size,
    }
}

/// Write `entry` to the interchange form.
pub fn to_interchange(entry: &LogEntry) -> (d: LogEntryData)
    ensures
        d@ == spec_to_interchange(entry@),
{
    let d = LogEntryData {
        host: entry.host,
        ident: match &entry.ident {
            Some(s) => Some(s.clone()),
            None => None,
        },
        authuser: match &entry.authuser {
            Some(s) => Some(s.clone()),
            None => None,
        },
        time: entry.time,
        request_line: match &entry.request_line {
            Some(s) => Some(s.clone()),
            None => None,
        },
        status_code: match entry.status_code {
            Some(c) => Some(c.as_u16()),
            None => None,
        },
        object_size: entry.object_size,
    };
    proof {
        assert(d@ =~= spec_to_interchange(entry@));
    }
    d
}

/// Read a record back from the interchange form.
pub fn from_interchange(data: LogEntryData) -> (entry: LogEntry)
    ensures
        entry@ == spec_from_interchange(data@),
{
    let entry = LogEntry {
        host: data.host,
        ident: data.ident,
        authuser: data.authuser,
        time: data.time,
        request_line: data.request_line,
        status_code: match data.status_code {
            Some(n) => StatusCode::from_u16(n),
            None => None,
        },
        object_size: data.object_size,
    };
    proof {
        assert(entry@ =~= spec_from_interchange(data@));
    }
    entry
}

/// Interchange round trip: writing a well-formed record and reading it
/// back yields an equal record; absence of any field is kept losslessly.
pub proof fn lemma_interchange_round_trip(v: LogEntryView)
    requires
        v.wf(),
    ensures
        spec_from_interchange(spec_to_interchange(v)) == v,
{
    assert(spec_from_interchange(spec_to_interchange(v)) =~= v);
}

/// Every record that a line parses to survives the interchange round
/// trip unchanged.
pub proof fn lemma_parse_interchange_round_trip(s: Seq<char>)
    requires
        crate::entry::spec_parse(s) is Ok,
    ensures
        spec_from_interchange(spec_to_interchange(crate::entry::spec_parse(s)->Ok_0))
            == crate::entry::spec_parse(s)->Ok_0,
{
    crate::entry::lemma_spec_parse_wf(s);
    lemma_interchange_round_trip(crate::entry::spec_parse(s)->Ok_0);
}

} // verus!
