//! The field peelers: each consumes one field from the front of the
//! remaining input and returns the parsed value (or `None` for a field
//! written as `-`) together with the unconsumed remainder, with leading
//! whitespace stripped so that peelers chain. A bare field is bounded
//! by the next whitespace or the end of input — on empty input its
//! (empty) text is judged by the field's own parse — while the quoted
//! and bracketed fields need their delimiters.

use vstd::prelude::*;
use vstd::string::*;
use crate::error::LogEntryParseError;
use crate::ip::{spec_parse_ip, parse_ip, IpAddr};
use crate::numbers::{spec_parse_usize, parse_usize_text};
use crate::status::{valid_status, StatusCode};
use crate::text::{
    find_at, lemma_find_at, lemma_space_end, lemma_token_end, scan_find, scan_space_end,
    scan_token_end, strip_spaces, token_end,
};
use crate::timestamp::{spec_rfc3339_ts, parse_rfc3339_utc, Timestamp};

verus! {

/// The bare-token split of `s`: the text before the first whitespace,
/// and what follows that whitespace once leading whitespace is stripped.
pub open spec fn spec_token_split(s: Seq<char>) -> (Seq<char>, Seq<char>) {
    (s.take(token_end(s)), strip_spaces(s.skip(token_end(s))))
}

/// What peeling a bare text token from `s` yields.
pub open spec fn spec_peel_string(s: Seq<char>) -> Result<
    (Option<Seq<char>>, Seq<char>),
    LogEntryParseError,
> {
    let (tok, rem) = spec_token_split(s);
    if s.len() > 0 && s[0] == '-' {
        Ok((None, rem))
    } else {
        Ok((Some(tok), rem))
    }
}

/// What peeling the host field from `s` yields.
pub open spec fn spec_peel_ip(s: Seq<char>) -> Result<
    (Option<IpAddr>, Seq<char>),
    LogEntryParseError,
> {
    let (tok, rem) = spec_token_split(s);
    if s.len() > 0 && s[0] == '-' {
        Ok((None, rem))
    } else {
        match spec_parse_ip(tok) {
            Some(ip) => Ok((Some(ip), rem)),
            None => Err(LogEntryParseError::IpAddrParse),
        }
    }
}

/// What peeling the size field from `s` yields.
pub open spec fn spec_peel_usize(s: Seq<char>) -> Result<
    (Option<usize>, Seq<char>),
    LogEntryParseError,
> {
    let (tok, rem) = spec_token_split(s);
    if s.len() > 0 && s[0] == '-' {
        Ok((None, rem))
    } else {
        match spec_parse_usize(tok) {
            Some(v) => Ok((Some(v), rem)),
            None => Err(LogEntryParseError::SizeParse),
        }
    }
}

/// What peeling the status-code field from `s` yields: its token must be
/// an integer in the valid HTTP status range.
pub open spec fn spec_peel_status_code(s: Seq<char>) -> Result<
    (Option<StatusCode>, Seq<char>),
    LogEntryParseError,
> {
    let (tok, rem) = spec_token_split(s);
    if s.len() > 0 && s[0] == '-' {
        Ok((None, rem))
    } else {
        match spec_parse_usize(tok) {
            Some(v) => if valid_status(v as int) {
                Ok((Some(StatusCode { code: v as u16 }), rem))
            } else {
                Err(LogEntryParseError::StatusCodeParse)
            },
            None => Err(LogEntryParseError::StatusCodeParse),
        }
    }
}

/// What peeling the quoted request line from `s` yields: the text
/// between the opening `"` and the next `"`.
pub open spec fn spec_peel_quoted_string(s: Seq<char>) -> Result<
    (Option<Seq<char>>, Seq<char>),
    LogEntryParseError,
> {
    if s.len() == 0 {
        Err(LogEntryParseError::FieldNotFound)
    } else if s[0] == '-' {
        Ok((None, strip_spaces(s.skip(1))))
    } else if s[0] != '"' {
        Err(LogEntryParseError::FieldNotFound)
    } else {
        let rest = s.skip(1);
        let close = find_at(rest, '"');
        if close == rest.len() {
            Err(LogEntryParseError::FieldNotFound)
        } else {
            Ok((Some(rest.take(close)), strip_spaces(rest.skip(close + 1))))
        }
    }
}

/// What peeling the bracketed timestamp from `s` yields: the text
/// between `[` and the next `]` must be RFC 3339 date-and-time text.
pub open spec fn spec_peel_timestamp(s: Seq<char>) -> Result<
    (Option<Timestamp>, Seq<char>),
    LogEntryParseError,
> {
    if s.len() == 0 {
        Err(LogEntryParseError::FieldNotFound)
    } else if s[0] == '-' {
        Ok((None, strip_spaces(s.skip(1))))
    } else if s[0] != '[' {
        Err(LogEntryParseError::FieldNotFound)
    } else {
        let close = find_at(s, ']');
        if close == s.len() {
            Err(LogEntryParseError::FieldNotFound)
        } else {
            match spec_rfc3339_ts(s.subrange(1, close)) {
                Some(t) => Ok((Some(t), strip_spaces(s.skip(close + 1)))),
                None => Err(LogEntryParseError::DateTimeParse),
            }
        }
    }
}

/// Take the bare token from the start of `line`: its end, the start of
/// the stripped remainder, and the remainder itself.
fn token_split(line: &str) -> (r: (usize, &str))
    ensures
        r.0 as int == token_end(line@),
        0 <= r.0 <= line@.len(),
        r.1@ == strip_spaces(line@.skip(token_end(line@))),
{
    let n = line.unicode_len();
    let te = scan_token_end(line);
    let se = scan_space_end(line, te);
    let rem = line.substring_char(se, n);
    proof {
        lemma_token_end(line@);
        lemma_space_end(line@.skip(te as int));
        assert(rem@ =~= line@.skip(te as int).skip(space_end_of(line@, te as int)));
    }
    (te, rem)
}

/// The offset that stripping whitespace adds, for the suffix of `s` at
/// `from`.
spec fn space_end_of(s: Seq<char>, from: int) -> int {
    crate::text::space_end(s.skip(from))
}

/// Take an IP address from the start of `line`.
///
/// Return `None` (and the remainder) if the field is `-`.
pub fn peel_ip(line: &str) -> (r: Result<(Option<IpAddr>, &str), LogEntryParseError>)
    ensures
        (r is Ok) == (spec_peel_ip(line@) is Ok),
        r is Ok ==> r->Ok_0.0 == spec_peel_ip(line@)->Ok_0.0 && r->Ok_0.1@ == spec_peel_ip(
            line@,
        )->Ok_0.1,
        r is Err ==> r->Err_0 == spec_peel_ip(line@)->Err_0,
{
    let n = line.unicode_len();
    let (te, rem) = token_split(line);
    if n > 0 && line.get_char(0) == '-' {
        return Ok((None, rem));
    }
    let tok = line.substring_char(0, te);
    proof {
        lemma_token_end(line@);
        assert(tok@ =~= line@.take(token_end(line@)));
    }
    match parse_ip(tok) {
        Some(ip) => Ok((Some(ip), rem)),
        None => Err(LogEntryParseError::IpAddrParse),
    }
}

/// Take a text token from the start of `line` until the first
/// whitespace.
///
/// Return `None` (and the remainder) if the field is `-`.
pub fn peel_string(line: &str) -> (r: Result<(Option<&str>, &str), LogEntryParseError>)
    ensures
        (r is Ok) == (spec_peel_string(line@) is Ok),
        r is Ok ==> (r->Ok_0.0 is Some) == (spec_peel_string(line@)->Ok_0.0 is Some),
        r is Ok && r->Ok_0.0 is Some ==> r->Ok_0.0->Some_0@ == spec_peel_string(
            line@,
        )->Ok_0.0->Some_0,
        r is Ok ==> r->Ok_0.1@ == spec_peel_string(line@)->Ok_0.1,
        r is Err ==> r->Err_0 == spec_peel_string(line@)->Err_0,
{
    let n = line.unicode_len();
    let (te, rem) = token_split(line);
    if n > 0 && line.get_char(0) == '-' {
        return Ok((None, rem));
    }
    let tok = line.substring_char(0, te);
    proof {
        lemma_token_end(line@);
        assert(tok@ =~= line@.take(token_end(line@)));
    }
    Ok((Some(tok), rem))
}

/// Take a `usize` from the start of `line` until the first whitespace.
///
/// Return `None` (and the remainder) if the field is `-`.
pub fn peel_usize(line: &str) -> (r: Result<(Option<usize>, &str), LogEntryParseError>)
    ensures
        (r is Ok) == (spec_peel_usize(line@) is Ok),
        r is Ok ==> r->Ok_0.0 == spec_peel_usize(line@)->Ok_0.0 && r->Ok_0.1@ == spec_peel_usize(
            line@,
        )->Ok_0.1,
        r is Err ==> r->Err_0 == spec_peel_usize(line@)->Err_0,
{
    let n = line.unicode_len();
    let (te, rem) = token_split(line);
    if n > 0 && line.get_char(0) == '-' {
        return Ok((None, rem));
    }
    let tok = line.substring_char(0, te);
    proof {
        lemma_token_end(line@);
        assert(tok@ =~= line@.take(token_end(line@)));
    }
    match parse_usize_text(tok) {
        Some(v) => Ok((Some(v), rem)),
        None => Err(LogEntryParseError::SizeParse),
    }
}

/// Take a status code from the start of `line` until the first
/// whitespace.
///
/// Return `None` (and the remainder) if the field is `-`.
pub fn peel_status_code(line: &str) -> (r: Result<
    (Option<StatusCode>, &str),
    LogEntryParseError,
>)
    ensures
        (r is Ok) == (spec_peel_status_code(line@) is Ok),
        r is Ok ==> r->Ok_0.0 == spec_peel_status_code(line@)->Ok_0.0 && r->Ok_0.1@
            == spec_peel_status_code(line@)->Ok_0.1,
        r is Err ==> r->Err_0 == spec_peel_status_code(line@)->Err_0,
{
    let n = line.unicode_len();
    let (te, rem) = token_split(line);
    if n > 0 && line.get_char(0) == '-' {
        return Ok((None, rem));
    }
    let tok = line.substring_char(0, te);
    proof {
        lemma_token_end(line@);
        assert(tok@ =~= line@.take(token_end(line@)));
    }
    match parse_usize_text(tok) {
        Some(v) => {
            if 100 <= v && v <= 599 {
                Ok((Some(StatusCode { code: v as u16 }), rem))
            } else {
                Err(LogEntryParseError::StatusCodeParse)
            }
        },
        None => Err(LogEntryParseError::StatusCodeParse),
    }
}

/// Take the text between double quotes from the start of `line`.
///
/// Return `None` (and the remainder) if the field is `-`.
pub fn peel_quoted_string(line: &str) -> (r: Result<(Option<&str>, &str), LogEntryParseError>)
    ensures
        (r is Ok) == (spec_peel_quoted_string(line@) is Ok),
        r is Ok ==> (r->Ok_0.0 is Some) == (spec_peel_quoted_string(line@)->Ok_0.0 is Some),
        r is Ok && r->Ok_0.0 is Some ==> r->Ok_0.0->Some_0@ == spec_peel_quoted_string(
            line@,
        )->Ok_0.0->Some_0,
        r is Ok ==> r->Ok_0.1@ == spec_peel_quoted_string(line@)->Ok_0.1,
        r is Err ==> r->Err_0 == spec_peel_quoted_string(line@)->Err_0,
{
    let n = line.unicode_len();
    if n == 0 {
        return Err(LogEntryParseError::FieldNotFound);
    }
    let c0 = line.get_char(0);
    if c0 == '-' {
        let se = scan_space_end(line, 1);
        let rem = line.substring_char(se, n);
        proof {
            lemma_space_end(line@.skip(1));
            assert(rem@ =~= line@.skip(1).skip(space_end_of(line@, 1)));
        }
        return Ok((None, rem));
    }
    if c0 != '"' {
        return Err(LogEntryParseError::FieldNotFound);
    }
    let close = scan_find(line, 1, '"');
    let ghost rest = line@.skip(1);
    proof {
        lemma_find_at(rest, '"');
    }
    if close == n {
        return Err(LogEntryParseError::FieldNotFound);
    }
    let tok = line.substring_char(1, close);
    let se = scan_space_end(line, close + 1);
    let rem = line.substring_char(se, n);
    proof {
        assert(tok@ =~= rest.take(find_at(rest, '"')));
        lemma_space_end(line@.skip(close + 1));
        assert(rest.skip(find_at(rest, '"') + 1) =~= line@.skip(close + 1));
        assert(rem@ =~= line@.skip(close + 1).skip(space_end_of(line@, close + 1)));
    }
    Ok((Some(tok), rem))
}

/// Take a bracketed RFC 3339 timestamp from the start of `line` and
/// normalize it to UTC.
///
/// Return `None` (and the remainder) if the field is `-`.
pub fn peel_timestamp(line: &str) -> (r: Result<(Option<Timestamp>, &str), LogEntryParseError>)
    ensures
        (r is Ok) == (spec_peel_timestamp(line@) is Ok),
        r is Ok ==> r->Ok_0.0 == spec_peel_timestamp(line@)->Ok_0.0 && r->Ok_0.1@
            == spec_peel_timestamp(line@)->Ok_0.1,
        r is Err ==> r->Err_0 == spec_peel_timestamp(line@)->Err_0,
{
    let n = line.unicode_len();
    if n == 0 {
        return Err(LogEntryParseError::FieldNotFound);
    }
    let c0 = line.get_char(0);
    if c0 == '-' {
        let se = scan_space_end(line, 1);
        let rem = line.substring_char(se, n);
        proof {
            lemma_space_end(line@.skip(1));
            assert(rem@ =~= line@.skip(1).skip(space_end_of(line@, 1)));
        }
        return Ok((None, rem));
    }
    if c0 != '[' {
        return Err(LogEntryParseError::FieldNotFound);
    }
    let close = scan_find(line, 0, ']');
    proof {
        assert(line@.skip(0) =~= line@);
        lemma_find_at(line@, ']');
    }
    if close == n {
        return Err(LogEntryParseError::FieldNotFound);
    }
    let content = line.substring_char(1, close);
    proof {
        assert(content@ == line@.subrange(1, find_at(line@, ']')));
    }
    match parse_rfc3339_utc(content) {
        Some(t) => {
            let se = scan_space_end(line, close + 1);
            let rem = line.substring_char(se, n);
            proof {
                lemma_space_end(line@.skip(close + 1));
                assert(rem@ =~= line@.skip(close + 1).skip(space_end_of(line@, close + 1)));
            }
            Ok((Some(t), rem))
        },
        None => Err(LogEntryParseError::DateTimeParse),
    }
}

} // verus!
