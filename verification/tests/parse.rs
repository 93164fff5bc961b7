use common_log_format::{IpAddr, LogEntry, LogEntryParseError, StatusCode, Timestamp};

const FULL_LINE: &str =
    "127.0.0.1 user-identifier frank [1996-12-19T16:39:57-08:00] \"GET /apache_pb.gif HTTP/1.0\" 200 2326";

fn v4(a: u8, b: u8, c: u8, d: u8) -> IpAddr {
    IpAddr::V4 { a, b, c, d }
}

#[test]
fn full_line_parses_to_every_field() {
    let entry = LogEntry::parse(FULL_LINE).unwrap();
    assert_eq!(entry.host, Some(v4(127, 0, 0, 1)));
    assert_eq!(entry.ident.as_deref(), Some("user-identifier"));
    assert_eq!(entry.authuser.as_deref(), Some("frank"));
    // 1996-12-19T16:39:57-08:00, normalized to UTC
    assert_eq!(entry.time, Some(Timestamp { secs: 851042397, nanos: 0 }));
    assert_eq!(entry.request_line.as_deref(), Some("GET /apache_pb.gif HTTP/1.0"));
    assert_eq!(entry.status_code.map(|c| c.as_u16()), Some(200));
    assert_eq!(entry.object_size, Some(2326));
}

#[test]
fn full_line_parses_through_from_str() {
    let entry: LogEntry = FULL_LINE.parse().unwrap();
    assert_eq!(entry.object_size, Some(2326));
}

#[test]
fn dashed_ident_and_authuser_are_absent() {
    let line = "127.0.0.1 - - [1996-12-19T16:39:57-08:00] \"GET /apache_pb.gif HTTP/1.0\" 200 2326";
    let entry = LogEntry::parse(line).unwrap();
    let full = LogEntry::parse(FULL_LINE).unwrap();
    assert_eq!(entry.ident, None);
    assert_eq!(entry.authuser, None);
    assert_eq!(entry.host, full.host);
    assert_eq!(entry.time, full.time);
    assert_eq!(entry.request_line, full.request_line);
    assert_eq!(entry.status_code, full.status_code);
    assert_eq!(entry.object_size, full.object_size);
}

#[test]
fn each_field_substituted_by_dash_is_absent_alone() {
    let full = LogEntry::parse(FULL_LINE).unwrap();
    let cases = [
        ("- user-identifier frank [1996-12-19T16:39:57-08:00] \"GET /apache_pb.gif HTTP/1.0\" 200 2326", 0),
        ("127.0.0.1 - frank [1996-12-19T16:39:57-08:00] \"GET /apache_pb.gif HTTP/1.0\" 200 2326", 1),
        ("127.0.0.1 user-identifier - [1996-12-19T16:39:57-08:00] \"GET /apache_pb.gif HTTP/1.0\" 200 2326", 2),
        ("127.0.0.1 user-identifier frank - \"GET /apache_pb.gif HTTP/1.0\" 200 2326", 3),
        ("127.0.0.1 user-identifier frank [1996-12-19T16:39:57-08:00] - 200 2326", 4),
        ("127.0.0.1 user-identifier frank [1996-12-19T16:39:57-08:00] \"GET /apache_pb.gif HTTP/1.0\" - 2326", 5),
        ("127.0.0.1 user-identifier frank [1996-12-19T16:39:57-08:00] \"GET /apache_pb.gif HTTP/1.0\" 200 -", 6),
    ];
    for (line, field) in cases {
        let entry = LogEntry::parse(line).unwrap();
        let mut expect = full.clone();
        match field {
            0 => expect.host = None,
            1 => expect.ident = None,
            2 => expect.authuser = None,
            3 => expect.time = None,
            4 => expect.request_line = None,
            5 => expect.status_code = None,
            _ => expect.object_size = None,
        }
        assert_eq!(entry, expect, "line: {line}");
    }
}

#[test]
fn malformed_ip_is_ip_addr_parse() {
    let line = "999.999.999.999 - - [1996-12-19T16:39:57-08:00] \"GET /a HTTP/1.0\" 200 2326";
    assert!(matches!(LogEntry::parse(line), Err(LogEntryParseError::IpAddrParse)));
}

#[test]
fn missing_closing_bracket_is_field_not_found() {
    let line = "127.0.0.1 - - [1996-12-19T16:39:57-08:00 \"GET /a HTTP/1.0\" 200 2326";
    assert!(matches!(LogEntry::parse(line), Err(LogEntryParseError::FieldNotFound)));
}

#[test]
fn unquoted_request_line_is_field_not_found() {
    let line = "127.0.0.1 - - [1996-12-19T16:39:57-08:00] GET 200 2326";
    assert!(matches!(LogEntry::parse(line), Err(LogEntryParseError::FieldNotFound)));
}

#[test]
fn bad_timestamp_text_is_date_time_parse() {
    let line = "127.0.0.1 - - [19/Dec/1996] \"GET /a HTTP/1.0\" 200 2326";
    assert!(matches!(LogEntry::parse(line), Err(LogEntryParseError::DateTimeParse)));
}

#[test]
fn non_numeric_status_is_status_code_parse() {
    let line = "127.0.0.1 - - [1996-12-19T16:39:57-08:00] \"GET /a HTTP/1.0\" abc 2326";
    assert!(matches!(LogEntry::parse(line), Err(LogEntryParseError::StatusCodeParse)));
}

#[test]
fn out_of_range_status_is_status_code_parse() {
    let line = "127.0.0.1 - - [1996-12-19T16:39:57-08:00] \"GET /a HTTP/1.0\" 999 2326";
    assert!(matches!(LogEntry::parse(line), Err(LogEntryParseError::StatusCodeParse)));
}

#[test]
fn non_numeric_size_is_size_parse() {
    let line = "127.0.0.1 - - [1996-12-19T16:39:57-08:00] \"GET /a HTTP/1.0\" 200 12x6";
    assert!(matches!(LogEntry::parse(line), Err(LogEntryParseError::SizeParse)));
}

#[test]
fn huge_size_is_size_parse() {
    let line = "127.0.0.1 - - [1996-12-19T16:39:57-08:00] \"GET /a HTTP/1.0\" 200 99999999999999999999999999";
    assert!(matches!(LogEntry::parse(line), Err(LogEntryParseError::SizeParse)));
}

#[test]
fn empty_line_is_ip_addr_parse() {
    // the host field is bounded by end of input; the empty text then
    // fails the IP parse
    assert!(matches!(LogEntry::parse(""), Err(LogEntryParseError::IpAddrParse)));
}

#[test]
fn truncated_line_is_field_not_found() {
    assert!(matches!(LogEntry::parse("127.0.0.1"), Err(LogEntryParseError::FieldNotFound)));
}

#[test]
fn trailing_text_after_size_is_ignored() {
    let with_junk = format!("{FULL_LINE} and some trailing words");
    let entry = LogEntry::parse(&with_junk).unwrap();
    assert_eq!(entry, LogEntry::parse(FULL_LINE).unwrap());
}

#[test]
fn ipv4_mapped_ipv6_host_parses() {
    let line = "::ffff:192.0.2.1 - - [1996-12-19T16:39:57-08:00] \"GET /a HTTP/1.0\" 200 10";
    let entry = LogEntry::parse(line).unwrap();
    assert_eq!(
        entry.host,
        Some(IpAddr::V6 {
            s0: 0,
            s1: 0,
            s2: 0,
            s3: 0,
            s4: 0,
            s5: 0xffff,
            s6: 0xc000,
            s7: 0x0201,
        }),
    );
}

#[test]
fn ipv6_host_parses() {
    let line = "2001:db8::ff00:42:8329 - - [1996-12-19T16:39:57-08:00] \"GET /a HTTP/1.0\" 200 10";
    let entry = LogEntry::parse(line).unwrap();
    assert_eq!(
        entry.host,
        Some(IpAddr::V6 {
            s0: 0x2001,
            s1: 0xdb8,
            s2: 0,
            s3: 0,
            s4: 0,
            s5: 0xff00,
            s6: 0x42,
            s7: 0x8329,
        }),
    );
}

#[test]
fn unicode_request_line_round_trips() {
    let line = "127.0.0.1 - - - \"GET /caf\u{e9}/\u{2603} HTTP/1.0\" 200 5";
    let entry = LogEntry::parse(line).unwrap();
    assert_eq!(entry.request_line.as_deref(), Some("GET /caf\u{e9}/\u{2603} HTTP/1.0"));
    assert_eq!(entry.time, None);
}

#[test]
fn error_description_is_nonempty() {
    let err = LogEntry::parse("").unwrap_err();
    assert!(!err.describe().is_empty());
}

#[test]
fn status_code_type_validates_range() {
    assert!(StatusCode::from_u16(99).is_none());
    assert_eq!(StatusCode::from_u16(100).map(|c| c.as_u16()), Some(100));
    assert_eq!(StatusCode::from_u16(599).map(|c| c.as_u16()), Some(599));
    assert!(StatusCode::from_u16(600).is_none());
    assert!(StatusCode::from_u16(999).is_none());
}
