use common_log_format::{from_interchange, to_interchange, LogEntry, LogEntryData, Timestamp};

const FULL_LINE: &str =
    "127.0.0.1 user-identifier frank [1996-12-19T16:39:57-08:00] \"GET /apache_pb.gif HTTP/1.0\" 200 2326";

#[test]
fn parsed_record_round_trips_through_interchange() {
    let entry = LogEntry::parse(FULL_LINE).unwrap();
    let data = to_interchange(&entry);
    assert_eq!(data.status_code, Some(200));
    let back = from_interchange(data);
    assert_eq!(back, entry);
}

#[test]
fn record_with_absences_round_trips_through_interchange() {
    let line = "- - - - - - -";
    let entry = LogEntry::parse(line).unwrap();
    assert_eq!(entry.host, None);
    assert_eq!(entry.object_size, None);
    let back = from_interchange(to_interchange(&entry));
    assert_eq!(back, entry);
}

#[test]
fn interchange_status_999_reads_as_absent() {
    let data = LogEntryData {
        host: None,
        ident: Some("user-identifier".to_owned()),
        authuser: None,
        time: Some(Timestamp { secs: 851042397, nanos: 0 }),
        request_line: Some("GET /apache_pb.gif HTTP/1.0".to_owned()),
        status_code: Some(999),
        object_size: Some(2326),
    };
    let entry = from_interchange(data);
    assert_eq!(entry.status_code, None);
    assert_eq!(entry.ident.as_deref(), Some("user-identifier"));
    assert_eq!(entry.object_size, Some(2326));
}

#[test]
fn interchange_status_in_range_reads_back() {
    let data = LogEntryData {
        host: None,
        ident: None,
        authuser: None,
        time: None,
        request_line: None,
        status_code: Some(404),
        object_size: None,
    };
    let entry = from_interchange(data);
    assert_eq!(entry.status_code.map(|c| c.as_u16()), Some(404));
}
