use common_log_format::{
    peel_ip, peel_quoted_string, peel_status_code, peel_string, peel_timestamp, peel_usize,
    IpAddr, LogEntryParseError, Timestamp,
};

#[test]
fn peel_string_takes_token_and_strips_spaces() {
    let (v, rem) = peel_string("frank   [rest]").unwrap();
    assert_eq!(v, Some("frank"));
    assert_eq!(rem, "[rest]");
}

#[test]
fn peel_string_dash_is_absent() {
    let (v, rem) = peel_string("- rest").unwrap();
    assert_eq!(v, None);
    assert_eq!(rem, "rest");
}

#[test]
fn peel_string_dash_led_token_is_absent() {
    // absence is decided by the first character alone
    let (v, rem) = peel_string("-abc rest").unwrap();
    assert_eq!(v, None);
    assert_eq!(rem, "rest");
}

#[test]
fn peel_string_at_end_of_input() {
    let (v, rem) = peel_string("last").unwrap();
    assert_eq!(v, Some("last"));
    assert_eq!(rem, "");
}

#[test]
fn peel_usize_reads_number() {
    let (v, rem) = peel_usize("2326 tail").unwrap();
    assert_eq!(v, Some(2326));
    assert_eq!(rem, "tail");
}

#[test]
fn peel_usize_accepts_plus_sign() {
    let (v, _) = peel_usize("+17").unwrap();
    assert_eq!(v, Some(17));
}

#[test]
fn peel_usize_dash_led_token_is_absent() {
    // a leading dash marks the field absent, whatever follows it
    let (v, rem) = peel_usize("-5 x").unwrap();
    assert_eq!(v, None);
    assert_eq!(rem, "x");
}

#[test]
fn peel_usize_rejects_garbage() {
    assert!(matches!(peel_usize("12ab rest"), Err(LogEntryParseError::SizeParse)));
}

#[test]
fn peel_status_code_example() {
    let remainder = "200 2326";
    let (sc, rem) = peel_status_code(remainder).unwrap();
    assert_eq!(sc.unwrap().as_u16(), 200);
    assert_eq!(rem, "2326");
}

#[test]
fn peel_status_code_rejects_out_of_range() {
    assert!(matches!(peel_status_code("99 x"), Err(LogEntryParseError::StatusCodeParse)));
    assert!(matches!(peel_status_code("600 x"), Err(LogEntryParseError::StatusCodeParse)));
}

#[test]
fn peel_quoted_string_takes_span() {
    let (v, rem) = peel_quoted_string("\"GET / HTTP/1.0\" 200").unwrap();
    assert_eq!(v, Some("GET / HTTP/1.0"));
    assert_eq!(rem, "200");
}

#[test]
fn peel_quoted_string_empty_quotes() {
    let (v, rem) = peel_quoted_string("\"\" rest").unwrap();
    assert_eq!(v, Some(""));
    assert_eq!(rem, "rest");
}

#[test]
fn peel_quoted_string_missing_close_quote() {
    assert!(matches!(
        peel_quoted_string("\"unterminated"),
        Err(LogEntryParseError::FieldNotFound)
    ));
}

#[test]
fn peel_quoted_string_wrong_opener() {
    assert!(matches!(peel_quoted_string("GET / 200"), Err(LogEntryParseError::FieldNotFound)));
}

#[test]
fn peel_timestamp_normalizes_to_utc() {
    let (t, rem) = peel_timestamp("[1996-12-19T16:39:57-08:00] rest").unwrap();
    assert_eq!(t, Some(Timestamp { secs: 851042397, nanos: 0 }));
    assert_eq!(rem, "rest");
}

#[test]
fn peel_timestamp_utc_input() {
    let (t, _) = peel_timestamp("[2001-01-02T03:04:05Z]").unwrap();
    assert_eq!(t, Some(Timestamp { secs: 978404645, nanos: 0 }));
}

#[test]
fn peel_timestamp_keeps_fractional_seconds() {
    let (t, _) = peel_timestamp("[2001-01-02T03:04:05.250Z]").unwrap();
    assert_eq!(t, Some(Timestamp { secs: 978404645, nanos: 250_000_000 }));
}

#[test]
fn peel_timestamp_bad_content() {
    assert!(matches!(peel_timestamp("[not-a-date]"), Err(LogEntryParseError::DateTimeParse)));
}

#[test]
fn peel_timestamp_wrong_opener() {
    assert!(matches!(peel_timestamp("1996 x"), Err(LogEntryParseError::FieldNotFound)));
}

#[test]
fn peel_ip_v4() {
    let (ip, rem) = peel_ip("127.0.0.1 rest").unwrap();
    assert_eq!(ip, Some(IpAddr::V4 { a: 127, b: 0, c: 0, d: 1 }));
    assert_eq!(rem, "rest");
}

#[test]
fn peel_ip_v4_extremes() {
    let (ip, _) = peel_ip("0.0.0.0").unwrap();
    assert_eq!(ip, Some(IpAddr::V4 { a: 0, b: 0, c: 0, d: 0 }));
    let (ip, _) = peel_ip("255.255.255.255").unwrap();
    assert_eq!(ip, Some(IpAddr::V4 { a: 255, b: 255, c: 255, d: 255 }));
}

#[test]
fn peel_ip_v4_rejects_bad_octets() {
    assert!(matches!(peel_ip("256.1.1.1 x"), Err(LogEntryParseError::IpAddrParse)));
    assert!(matches!(peel_ip("01.2.3.4 x"), Err(LogEntryParseError::IpAddrParse)));
    assert!(matches!(peel_ip("1.2.3 x"), Err(LogEntryParseError::IpAddrParse)));
    assert!(matches!(peel_ip("1.2.3.4.5 x"), Err(LogEntryParseError::IpAddrParse)));
}

#[test]
fn peel_ip_v6_forms() {
    let (ip, _) = peel_ip("::1").unwrap();
    assert_eq!(ip, Some(IpAddr::V6 { s0: 0, s1: 0, s2: 0, s3: 0, s4: 0, s5: 0, s6: 0, s7: 1 }));
    let (ip, _) = peel_ip("::").unwrap();
    assert_eq!(ip, Some(IpAddr::V6 { s0: 0, s1: 0, s2: 0, s3: 0, s4: 0, s5: 0, s6: 0, s7: 0 }));
    let (ip, _) = peel_ip("1:2:3:4:5:6:7:8").unwrap();
    assert_eq!(ip, Some(IpAddr::V6 { s0: 1, s1: 2, s2: 3, s3: 4, s4: 5, s5: 6, s6: 7, s7: 8 }));
    let (ip, _) = peel_ip("fe80::FFFF").unwrap();
    assert_eq!(
        ip,
        Some(IpAddr::V6 { s0: 0xfe80, s1: 0, s2: 0, s3: 0, s4: 0, s5: 0, s6: 0, s7: 0xffff }),
    );
}

#[test]
fn peel_ip_v6_rejects_bad_forms() {
    assert!(matches!(peel_ip("1:2:3 x"), Err(LogEntryParseError::IpAddrParse)));
    assert!(matches!(peel_ip("1::2::3 x"), Err(LogEntryParseError::IpAddrParse)));
    assert!(matches!(peel_ip("1:2:3:4:5:6:7:8:9 x"), Err(LogEntryParseError::IpAddrParse)));
    assert!(matches!(peel_ip("12345::1 x"), Err(LogEntryParseError::IpAddrParse)));
    assert!(matches!(peel_ip("1:2:3:4:5:6:7:8::"), Err(LogEntryParseError::IpAddrParse)));
    assert!(matches!(peel_ip("::1:2:3:4:5:6:7:8"), Err(LogEntryParseError::IpAddrParse)));
}

#[test]
fn peel_ip_v6_mixed_forms() {
    // a trailing dotted quad carries the last 32 bits
    let (ip, _) = peel_ip("::ffff:192.0.2.1").unwrap();
    assert_eq!(
        ip,
        Some(IpAddr::V6 { s0: 0, s1: 0, s2: 0, s3: 0, s4: 0, s5: 0xffff, s6: 0xc000, s7: 0x0201 }),
    );
    let (ip, _) = peel_ip("64:ff9b::10.0.0.1").unwrap();
    assert_eq!(
        ip,
        Some(IpAddr::V6 {
            s0: 0x64,
            s1: 0xff9b,
            s2: 0,
            s3: 0,
            s4: 0,
            s5: 0,
            s6: 0x0a00,
            s7: 0x0001,
        }),
    );
    let (ip, _) = peel_ip("1:2:3:4:5:6:7.8.9.10").unwrap();
    assert_eq!(
        ip,
        Some(IpAddr::V6 { s0: 1, s1: 2, s2: 3, s3: 4, s4: 5, s5: 6, s6: 0x0708, s7: 0x090a }),
    );
}

#[test]
fn peel_ip_v6_mixed_rejects_bad_forms() {
    // the quad may only stand last, and the group count must still work out
    assert!(matches!(peel_ip("1.2.3.4::1 x"), Err(LogEntryParseError::IpAddrParse)));
    assert!(matches!(peel_ip("::1.2.3.4.5 x"), Err(LogEntryParseError::IpAddrParse)));
    assert!(matches!(
        peel_ip("1:2:3:4:5:6:7:1.2.3.4 x"),
        Err(LogEntryParseError::IpAddrParse)
    ));
    assert!(matches!(peel_ip("::ffff:1.2.3 x"), Err(LogEntryParseError::IpAddrParse)));
}

#[test]
fn peel_on_empty_input() {
    // an empty input bounds an empty bare token, which each field's own
    // parse then judges; the delimited fields miss their delimiter
    let (v, rem) = peel_string("").unwrap();
    assert_eq!(v, Some(""));
    assert_eq!(rem, "");
    assert!(matches!(peel_ip(""), Err(LogEntryParseError::IpAddrParse)));
    assert!(matches!(peel_usize(""), Err(LogEntryParseError::SizeParse)));
    assert!(matches!(peel_status_code(""), Err(LogEntryParseError::StatusCodeParse)));
    assert!(matches!(peel_quoted_string(""), Err(LogEntryParseError::FieldNotFound)));
    assert!(matches!(peel_timestamp(""), Err(LogEntryParseError::FieldNotFound)));
}

#[test]
fn peel_ip_dash_is_absent() {
    let (ip, rem) = peel_ip("- rest").unwrap();
    assert_eq!(ip, None);
    assert_eq!(rem, "rest");
}
