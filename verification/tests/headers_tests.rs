use installer::headers::{parse_date, RespHeaders};
use installer::text::{parse_unsigned_bytes, position_of, trim_ascii};

#[test]
fn parse_date_accepts_valid_dates() {
    assert_eq!(parse_date("2024-05-17"), Ok((2024, 5, 17)));
    assert_eq!(parse_date("3000-12-31"), Ok((3000, 12, 31)));
    assert_eq!(parse_date("2024-1-1"), Ok((2024, 1, 1)));
    assert_eq!(parse_date("+2025-+02-003"), Ok((2025, 2, 3)));
}

#[test]
fn parse_date_rejects_bad_format() {
    assert_eq!(parse_date("20240517"), Err("invalid date format"));
    assert_eq!(parse_date("2024-05"), Err("invalid date format"));
    assert_eq!(parse_date(""), Err("invalid date format"));
}

#[test]
fn parse_date_rejects_bad_year() {
    assert_eq!(parse_date("2023-05-17"), Err("invalid year"));
    assert_eq!(parse_date("3001-05-17"), Err("invalid year"));
    assert_eq!(parse_date("20x4-05-17"), Err("invalid year"));
    assert_eq!(parse_date("70000-05-17"), Err("invalid year"));
    assert_eq!(parse_date("-05-17"), Err("invalid year"));
}

#[test]
fn parse_date_rejects_bad_month_and_day() {
    assert_eq!(parse_date("2024-13-17"), Err("invalid month"));
    assert_eq!(parse_date("2024-00-17"), Err("invalid month"));
    assert_eq!(parse_date("2024-256-17"), Err("invalid month"));
    assert_eq!(parse_date("2024-05-32"), Err("invalid day"));
    assert_eq!(parse_date("2024-05-0"), Err("invalid day"));
    assert_eq!(parse_date("2024-05-1-2"), Err("invalid day"));
    // Parsing comes before the range checks.
    assert_eq!(parse_date("2023-13-xx"), Err("invalid day"));
}

#[test]
fn unsigned_parsing_follows_str_parse() {
    assert_eq!(parse_unsigned_bytes(b"65535", 0xffff), Some(65535));
    assert_eq!(parse_unsigned_bytes(b"65536", 0xffff), None);
    assert_eq!(parse_unsigned_bytes(b"0000255", 0xff), Some(255));
    assert_eq!(parse_unsigned_bytes(b"256", 0xff), None);
    assert_eq!(parse_unsigned_bytes(b"+7", 0xff), Some(7));
    assert_eq!(parse_unsigned_bytes(b"+", 0xff), None);
    assert_eq!(parse_unsigned_bytes(b"", 0xff), None);
    assert_eq!(parse_unsigned_bytes(b"++7", 0xff), None);
    assert_eq!(parse_unsigned_bytes(b"-7", 0xff), None);
    assert_eq!(parse_unsigned_bytes(b" 7", 0xff), None);
    for n in [0u32, 9, 10, 99, 12345, 65535] {
        assert_eq!(parse_unsigned_bytes(n.to_string().as_bytes(), 0xffff), Some(n));
    }
}

#[test]
fn trimming_and_search() {
    assert_eq!(trim_ascii(b" \t\r\nab c\x0c\n "), b"ab c");
    assert_eq!(trim_ascii(b"\x0bab"), b"\x0bab");
    assert_eq!(trim_ascii(b"   "), b"");
    assert_eq!(position_of(b"a:b:c", b':'), Some(1));
    assert_eq!(position_of(b"abc", b':'), None);
}

#[test]
fn headers_without_fields_lack_the_protocol() {
    assert_eq!(RespHeaders::parse(b"").err(), Some("protocol not specified"));
    assert_eq!(
        RespHeaders::parse(b"HTTP/1.1 200 OK\r\nContent-Type: text/plain\r\n\r\n").err(),
        Some("protocol not specified")
    );
}

#[test]
fn well_formed_head_parses() {
    let raw = b"HTTP/1.1 200 OK\r\nX-F0-Protocol: 1\r\nX-F0-Author-Id: lux\r\nX-F0-App-Id: snek\r\nX-F0-Today: 2024-06-01\r\n\r\n";
    let h = match RespHeaders::parse(raw) {
        Ok(h) => h,
        Err(e) => panic!("{e}"),
    };
    assert_eq!(h.protocol, 1);
    assert_eq!(h.author_id, "lux");
    assert_eq!(h.app_id, "snek");
    assert_eq!(h.today, (2024, 6, 1));
    assert_eq!(h.expected_size, 0);
}

#[test]
fn keys_are_case_insensitive_and_values_trimmed() {
    let raw = b"X-F0-PROTOCOL:1\nX-F0-author-ID:   lux  \nX-F0-APP-id:snek\nX-F0-today: 3000-12-31\nX-F0-Expected-Size: 9";
    let h = RespHeaders::parse(raw).ok().unwrap();
    assert_eq!((h.author_id.as_str(), h.app_id.as_str(), h.today), ("lux", "snek", (3000, 12, 31)));
    // The last line of a key wins.
    let raw = b"X-F0-Protocol: 1\nX-F0-Author-Id: a\nX-F0-Author-Id: b\nX-F0-App-Id: c\nX-F0-Today: 2024-1-1";
    assert_eq!(RespHeaders::parse(raw).ok().unwrap().author_id, "b");
}

#[test]
fn missing_fields_are_reported() {
    let p = "X-F0-Protocol: 1\r\n";
    let t = "X-F0-Today: 2024-06-01\r\n";
    let a = "X-F0-Author-Id: lux\r\n";
    let b = "X-F0-App-Id: snek\r\n";
    let parse = |s: String| RespHeaders::parse(s.as_bytes()).err();
    assert_eq!(parse(format!("{p}{a}{b}")), Some("current date not specified"));
    assert_eq!(parse(format!("{p}{t}{b}")), Some("author ID not specified"));
    assert_eq!(parse(format!("{p}{t}{a}")), Some("author ID not specified"));
    assert_eq!(parse(format!("{t}{a}{b}")), Some("protocol not specified"));
    assert_eq!(parse(format!("{p}{t}{a}X-F0-App-Id:   \r\n")), Some("author ID not specified"));
}

#[test]
fn other_protocols_and_bad_dates_are_refused() {
    assert_eq!(RespHeaders::parse(b"X-F0-Protocol: 2").err(), Some("unsupported protocol"));
    assert_eq!(RespHeaders::parse(b"X-F0-Protocol: 01").err(), Some("unsupported protocol"));
    assert_eq!(RespHeaders::parse(b"X-F0-Today: 2023-05-17").err(), Some("invalid year"));
    assert_eq!(RespHeaders::parse(b"X-F0-Today: 2024/05/17").err(), Some("invalid date format"));
}

#[test]
fn header_errors() {
    assert_eq!(RespHeaders::parse(b"X-F0-Protocol 1").err(), Some("invalid header received"));
    assert_eq!(RespHeaders::parse(b"X-F0-Color: red").err(), Some("unsupported header received"));
    assert_eq!(
        RespHeaders::parse(b"X-F0-Author-ID: \xff\xfe").err(),
        Some("invalid header encoding")
    );
    // The prefix is case-sensitive, so this line is skipped.
    assert_eq!(RespHeaders::parse(b"x-f0-color: red").err(), Some("protocol not specified"));
    // Known keys that are accepted still leave the protocol unset.
    assert_eq!(
        RespHeaders::parse(b"X-F0-Author-ID: lux\nX-F0-App-ID: game\nX-F0-Expected-Size: 9\n").err(),
        Some("protocol not specified")
    );
    // The first failing line decides.
    assert_eq!(
        RespHeaders::parse(b"X-F0-Color: red\nX-F0-Protocol 1").err(),
        Some("unsupported header received")
    );
}

#[test]
fn printed_dates_parse_back() {
    for y in [2024u16, 2500, 3000] {
        for m in 1u8..=12 {
            for d in [1u8, 9, 10, 28, 31] {
                assert_eq!(parse_date(&format!("{y}-{m}-{d}")), Ok((y, m, d)));
                assert_eq!(parse_date(&format!("{y:04}-{m:02}-{d:02}")), Ok((y, m, d)));
            }
        }
    }
}

#[test]
fn other_lines_are_ignored() {
    let plain = b"X-F0-Protocol: 1\nX-F0-Author-Id: lux\nX-F0-App-Id: snek\nX-F0-Today: 2024-06-01";
    let noisy = b"HTTP/1.1 200 OK\nServer: x\nX-F0-Protocol: 1\n  Date: y  \nX-F0-Author-Id: lux\nX-F0-App-Id: snek\n\nX-F0-Today: 2024-06-01";
    let a = RespHeaders::parse(plain).ok().unwrap();
    let b = RespHeaders::parse(noisy).ok().unwrap();
    assert_eq!((a.protocol, a.author_id, a.app_id, a.today), (b.protocol, b.author_id, b.app_id, b.today));
}
