use replit_takeout::{parse_log, serialize_log, OtLogEntry, OtOp};

fn sample_entries() -> Vec<OtLogEntry> {
    vec![
        OtLogEntry {
            ops: vec![
                OtOp::Insert("line one\nwith \"quotes\" and \\backslash\\".to_string()),
                OtOp::Skip(5),
                OtOp::Delete(2),
            ],
            crc32: 3_456_789_012,
            timestamp: 1_700_000_123,
            ts_string: "2023-11-14 22:15:23.0 +00:00:00".to_string(),
            version: 1,
        },
        OtLogEntry {
            ops: vec![OtOp::Insert("héllo \u{1}\t tab".to_string())],
            crc32: 42,
            timestamp: -12345,
            ts_string: "before the epoch".to_string(),
            version: 2,
        },
        OtLogEntry {
            ops: vec![],
            crc32: 0,
            timestamp: 0,
            ts_string: String::new(),
            version: 3,
        },
    ]
}

#[test]
fn log_round_trips_exactly() {
    let entries = sample_entries();
    let text = serialize_log(&entries);
    let back = parse_log(&text).expect("canonical text parses");
    assert_eq!(back, entries);
}

#[test]
fn empty_log_round_trips() {
    let entries: Vec<OtLogEntry> = Vec::new();
    let text = serialize_log(&entries);
    assert_eq!(text, "[]");
    assert_eq!(parse_log(&text), Some(Vec::new()));
}

#[test]
fn serialized_log_is_real_json() {
    let entries = sample_entries();
    let text = serialize_log(&entries);
    let v: serde_json::Value = serde_json::from_str(&text).expect("valid JSON");
    let arr = v.as_array().unwrap();
    assert_eq!(arr.len(), 3);
    assert_eq!(arr[0]["crc32"], 3_456_789_012u32);
    assert_eq!(arr[0]["timestamp"], 1_700_000_123i64);
    assert_eq!(arr[0]["version"], 1);
    assert_eq!(arr[0]["tsString"], "2023-11-14 22:15:23.0 +00:00:00");
    assert_eq!(
        arr[0]["ops"][0]["insert"],
        "line one\nwith \"quotes\" and \\backslash\\"
    );
    assert_eq!(arr[0]["ops"][1]["skip"], 5);
    assert_eq!(arr[0]["ops"][2]["delete"], 2);
    assert_eq!(arr[1]["timestamp"], -12345i64);
    assert_eq!(arr[1]["ops"][0]["insert"], "héllo \u{1}\t tab");
}

#[test]
fn parser_rejects_non_canonical_text() {
    assert_eq!(parse_log(""), None);
    assert_eq!(parse_log("{"), None);
    assert_eq!(parse_log("[{]"), None);
    assert_eq!(parse_log("[] "), None);
    assert_eq!(parse_log("[{\"ops\":[],\"crc32\":1}]"), None);
}

#[test]
fn parser_rejects_oversized_numbers() {
    let text = "[{\"ops\":[],\"crc32\":4294967296,\"timestamp\":0,\"tsString\":\"\",\"version\":1}]";
    assert_eq!(parse_log(text), None);
    let ok = "[{\"ops\":[],\"crc32\":4294967295,\"timestamp\":0,\"tsString\":\"\",\"version\":1}]";
    assert!(parse_log(ok).is_some());
}

#[test]
fn parser_is_strict_about_escapes() {
    // Uppercase hex, out-of-range codes and unknown escapes are refused.
    let bad1 = "[{\"ops\":[{\"insert\":\"\\u004A\"}],\"crc32\":0,\"timestamp\":0,\"tsString\":\"\",\"version\":1}]";
    assert_eq!(parse_log(bad1), None);
    let bad2 = "[{\"ops\":[{\"insert\":\"\\q\"}],\"crc32\":0,\"timestamp\":0,\"tsString\":\"\",\"version\":1}]";
    assert_eq!(parse_log(bad2), None);
    let good = "[{\"ops\":[{\"insert\":\"\\u0007\"}],\"crc32\":0,\"timestamp\":0,\"tsString\":\"\",\"version\":1}]";
    let parsed = parse_log(good).unwrap();
    assert_eq!(parsed[0].ops[0], OtOp::Insert("\u{7}".to_string()));
}

#[test]
fn negative_timestamps_round_trip() {
    let entries = vec![OtLogEntry {
        ops: vec![OtOp::Skip(1)],
        crc32: 9,
        timestamp: i64::MIN,
        ts_string: "x".to_string(),
        version: 4,
    }];
    let text = serialize_log(&entries);
    assert_eq!(parse_log(&text), Some(entries));
}
