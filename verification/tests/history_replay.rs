use replit_takeout::{history_log_entries, normalize_ts, replay_history, OtError, OtOp, OtPacket};

fn packet(ops: Vec<OtOp>, crc32: u32, committed_at: i64, version: u32) -> OtPacket {
    OtPacket { ops, crc32, committed_at, version }
}

#[test]
fn two_buckets_two_snapshots() {
    let packets = vec![
        packet(
            vec![OtOp::Insert("abcdef".to_string())],
            crc32fast::hash("abcdef".as_bytes()),
            100,
            1,
        ),
        packet(
            vec![OtOp::Skip(2), OtOp::Delete(3)],
            crc32fast::hash("abf".as_bytes()),
            7300,
            2,
        ),
    ];
    let snaps = replay_history(&packets, 0).unwrap();
    assert_eq!(snaps.len(), 2);
    assert_eq!(snaps[0].bucket, normalize_ts(100, 0));
    assert_eq!(snaps[0].content, "abcdef");
    assert_eq!(snaps[1].bucket, normalize_ts(7300, 0));
    assert_eq!(snaps[1].bucket, 7200);
    assert_eq!(snaps[1].content, "abf");
}

#[test]
fn one_bucket_one_snapshot() {
    let packets = vec![packet(
        vec![OtOp::Insert("hi".to_string())],
        crc32fast::hash("hi".as_bytes()),
        1000,
        1,
    )];
    let snaps = replay_history(&packets, 0).unwrap();
    assert_eq!(snaps.len(), 1);
    assert_eq!(snaps[0].bucket, normalize_ts(1000, 0));
    assert_eq!(snaps[0].content, "hi");
}

#[test]
fn no_packets_no_snapshots() {
    let snaps = replay_history(&Vec::new(), 0).unwrap();
    assert!(snaps.is_empty());
}

#[test]
fn mid_stream_crc_mismatch_aborts_history() {
    let packets = vec![
        packet(
            vec![OtOp::Insert("abcdef".to_string())],
            crc32fast::hash("abcdef".as_bytes()),
            100,
            1,
        ),
        packet(vec![OtOp::Skip(2), OtOp::Delete(3)], 1, 7300, 2),
    ];
    assert_eq!(replay_history(&packets, 0), Err(OtError::CrcMismatch));
}

#[test]
fn same_bucket_collapses_to_one_snapshot() {
    let packets = vec![
        packet(
            vec![OtOp::Insert("a".to_string())],
            crc32fast::hash("a".as_bytes()),
            10,
            1,
        ),
        packet(
            vec![OtOp::Skip(1), OtOp::Insert("b".to_string())],
            crc32fast::hash("ab".as_bytes()),
            20,
            2,
        ),
    ];
    let snaps = replay_history(&packets, 0).unwrap();
    assert_eq!(snaps.len(), 1);
    assert_eq!(snaps[0].content, "ab");
}

#[test]
fn log_entries_carry_bucketed_timestamp_strings() {
    let packets = vec![packet(
        vec![OtOp::Insert("x".to_string())],
        crc32fast::hash("x".as_bytes()),
        1000,
        1,
    )];
    let entries = history_log_entries(&packets, 0).unwrap();
    assert_eq!(entries.len(), 1);
    assert_eq!(entries[0].timestamp, 1000);
    assert_eq!(entries[0].version, 1);
    assert_eq!(entries[0].ops, packets[0].ops);
    let direct = format!(
        "{}",
        time::OffsetDateTime::from_unix_timestamp(normalize_ts(1000, 0)).unwrap()
    );
    assert_eq!(entries[0].ts_string, direct);
}

#[test]
fn log_entries_refuse_unrenderable_buckets() {
    let packets = vec![packet(vec![], 0, 253_402_300_799 + 3600, 1)];
    assert_eq!(history_log_entries(&packets, 0), None);
}
