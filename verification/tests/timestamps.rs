use replit_takeout::{history_log_entries, normalize_ts, OtPacket};

const W: i64 = 3600;

#[test]
fn rounds_to_nearest_aligned_boundary() {
    assert_eq!(normalize_ts(1000, 0), 0);
    assert_eq!(normalize_ts(1800, 0), 3600);
    assert_eq!(normalize_ts(7300, 0), 7200);
    assert_eq!(normalize_ts(3600, 0), 3600);
}

#[test]
fn earlier_than_origin_clamps_to_origin() {
    assert_eq!(normalize_ts(5, 1000), 1000);
    assert_eq!(normalize_ts(0, 7), 7);
}

#[test]
fn keeps_the_origin_phase() {
    let origin = 10_000;
    for ts in [10_000, 10_500, 12_345, 99_999] {
        let b = normalize_ts(ts, origin);
        assert_eq!(b % W, origin % W);
        assert!((b - ts).abs() <= W / 2);
    }
}

#[test]
fn buckets_never_go_backwards() {
    let origin = 4321;
    let mut last = i64::MIN;
    for ts in [0, 4321, 5000, 6000, 9000, 50_000] {
        let b = normalize_ts(ts, origin);
        assert!(b >= last);
        last = b;
    }
}

fn bare_packet(committed_at: i64) -> OtPacket {
    OtPacket { ops: vec![], crc32: 0, committed_at, version: 1 }
}

#[test]
fn timestamp_rendering_matches_datetime_library() {
    // One packet per bucket; the archived log's timestamp strings must be
    // the datetime library's own rendering of the bucketed times.
    let entries = history_log_entries(&vec![bare_packet(100)], 0).unwrap();
    let bucket = normalize_ts(100, 0);
    let direct = format!(
        "{}",
        time::OffsetDateTime::from_unix_timestamp(bucket).unwrap()
    );
    assert_eq!(entries[0].ts_string, direct);

    let entries2 = history_log_entries(&vec![bare_packet(1_546_300_800)], 0).unwrap();
    let bucket2 = normalize_ts(1_546_300_800, 0);
    let direct2 = format!(
        "{}",
        time::OffsetDateTime::from_unix_timestamp(bucket2).unwrap()
    );
    assert_eq!(entries2[0].ts_string, direct2);
    assert_ne!(entries[0].ts_string, entries2[0].ts_string);
}

#[test]
fn timestamp_rendering_refuses_out_of_range_buckets() {
    let last_good = 253_402_300_799 - 3600;
    assert!(history_log_entries(&vec![bare_packet(last_good)], 0).is_some());
    assert!(history_log_entries(&vec![bare_packet(253_402_300_799 + 3600)], 0).is_none());
}

#[test]
fn datetime_library_range_matches_the_assumed_bounds() {
    // The renderable range assumed by the library is exactly what the
    // datetime crate accepts.
    assert!(time::OffsetDateTime::from_unix_timestamp(253_402_300_799).is_ok());
    assert!(time::OffsetDateTime::from_unix_timestamp(253_402_300_800).is_err());
    assert!(time::OffsetDateTime::from_unix_timestamp(-377_705_116_800).is_ok());
    assert!(time::OffsetDateTime::from_unix_timestamp(-377_705_116_801).is_err());
}
