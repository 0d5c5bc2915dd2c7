use replit_takeout::{OtError, OtOp, OtPacket, TextBuffer};

fn packet(ops: Vec<OtOp>, crc32: u32, committed_at: i64, version: u32) -> OtPacket {
    OtPacket { ops, crc32, committed_at, version }
}

#[test]
fn insert_applies_and_checks_crc() {
    let mut buf = TextBuffer::new();
    let p = packet(
        vec![OtOp::Insert("hi".to_string())],
        crc32fast::hash("hi".as_bytes()),
        1000,
        1,
    );
    assert_eq!(buf.apply_packet(&p), Ok(()));
    assert_eq!(buf.contents(), "hi");
    assert_eq!(buf.len_chars(), 2);
}

#[test]
fn skip_and_delete_use_character_counts() {
    let mut buf = TextBuffer::new();
    let p1 = packet(
        vec![OtOp::Insert("héllo".to_string())],
        crc32fast::hash("héllo".as_bytes()),
        0,
        1,
    );
    assert_eq!(buf.apply_packet(&p1), Ok(()));
    // Skip one character (not one byte) and delete one character.
    let p2 = packet(
        vec![OtOp::Skip(1), OtOp::Delete(1)],
        crc32fast::hash("hllo".as_bytes()),
        0,
        2,
    );
    assert_eq!(buf.apply_packet(&p2), Ok(()));
    assert_eq!(buf.contents(), "hllo");
}

#[test]
fn insert_then_delete_across_middle() {
    let mut buf = TextBuffer::new();
    let p1 = packet(
        vec![OtOp::Insert("abcdef".to_string())],
        crc32fast::hash("abcdef".as_bytes()),
        100,
        1,
    );
    assert_eq!(buf.apply_packet(&p1), Ok(()));
    let p2 = packet(
        vec![OtOp::Skip(2), OtOp::Delete(3)],
        crc32fast::hash("abf".as_bytes()),
        7300,
        2,
    );
    assert_eq!(buf.apply_packet(&p2), Ok(()));
    assert_eq!(buf.contents(), "abf");
}

#[test]
fn wrong_crc_is_reported() {
    let mut buf = TextBuffer::new();
    let p = packet(vec![OtOp::Insert("hi".to_string())], 12345, 0, 1);
    assert_eq!(buf.apply_packet(&p), Err(OtError::CrcMismatch));
    // The ops all applied before the checksum was found wrong.
    assert_eq!(buf.contents(), "hi");
}

#[test]
fn skip_past_end_is_invalid() {
    let mut buf = TextBuffer::new();
    let p = packet(vec![OtOp::Skip(1)], 0, 0, 1);
    assert_eq!(buf.apply_packet(&p), Err(OtError::InvalidOp));
}

#[test]
fn delete_past_end_is_invalid() {
    let mut buf = TextBuffer::new();
    let p1 = packet(
        vec![OtOp::Insert("ab".to_string())],
        crc32fast::hash("ab".as_bytes()),
        0,
        1,
    );
    assert_eq!(buf.apply_packet(&p1), Ok(()));
    let p2 = packet(vec![OtOp::Skip(1), OtOp::Delete(2)], 0, 0, 2);
    assert_eq!(buf.apply_packet(&p2), Err(OtError::InvalidOp));
}

#[test]
fn buffer_crc_matches_reference_hasher() {
    let mut buf = TextBuffer::new();
    let p = packet(
        vec![OtOp::Insert("some text".to_string())],
        crc32fast::hash("some text".as_bytes()),
        0,
        1,
    );
    assert_eq!(buf.apply_packet(&p), Ok(()));
    assert_eq!(buf.crc32(), crc32fast::hash("some text".as_bytes()));
    assert_ne!(buf.crc32(), crc32fast::hash("other text".as_bytes()));
}
