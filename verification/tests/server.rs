use winshoweq::network::flush_records;
use winshoweq::protocol::{parse_string_bytes, world_time_to_record, write_str, SpawnRecord, WorldTime, OPT_WORLD};
use winshoweq::scanner::{compare_data, parse_escape_bytes, scan_buffer_for_pointer, unix_to_date};

#[test]
fn parse_string_bytes_null_terminated() {
    let buf = b"Surefall\x00garbage";
    assert_eq!(parse_string_bytes(buf), "Surefall");
}

#[test]
fn parse_string_bytes_no_null() {
    let buf = b"hello";
    assert_eq!(parse_string_bytes(buf), "hello");
}

#[test]
fn parse_string_bytes_leading_null() {
    let buf = b"\x00hello";
    assert_eq!(parse_string_bytes(buf), "");
}

#[test]
fn world_time_record_fields() {
    let wt = WorldTime { hour: 14, minute: 30, day: 15, month: 6, year: 3210 };
    let rec = world_time_to_record(wt);
    assert_eq!(rec.spawn_type, 14);
    assert_eq!(rec.class, 30);
    assert_eq!(rec.level, 15);
    assert_eq!(rec.hidden, 6);
    assert_eq!(rec.race, 3210);
    assert_eq!(rec.flags, OPT_WORLD);
}

#[test]
fn write_str_truncates_and_null_terminates() {
    let mut buf = [0xFFu8; 5];
    write_str("hello!", &mut buf);
    assert_eq!(&buf[..4], b"hell");
    assert_eq!(buf[4], 0xFF);
}

#[test]
fn write_str_short_text_leaves_rest() {
    let mut buf = [0xFFu8; 8];
    write_str("abc", &mut buf);
    assert_eq!(&buf[..3], b"abc");
    assert_eq!(&buf[3..], &[0xFF; 5]);
}

#[test]
fn flush_records_byte_count() {
    let records = vec![SpawnRecord::zeroed(), SpawnRecord::zeroed()];
    let buf = flush_records(&records);
    assert_eq!(buf.len(), 4 + 2 * 100);
    assert_eq!(&buf[..4], &2i32.to_le_bytes());
}

#[test]
fn compare_data_exact_and_wildcard() {
    let byte_mask = &[0x8Bu8, 0xAA, 0xFF];
    let char_mask = b"xxt";
    assert!(compare_data(&[0x8B, 0xAA, 0x00], byte_mask, char_mask));
    assert!(!compare_data(&[0x8B, 0xAB, 0x00], byte_mask, char_mask));
    assert!(!compare_data(&[0x00, 0xAA, 0x00], byte_mask, char_mask));
}

#[test]
fn compare_data_o_and_r_also_require_match() {
    let byte_mask = &[0x11u8, 0x22, 0x33];
    assert!(compare_data(&[0x11, 0x22, 0x33], byte_mask, b"oxr"));
    assert!(!compare_data(&[0x11, 0xFF, 0x33], byte_mask, b"oxr"));
}

#[test]
fn scan_buffer_finds_4byte_value() {
    let buffer = &[0x00u8, 0x00, 0x8B, 0x78, 0x56, 0x34, 0x12, 0xFF, 0x00];
    let byte_mask = &[0x8Bu8, 0xAA, 0xBB, 0xCC, 0xDD, 0xFF];
    let char_mask = b"xttttx";
    assert_eq!(scan_buffer_for_pointer(buffer, byte_mask, char_mask, 0, None), 0x12345678);
}

#[test]
fn scan_buffer_threshold_rejects_large_value() {
    let buffer = &[0x8Bu8, 0x00, 0x00, 0x00, 0x30, 0xFF];
    let byte_mask = &[0x8Bu8, 0xAA, 0xBB, 0xCC, 0xDD, 0xFF];
    let char_mask = b"xttttx";
    assert_eq!(scan_buffer_for_pointer(buffer, byte_mask, char_mask, 0, None), 0);
}

#[test]
fn scan_buffer_no_match_returns_zero() {
    let buffer = &[0x00u8; 16];
    let byte_mask = &[0xFFu8, 0xFF];
    let char_mask = b"xx";
    assert_eq!(scan_buffer_for_pointer(buffer, byte_mask, char_mask, 0, None), 0);
}

#[test]
fn parse_escape_bytes_decodes_hex_sequences() {
    let bytes = parse_escape_bytes(r"\x6A\x20\x8B");
    assert_eq!(bytes, &[0x6A, 0x20, 0x8B]);
}

#[test]
fn parse_escape_bytes_ignores_non_escape_chars() {
    let bytes = parse_escape_bytes("hello\\x41world\\x42");
    assert_eq!(bytes, &[0x41, 0x42]);
}

#[test]
fn unix_to_date_epoch() {
    assert_eq!(unix_to_date(0), "01/01/1970");
}

#[test]
fn unix_to_date_known_date() {
    assert_eq!(unix_to_date(1_239_753_600), "04/15/2009");
}

#[test]
fn unix_to_date_leap_day() {
    // 2024-02-29
    assert_eq!(unix_to_date(1_709_164_800), "02/29/2024");
}
