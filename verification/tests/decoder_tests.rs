use fsedump::file_parser::parse_file;
use fsedump::flags::FlagCodec;
use fsedump::record::NoRecordFilter;
use fsedump::version::{ParseError, Version, V1, V2, V3};

fn rec_v1_bytes(path: &[u8], event_id: u64, flags: u32) -> Vec<u8> {
    let mut v = Vec::new();
    v.extend_from_slice(path);
    v.push(0);
    v.extend_from_slice(&event_id.to_be_bytes());
    v.extend_from_slice(&flags.to_be_bytes());
    v
}

fn rec_v2_bytes(path: &[u8], event_id: u64, flags: u32, node_id: u64) -> Vec<u8> {
    let mut v = rec_v1_bytes(path, event_id, flags);
    v.extend_from_slice(&node_id.to_le_bytes());
    v
}

fn rec_v3_bytes(path: &[u8], event_id: u64, flags: u32, node_id: u64, extra: u32) -> Vec<u8> {
    let mut v = rec_v2_bytes(path, event_id, flags, node_id);
    v.extend_from_slice(&extra.to_le_bytes());
    v
}

fn page(tag: &[u8; 4], payload: &[u8]) -> Vec<u8> {
    let mut v = Vec::new();
    v.extend_from_slice(tag);
    v.extend_from_slice(&[0u8; 4]);
    v.extend_from_slice(&((12 + payload.len()) as u32).to_le_bytes());
    v.extend_from_slice(payload);
    v
}

#[test]
fn version_tags_are_recognized() {
    assert_eq!(Version::from_reader(b"1SLD", 0), Some(Version::Ver1));
    assert_eq!(Version::from_reader(b"2SLD", 0), Some(Version::Ver2));
    assert_eq!(Version::from_reader(b"3SLD", 0), Some(Version::Ver3));
    assert_eq!(Version::from_reader(b"4SLD", 0), None);
    assert_eq!(Version::from_reader(b"1SLX", 0), None);
}

#[test]
fn parsers_carry_their_layouts() {
    let p1 = Version::Ver1.get_parser();
    assert!(!p1.has_node_id && !p1.has_extra_id);
    let p2 = Version::Ver2.get_parser();
    assert!(p2.has_node_id && !p2.has_extra_id);
    let p3 = Version::Ver3.get_parser();
    assert!(p3.has_node_id && p3.has_extra_id);
    assert_eq!(V1::parser(), p1);
    assert_eq!(V2::parser(), p2);
    assert_eq!(V3::parser(), p3);
}

#[test]
fn round_trip_v1_record() {
    let mut codec = FlagCodec::new();
    let blob = rec_v1_bytes(b"/tmp/file", 0x0102_0304_0506_0708, 0x1000_0000);
    let (consumed, rec) = V1::parser()
        .parse_record(&blob, 0, &mut codec)
        .unwrap()
        .unwrap();
    assert_eq!(consumed, 9 + 1 + 8 + 4);
    assert_eq!(rec.path, "/tmp/file");
    assert_eq!(rec.event_id, 0x0102_0304_0506_0708);
    assert_eq!(rec.flag, 0x1000_0000);
    assert_eq!(rec.flags, "Modified");
    assert_eq!(rec.node_id, None);
    assert_eq!(rec.extra_id, None);
}

#[test]
fn round_trip_v2_record() {
    let mut codec = FlagCodec::new();
    let blob = rec_v2_bytes(b"/a", 7, 0x0100_0000, 0x1122_3344_5566_7788);
    let (consumed, rec) = V2::parser()
        .parse_record(&blob, 0, &mut codec)
        .unwrap()
        .unwrap();
    assert_eq!(consumed, 2 + 1 + 8 + 4 + 8);
    assert_eq!(rec.node_id, Some(0x1122_3344_5566_7788));
    assert_eq!(rec.flags, "Created");
    assert_eq!(rec.extra_id, None);
}

#[test]
fn round_trip_v3_record_consumes_exactly() {
    let mut codec = FlagCodec::new();
    let blob = rec_v3_bytes(b"/var/log", 9, 0x0200_0000, 5, 0xdead_beef);
    let (consumed, rec) = V3::parser()
        .parse_record(&blob, 0, &mut codec)
        .unwrap()
        .unwrap();
    assert_eq!(consumed, 8 + 1 + 8 + 4 + 8 + 4);
    assert_eq!(rec.node_id, Some(5));
    assert_eq!(rec.extra_id, Some(0xdead_beef));
    assert_eq!(rec.flags, "Removed");
}

#[test]
fn missing_terminator_ends_the_record_stream() {
    let mut codec = FlagCodec::new();
    let blob = b"no terminator here".to_vec();
    let r = V1::parser().parse_record(&blob, 0, &mut codec).unwrap();
    assert!(r.is_none());
    let empty: Vec<u8> = Vec::new();
    let r2 = V1::parser().parse_record(&empty, 0, &mut codec).unwrap();
    assert!(r2.is_none());
}

#[test]
fn short_fixed_fields_are_a_fatal_error() {
    let mut codec = FlagCodec::new();
    let mut blob = b"/x".to_vec();
    blob.push(0);
    blob.extend_from_slice(&[1, 2, 3, 4]);
    let r = V1::parser().parse_record(&blob, 0, &mut codec);
    assert_eq!(r.unwrap_err(), ParseError::Truncated);
}

#[test]
fn lossy_path_decoding_replaces_bad_bytes() {
    let mut codec = FlagCodec::new();
    let blob = rec_v1_bytes(&[0xff, b'A'], 1, 0);
    let (_, rec) = V1::parser()
        .parse_record(&blob, 0, &mut codec)
        .unwrap()
        .unwrap();
    assert_eq!(rec.path, "\u{FFFD}A");
}

#[test]
fn two_pages_decode_in_order() {
    let mut payload1 = rec_v1_bytes(b"/one", 1, 0x0100_0000);
    payload1.extend_from_slice(&rec_v1_bytes(b"/two", 2, 0x0200_0000));
    let mut payload2 = rec_v2_bytes(b"/three", 3, 0x1000_0000, 42);
    payload2.extend_from_slice(&rec_v2_bytes(b"/four", 4, 0x0100_0000, 43));
    let mut stream = page(b"1SLD", &payload1);
    stream.extend_from_slice(&page(b"2SLD", &payload2));

    let mut codec = FlagCodec::new();
    let out = parse_file(&stream, &NoRecordFilter, &mut codec);
    assert_eq!(out.error, None);
    assert_eq!(out.records.len(), 4);
    let ids: Vec<u64> = out.records.iter().map(|r| r.event_id).collect();
    assert_eq!(ids, vec![1, 2, 3, 4]);
    assert_eq!(out.records[0].node_id, None);
    assert_eq!(out.records[2].node_id, Some(42));
}

#[test]
fn corrupt_length_fails_without_losing_records() {
    let payload1 = rec_v1_bytes(b"/good", 1, 0x0100_0000);
    let payload2 = rec_v1_bytes(b"/bad", 2, 0x0100_0000);
    let mut stream = page(b"1SLD", &payload1);
    // The second page declares fewer bytes than its one record takes.
    let mut short_page = Vec::new();
    short_page.extend_from_slice(b"1SLD");
    short_page.extend_from_slice(&[0u8; 4]);
    short_page.extend_from_slice(&((12 + payload2.len() - 1) as u32).to_le_bytes());
    short_page.extend_from_slice(&payload2);
    stream.extend_from_slice(&short_page);

    let mut codec = FlagCodec::new();
    let out = parse_file(&stream, &NoRecordFilter, &mut codec);
    assert_eq!(out.error, Some(ParseError::PageLengthMismatch));
    // The first page's record, and the record decoded before the mismatch
    // was noticed, both stand.
    assert_eq!(out.records.len(), 2);
    assert_eq!(out.records[0].path, "/good");
    assert_eq!(out.records[1].path, "/bad");
}

#[test]
fn unrecognized_tag_is_fatal() {
    let payload = rec_v1_bytes(b"/one", 1, 0);
    let mut stream = page(b"1SLD", &payload);
    stream.extend_from_slice(&page(b"9SLD", &payload));
    let mut codec = FlagCodec::new();
    let out = parse_file(&stream, &NoRecordFilter, &mut codec);
    assert_eq!(out.error, Some(ParseError::UnsupportedVersion));
    assert_eq!(out.records.len(), 1);
}

#[test]
fn short_page_header_is_fatal() {
    let mut stream = page(b"1SLD", &rec_v1_bytes(b"/one", 1, 0));
    stream.extend_from_slice(b"1SLD\0\0");
    let mut codec = FlagCodec::new();
    let out = parse_file(&stream, &NoRecordFilter, &mut codec);
    assert_eq!(out.error, Some(ParseError::Truncated));
    assert_eq!(out.records.len(), 1);
}

#[test]
fn trailing_bytes_under_a_tag_are_a_clean_end() {
    let mut stream = page(b"1SLD", &rec_v1_bytes(b"/one", 1, 0));
    stream.extend_from_slice(&[0x31, 0x53]);
    let mut codec = FlagCodec::new();
    let out = parse_file(&stream, &NoRecordFilter, &mut codec);
    assert_eq!(out.error, None);
    assert_eq!(out.records.len(), 1);
}

#[test]
fn mixed_version_pages_end_to_end() {
    let mut p1 = rec_v1_bytes(b"/a", 1, 0x0100_0000);
    p1.extend_from_slice(&rec_v1_bytes(b"/b", 2, 0x0100_0000));
    let mut p2 = rec_v2_bytes(b"/c", 3, 0x1000_0000, 100);
    p2.extend_from_slice(&rec_v2_bytes(b"/d", 4, 0x1000_0000, 101));
    let p3 = rec_v3_bytes(b"/e", 5, 0x0200_0000, 102, 7);

    let mut stream = page(b"1SLD", &p1);
    stream.extend_from_slice(&page(b"2SLD", &p2));
    stream.extend_from_slice(&page(b"3SLD", &p3));

    let mut codec = FlagCodec::new();
    let out = parse_file(&stream, &NoRecordFilter, &mut codec);
    assert_eq!(out.error, None);
    assert_eq!(out.records.len(), 5);
    for rec in &out.records[..2] {
        assert!(rec.node_id.is_none());
    }
    for rec in &out.records[2..] {
        assert!(rec.node_id.is_some());
    }
    assert_eq!(out.records[4].extra_id, Some(7));
}
