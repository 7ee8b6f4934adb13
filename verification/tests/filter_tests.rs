use fsedump::file_parser::parse_file;
use fsedump::flags::FlagCodec;
use fsedump::record::{EventFilter, FilterError, PathFilter, Record, RecordFilter};

fn record_with(path: &str, flag: u32) -> Record {
    Record {
        path: path.to_string(),
        event_id: 1,
        flag,
        flags: String::new(),
        alt_flags: String::new(),
        node_id: None,
        extra_id: None,
    }
}

const MODIFIED: u32 = 0x1000_0000;
const RENAMED: u32 = 0x0800_0000;
const FILE_EVENT: u32 = 0x0000_8000;
const CREATED: u32 = 0x0100_0000;

#[test]
fn any_flags_accepts_any_match_and_rejects_others() {
    let filt = EventFilter::new(None, &vec!["Modified".to_string()], &Vec::new()).unwrap();
    assert!(filt.accepts(&record_with("/x", MODIFIED | RENAMED)));
    assert!(!filt.accepts(&record_with("/x", RENAMED)));
}

#[test]
fn all_flags_requires_every_named_bit() {
    let filt = EventFilter::new(
        None,
        &Vec::new(),
        &vec!["Modified".to_string(), "FileEvent".to_string()],
    )
    .unwrap();
    assert!(!filt.accepts(&record_with("/x", MODIFIED)));
    assert!(!filt.accepts(&record_with("/x", FILE_EVENT)));
    assert!(filt.accepts(&record_with("/x", MODIFIED | FILE_EVENT)));
    assert!(filt.accepts(&record_with("/x", MODIFIED | FILE_EVENT | CREATED)));
}

#[test]
fn empty_filter_accepts_everything() {
    let filt = EventFilter::new(None, &Vec::new(), &Vec::new()).unwrap();
    assert!(filt.accepts(&record_with("/anything", 0)));
    assert!(filt.accepts(&record_with("", MODIFIED)));
}

#[test]
fn unknown_flag_name_fails_construction() {
    let r = EventFilter::new(None, &vec!["NotAFlag".to_string()], &Vec::new());
    assert!(matches!(r, Err(FilterError::UnknownFlag)));
    let r2 = EventFilter::new(None, &Vec::new(), &vec!["AlsoNot".to_string()]);
    assert!(matches!(r2, Err(FilterError::UnknownFlag)));
}

#[test]
fn bad_pattern_fails_construction() {
    let r = EventFilter::new(Some("(".to_string()), &Vec::new(), &Vec::new());
    assert!(matches!(r, Err(FilterError::BadPattern)));
    let r2 = PathFilter::new("(".to_string());
    assert!(matches!(r2, Err(FilterError::BadPattern)));
}

#[test]
fn path_filter_matches_by_pattern() {
    let filt = PathFilter::new("^/tmp/".to_string()).unwrap();
    assert!(filt.filter(&record_with("/tmp/x", 0)));
    assert!(!filt.filter(&record_with("/var/x", 0)));
}

#[test]
fn combined_filter_needs_mask_and_pattern() {
    let filt = EventFilter::new(
        Some("^/tmp/".to_string()),
        &vec!["Modified".to_string()],
        &Vec::new(),
    )
    .unwrap();
    assert!(filt.accepts(&record_with("/tmp/x", MODIFIED)));
    assert!(!filt.accepts(&record_with("/tmp/x", RENAMED)));
    assert!(!filt.accepts(&record_with("/var/x", MODIFIED)));
}

#[test]
fn filtering_gates_delivery_but_not_length_accounting() {
    // A page holding one Modified and one Renamed record, with a filter that
    // accepts only Modified: the page still closes cleanly because the
    // rejected record's bytes count toward the declared length.
    let mut payload = Vec::new();
    for (path, flag, id) in [("/keep", MODIFIED, 1u64), ("/drop", RENAMED, 2u64)] {
        payload.extend_from_slice(path.as_bytes());
        payload.push(0);
        payload.extend_from_slice(&id.to_be_bytes());
        payload.extend_from_slice(&flag.to_be_bytes());
    }
    let mut stream = Vec::new();
    stream.extend_from_slice(b"1SLD");
    stream.extend_from_slice(&[0u8; 4]);
    stream.extend_from_slice(&((12 + payload.len()) as u32).to_le_bytes());
    stream.extend_from_slice(&payload);

    let filt = EventFilter::new(None, &vec!["Modified".to_string()], &Vec::new()).unwrap();
    let mut codec = FlagCodec::new();
    let out = parse_file(&stream, &filt, &mut codec);
    assert_eq!(out.error, None);
    assert_eq!(out.records.len(), 1);
    assert_eq!(out.records[0].path, "/keep");
}
