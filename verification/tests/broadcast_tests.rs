use bus::Bus;
use fsedump::file_parser::parse_file;
use fsedump::flags::FlagCodec;
use fsedump::record::{NoRecordFilter, Record};

fn sample_stream(n: u64) -> Vec<u8> {
    let mut payload = Vec::new();
    for i in 0..n {
        let path = format!("/file/{}", i);
        payload.extend_from_slice(path.as_bytes());
        payload.push(0);
        payload.extend_from_slice(&i.to_be_bytes());
        payload.extend_from_slice(&0x0100_0000u32.to_be_bytes());
    }
    let mut stream = Vec::new();
    stream.extend_from_slice(b"1SLD");
    stream.extend_from_slice(&[0u8; 4]);
    stream.extend_from_slice(&((12 + payload.len()) as u32).to_le_bytes());
    stream.extend_from_slice(&payload);
    stream
}

#[test]
fn consumers_see_identical_record_sequences() {
    // Three independently-registered consumers each observe the identical
    // count and the identical sequence of records pushed by one producer.
    let stream = sample_stream(40);
    let mut codec = FlagCodec::new();
    let out = parse_file(&stream, &NoRecordFilter, &mut codec);
    assert_eq!(out.error, None);
    assert_eq!(out.records.len(), 40);

    let mut bus: Bus<Record> = Bus::new(64);
    let rx1 = bus.add_rx();
    let rx2 = bus.add_rx();
    let rx3 = bus.add_rx();
    for rec in &out.records {
        bus.broadcast(rec.clone());
    }
    drop(bus);

    let seen1: Vec<(String, u64)> = rx1.into_iter().map(|r| (r.path, r.event_id)).collect();
    let seen2: Vec<(String, u64)> = rx2.into_iter().map(|r| (r.path, r.event_id)).collect();
    let seen3: Vec<(String, u64)> = rx3.into_iter().map(|r| (r.path, r.event_id)).collect();
    assert_eq!(seen1.len(), 40);
    assert_eq!(seen1, seen2);
    assert_eq!(seen1, seen3);
    for (i, (path, id)) in seen1.iter().enumerate() {
        assert_eq!(*id, i as u64);
        assert_eq!(path, &format!("/file/{}", i));
    }
}

#[test]
fn late_registration_observes_nothing_retroactively() {
    let mut bus: Bus<Record> = Bus::new(8);
    let early = bus.add_rx();
    bus.broadcast(Record {
        path: "/before".to_string(),
        event_id: 1,
        flag: 0,
        flags: String::new(),
        alt_flags: String::new(),
        node_id: None,
        extra_id: None,
    });
    let late = bus.add_rx();
    bus.broadcast(Record {
        path: "/after".to_string(),
        event_id: 2,
        flag: 0,
        flags: String::new(),
        alt_flags: String::new(),
        node_id: None,
        extra_id: None,
    });
    drop(bus);

    let early_seen: Vec<u64> = early.into_iter().map(|r| r.event_id).collect();
    let late_seen: Vec<u64> = late.into_iter().map(|r| r.event_id).collect();
    assert_eq!(early_seen, vec![1, 2]);
    assert_eq!(late_seen, vec![2]);
}
