use fsedump::hub::BroadcastHub;
use fsedump::record::Record;

fn rec(path: &str, id: u64) -> Record {
    Record {
        path: path.to_string(),
        event_id: id,
        flag: 0,
        flags: String::new(),
        alt_flags: String::new(),
        node_id: None,
        extra_id: None,
    }
}

fn drain(hub: &mut BroadcastHub, c: usize) -> Vec<(String, u64)> {
    let mut seen = Vec::new();
    while let Some(r) = hub.recv(c) {
        seen.push((r.path, r.event_id));
    }
    seen
}

#[test]
fn every_consumer_observes_every_push_in_order() {
    let mut hub = BroadcastHub::new(16);
    let c1 = hub.register();
    let c2 = hub.register();
    let c3 = hub.register();
    for i in 0..10u64 {
        hub.push(rec(&format!("/f{}", i), i)).unwrap();
    }
    let s1 = drain(&mut hub, c1);
    let s2 = drain(&mut hub, c2);
    let s3 = drain(&mut hub, c3);
    assert_eq!(s1.len(), 10);
    assert_eq!(s1, s2);
    assert_eq!(s1, s3);
    for (i, (path, id)) in s1.iter().enumerate() {
        assert_eq!(*id, i as u64);
        assert_eq!(path, &format!("/f{}", i));
    }
}

#[test]
fn full_consumer_buffer_refuses_the_push() {
    let mut hub = BroadcastHub::new(2);
    let slow = hub.register();
    let fast = hub.register();
    hub.push(rec("/a", 1)).unwrap();
    hub.push(rec("/b", 2)).unwrap();
    // The fast consumer drains; the slow one sits at capacity, so the next
    // push is handed back until the slow consumer takes something out.
    assert!(hub.recv(fast).is_some());
    assert!(hub.recv(fast).is_some());
    let refused = hub.push(rec("/c", 3));
    assert!(refused.is_err());
    assert_eq!(refused.unwrap_err().event_id, 3);
    assert!(hub.recv(slow).is_some());
    hub.push(rec("/c", 3)).unwrap();
    assert_eq!(drain(&mut hub, slow), vec![("/b".to_string(), 2), ("/c".to_string(), 3)]);
    assert_eq!(drain(&mut hub, fast), vec![("/c".to_string(), 3)]);
}

#[test]
fn late_registration_sees_nothing_retroactively() {
    let mut hub = BroadcastHub::new(8);
    let early = hub.register();
    hub.push(rec("/before", 1)).unwrap();
    let late = hub.register();
    hub.push(rec("/after", 2)).unwrap();
    assert_eq!(
        drain(&mut hub, early),
        vec![("/before".to_string(), 1), ("/after".to_string(), 2)]
    );
    assert_eq!(drain(&mut hub, late), vec![("/after".to_string(), 2)]);
}

#[test]
fn empty_buffer_receives_nothing() {
    let mut hub = BroadcastHub::new(4);
    let c = hub.register();
    assert!(hub.recv(c).is_none());
    hub.push(rec("/x", 9)).unwrap();
    assert_eq!(hub.recv(c).unwrap().event_id, 9);
    assert!(hub.recv(c).is_none());
}
