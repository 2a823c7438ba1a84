use bevy_serialport::codec::RawCodec;
use bevy_serialport::inbound::InboundRecord;
use bevy_serialport::port_id::compare_ids;
use bevy_serialport::registry::{PortRegistry, SerialData};
use bytes::{Bytes, BytesMut};
use std::cmp::Ordering;
use std::sync::Mutex;

fn ids_of<W>(reg: &PortRegistry<W>) -> Vec<String> {
    (0..reg.len()).map(|i| reg.id_at(i).clone()).collect()
}

fn events(es: &[SerialData]) -> Vec<(String, Vec<u8>)> {
    es.iter().map(|e| (e.port.clone(), e.data.to_vec())).collect()
}

#[test]
fn identifier_order() {
    assert_eq!(compare_ids("a", "b"), Ordering::Less);
    assert_eq!(compare_ids("ab", "b"), Ordering::Less);
    assert_eq!(compare_ids("b", "ab"), Ordering::Greater);
    assert_eq!(compare_ids("", "a"), Ordering::Less);
    assert_eq!(compare_ids("COM1", "COM1"), Ordering::Equal);
    assert_eq!(compare_ids("COM1", "COM10"), Ordering::Less);
    assert_eq!(compare_ids("z", "\u{e9}"), Ordering::Less);
    assert_eq!(compare_ids("z", "\u{e9}"), "z".cmp("\u{e9}"));
}

#[test]
fn ports_are_kept_in_identifier_order() {
    let mut reg: PortRegistry<u32> = PortRegistry::new();
    reg.insert(String::from("/dev/ttyS2"), 2);
    reg.insert(String::from("/dev/ttyS0"), 0);
    reg.insert(String::from("/dev/ttyS1"), 1);
    assert_eq!(ids_of(&reg), vec!["/dev/ttyS0", "/dev/ttyS1", "/dev/ttyS2"]);
    assert_eq!(*reg.worker_at(0), 0);
    assert_eq!(*reg.worker_at(2), 2);
}

#[test]
fn reopening_replaces_the_worker() {
    let mut reg: PortRegistry<u32> = PortRegistry::new();
    reg.insert(String::from("a"), 1);
    reg.insert(String::from("b"), 2);
    reg.insert(String::from("a"), 7);
    assert_eq!(reg.len(), 2);
    assert_eq!(reg.get("a"), Some(&7));
    assert_eq!(reg.get("b"), Some(&2));
    assert_eq!(reg.position("b"), Some(1));
}

#[test]
fn unknown_port_has_no_worker() {
    let mut reg: PortRegistry<u32> = PortRegistry::new();
    assert_eq!(reg.get("nothing"), None);
    reg.insert(String::from("a"), 1);
    assert_eq!(reg.get("nothing"), None);
    assert_eq!(reg.position("nothing"), None);
    assert_eq!(reg.len(), 1);
    let es = reg.collect_events(vec![Vec::new()]);
    assert!(es.is_empty());
}

#[test]
fn events_come_port_by_port_in_order() {
    let mut reg: PortRegistry<()> = PortRegistry::new();
    reg.insert(String::from("Y"), ());
    reg.insert(String::from("X"), ());
    let drained = vec![
        vec![Bytes::from_static(b"x1"), Bytes::from_static(b"x2")],
        vec![Bytes::from_static(b"y1")],
    ];
    let es = reg.collect_events(drained);
    assert_eq!(
        events(&es),
        vec![
            (String::from("X"), b"x1".to_vec()),
            (String::from("X"), b"x2".to_vec()),
            (String::from("Y"), b"y1".to_vec()),
        ]
    );
}

#[test]
fn events_of_one_port_hold_only_its_bytes() {
    let mut reg: PortRegistry<()> = PortRegistry::new();
    reg.insert(String::from("X"), ());
    reg.insert(String::from("Y"), ());
    let es = reg.collect_events(vec![Vec::new(), vec![Bytes::from_static(b"only-y")]]);
    assert!(es.iter().all(|e| e.port != "X"));
    assert_eq!(events(&es), vec![(String::from("Y"), b"only-y".to_vec())]);
}

/// Two linked ports: what is written on one is read on the other.
fn deliver(reg: &PortRegistry<Mutex<InboundRecord>>, to: &str, payload: Bytes) {
    let mut codec = RawCodec;
    let mut wire = BytesMut::new();
    codec.encode(payload, &mut wire).unwrap();
    if let Some(chunk) = codec.decode(&mut wire).unwrap() {
        reg.get(to).unwrap().lock().unwrap().append(chunk);
    }
}

/// One foreground tick: drain every port in order and batch the events.
fn tick(reg: &PortRegistry<Mutex<InboundRecord>>) -> Vec<SerialData> {
    let drained = (0..reg.len())
        .map(|i| reg.worker_at(i).lock().unwrap().drain_received())
        .collect();
    reg.collect_events(drained)
}

fn linked_pair() -> PortRegistry<Mutex<InboundRecord>> {
    let mut reg = PortRegistry::new();
    reg.insert(String::from("ttyA"), Mutex::new(InboundRecord::new()));
    reg.insert(String::from("ttyB"), Mutex::new(InboundRecord::new()));
    reg
}

#[test]
fn sent_payload_arrives_once_on_the_linked_port() {
    let reg = linked_pair();
    assert!(reg.get("ttyA").is_some());
    deliver(&reg, "ttyB", Bytes::from_static(b"123457"));
    let es = tick(&reg);
    assert_eq!(events(&es), vec![(String::from("ttyB"), b"123457".to_vec())]);
    assert!(tick(&reg).is_empty());
}

#[test]
fn two_sends_give_two_events() {
    let reg = linked_pair();
    deliver(&reg, "ttyB", Bytes::from_static(b"123457"));
    deliver(&reg, "ttyB", Bytes::from_static(b"123457"));
    let es = tick(&reg);
    assert_eq!(
        events(&es),
        vec![
            (String::from("ttyB"), b"123457".to_vec()),
            (String::from("ttyB"), b"123457".to_vec()),
        ]
    );
}

#[test]
fn echoed_chunks_keep_write_order() {
    let reg = linked_pair();
    for payload in [&b"A"[..], &b"B"[..], &b"C"[..]] {
        deliver(&reg, "ttyA", Bytes::copy_from_slice(payload));
    }
    let es = tick(&reg);
    assert_eq!(
        events(&es),
        vec![
            (String::from("ttyA"), b"A".to_vec()),
            (String::from("ttyA"), b"B".to_vec()),
            (String::from("ttyA"), b"C".to_vec()),
        ]
    );
}

#[test]
fn send_to_unknown_port_gives_no_event() {
    let reg = linked_pair();
    assert!(reg.get("ttyZ").is_none());
    assert!(tick(&reg).is_empty());
}
