use bevy_serialport::inbound::InboundRecord;
use bytes::Bytes;

#[test]
fn new_record_is_empty() {
    let mut rec = InboundRecord::new();
    assert_eq!(rec.len(), 0);
    assert!(rec.drain_received().is_empty());
}

#[test]
fn drain_keeps_arrival_order() {
    let mut rec = InboundRecord::new();
    rec.append(Bytes::from_static(b"A"));
    rec.append(Bytes::from_static(b"B"));
    rec.append(Bytes::from_static(b"C"));
    assert_eq!(rec.len(), 3);
    let got = rec.drain_received();
    assert_eq!(
        got,
        vec![Bytes::from_static(b"A"), Bytes::from_static(b"B"), Bytes::from_static(b"C")]
    );
}

#[test]
fn second_drain_is_empty() {
    let mut rec = InboundRecord::new();
    rec.append(Bytes::from_static(b"xyz"));
    let first = rec.drain_received();
    assert_eq!(first, vec![Bytes::from_static(b"xyz")]);
    let second = rec.drain_received();
    assert!(second.is_empty());
    assert_eq!(rec.len(), 0);
}

#[test]
fn arrivals_after_drain_are_kept() {
    let mut rec = InboundRecord::new();
    rec.append(Bytes::from_static(b"1"));
    assert_eq!(rec.drain_received().len(), 1);
    rec.append(Bytes::from_static(b"2"));
    assert_eq!(rec.drain_received(), vec![Bytes::from_static(b"2")]);
}
