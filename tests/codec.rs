use bevy_serialport::codec::RawCodec;
use bytes::{Bytes, BytesMut};

#[test]
fn decode_takes_everything_buffered() {
    let mut codec = RawCodec;
    let mut buf = BytesMut::from(&b"hello"[..]);
    let chunk = codec.decode(&mut buf).unwrap();
    assert_eq!(chunk, Some(Bytes::from_static(b"hello")));
    assert!(buf.is_empty());
}

#[test]
fn decode_empty_gives_nothing_and_leaves_buffer() {
    let mut codec = RawCodec;
    let mut buf = BytesMut::new();
    let chunk = codec.decode(&mut buf).unwrap();
    assert_eq!(chunk, None);
    assert!(buf.is_empty());
}

#[test]
fn encode_appends_verbatim() {
    let mut codec = RawCodec;
    let mut buf = BytesMut::from(&b"ab"[..]);
    codec.encode(Bytes::from_static(b"cd"), &mut buf).unwrap();
    assert_eq!(&buf[..], b"abcd");
}

#[test]
fn encode_then_decode_round_trips() {
    let mut codec = RawCodec;
    let mut buf = BytesMut::new();
    let payload = Bytes::from_static(&[0u8, 1, 2, 255, 10, 13]);
    codec.encode(payload.clone(), &mut buf).unwrap();
    let chunk = codec.decode(&mut buf).unwrap();
    assert_eq!(chunk, Some(payload));
    assert!(buf.is_empty());
    assert_eq!(codec.decode(&mut buf).unwrap(), None);
}

#[test]
fn two_encodes_coalesce_into_one_chunk() {
    let mut codec = RawCodec;
    let mut buf = BytesMut::new();
    codec.encode(Bytes::from_static(b"123"), &mut buf).unwrap();
    codec.encode(Bytes::from_static(b"457"), &mut buf).unwrap();
    assert_eq!(codec.decode(&mut buf).unwrap(), Some(Bytes::from_static(b"123457")));
}
