use bytes::Bytes;
use qmux::proto::record::{wrap, Deframer};
use qmux::transport_error::PROTOCOL_VIOLATION;
use qmux::varint::VarInt;

#[test]
fn split_delivery() {
    let record = wrap(&[1, 2, 3, 4, 5]);
    let mut deframer = Deframer::default();
    for chunk in record.chunks(2) {
        deframer.push(chunk);
    }
    assert_eq!(
        deframer.next(16382).unwrap().unwrap(),
        Bytes::from_static(&[1, 2, 3, 4, 5])
    );
    assert!(deframer.next(16382).unwrap().is_none());
}

#[test]
fn multiple_records() {
    let mut deframer = Deframer::default();
    deframer.push(&wrap(b"aa"));
    deframer.push(&wrap(b"bbb"));
    assert_eq!(deframer.next(16382).unwrap().unwrap(), &b"aa"[..]);
    assert_eq!(deframer.next(16382).unwrap().unwrap(), &b"bbb"[..]);
    assert!(deframer.next(16382).unwrap().is_none());
}

#[test]
fn oversized_record() {
    let mut deframer = Deframer::default();
    deframer.push(&wrap(&[0; 100]));
    assert!(deframer.next(50).is_err());
}

#[test]
fn incomplete_record_waits_octet_by_octet() {
    let payload = vec![9u8; 300];
    let record = wrap(&payload);
    // Two octets of Size: 0x4000 + 300
    assert_eq!(&record[..2], &[0x41, 0x2c]);
    let mut deframer = Deframer::default();
    for octet in record.iter() {
        assert!(deframer.next(16382).unwrap().is_none());
        deframer.push(&[*octet]);
    }
    assert_eq!(deframer.buffered(), 302);
    assert_eq!(deframer.next(16382).unwrap().unwrap(), Bytes::from(payload));
    assert_eq!(deframer.buffered(), 0);
}

#[test]
fn oversized_record_is_refused_by_its_size_alone() {
    let mut deframer = Deframer::default();
    deframer.push(&[0x40, 51]);
    let error = deframer.next(50).unwrap_err();
    assert_eq!(error.code, VarInt::from_u32(PROTOCOL_VIOLATION));
    assert_eq!(error.reason, "record exceeds max_record_size");
    // The limit itself is still accepted
    let mut deframer = Deframer::default();
    deframer.push(&wrap(&[0; 50]));
    assert_eq!(deframer.next(50).unwrap().unwrap().len(), 50);
}

#[test]
fn empty_record() {
    let record = wrap(&[]);
    assert_eq!(&record[..], &[0u8]);
    let mut deframer = Deframer::default();
    deframer.push(&record);
    assert!(deframer.next(0).unwrap().unwrap().is_empty());
}
