use qmux::stream_id::{Dir, Side, StreamId};
use qmux::text::{decimal, hexadecimal};
use qmux::time::{Duration, Instant};
use qmux::varint::{VarInt, VarIntBoundsExceeded};

fn encoded(x: u64) -> Vec<u8> {
    let mut buf = Vec::new();
    VarInt::from_u64(x).unwrap().encode(&mut buf);
    buf
}

#[test]
fn encodings_have_the_shortest_length() {
    assert_eq!(encoded(0), vec![0]);
    assert_eq!(encoded(63), vec![0x3f]);
    assert_eq!(encoded(64), vec![0x40, 0x40]);
    assert_eq!(encoded(16383), vec![0x7f, 0xff]);
    assert_eq!(encoded(16384), vec![0x80, 0, 0x40, 0]);
    assert_eq!(encoded((1 << 30) - 1), vec![0xbf, 0xff, 0xff, 0xff]);
    assert_eq!(encoded(1 << 30), vec![0xc0, 0, 0, 0, 0x40, 0, 0, 0]);
    assert_eq!(encoded((1 << 62) - 1), vec![0xff; 8]);
    for x in [0u64, 63, 64, 16383, 16384, (1 << 30) - 1, 1 << 30, (1 << 62) - 1] {
        let v = VarInt::from_u64(x).unwrap();
        assert_eq!(v.size(), encoded(x).len());
        let mut s = encoded(x);
        s.extend_from_slice(b"rest");
        assert_eq!(VarInt::decode(&s), Some((v, s.len() - 4)));
    }
}

#[test]
fn integers_out_of_range_are_refused() {
    assert_eq!(VarInt::from_u64(1 << 62), Err(VarIntBoundsExceeded));
    assert_eq!(VarInt::from_u64(u64::MAX), Err(VarIntBoundsExceeded));
    assert_eq!(VarInt::max().into_inner(), (1 << 62) - 1);
}

#[test]
fn truncated_integers_are_refused() {
    assert_eq!(VarInt::decode(&[]), None);
    assert_eq!(VarInt::decode(&[0x40]), None);
    assert_eq!(VarInt::decode(&[0x80, 0, 0]), None);
    assert_eq!(VarInt::decode(&[0xc0, 0, 0, 0, 0, 0, 0]), None);
    // Longer encodings than necessary are accepted
    assert_eq!(VarInt::decode(&[0x40, 0x05]), Some((VarInt::from_u32(5), 2)));
}

#[test]
fn stream_identifiers() {
    let id = StreamId::new(Side::Server, Dir::Uni, 5);
    assert_eq!(id.0.into_inner(), 23);
    assert_eq!(id.initiator(), Side::Server);
    assert_eq!(id.dir(), Dir::Uni);
    assert!(id.receivable_by(Side::Client));
    assert!(!id.receivable_by(Side::Server));
    assert!(id.sendable_by(Side::Server));
    assert!(!id.sendable_by(Side::Client));
    let id = StreamId::new(Side::Client, Dir::Bi, 0);
    assert_eq!(id.0.into_inner(), 0);
    assert!(id.receivable_by(Side::Client) && id.sendable_by(Side::Server));
}

#[test]
fn numerals() {
    assert_eq!(decimal(0), "0");
    assert_eq!(decimal(u64::MAX), "18446744073709551615");
    assert_eq!(hexadecimal(0), "0x0");
    assert_eq!(hexadecimal(0x348c_6752_9ef8_c7bd), "0x348c67529ef8c7bd");
}

#[test]
fn spans_and_points() {
    assert_eq!(Duration::from_secs(3).third().as_millis(), 1000);
    assert_eq!(Duration::from_millis(5).as_nanos(), 5_000_000);
    assert!(Duration::from_nanos(u128::MAX).is_none());
    let t = Instant { nanos: 7 }.after(Duration::from_secs(1));
    assert_eq!(t, Instant { nanos: 1_000_000_007 });
}
