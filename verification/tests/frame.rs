use bytes::Bytes;
use qmux::proto::frame::{
    datagram_frame_size, encode_close, encode_datagram, encode_ping, encode_transport_parameters,
    ping_size, varint_size, Close, Frame,
};
use qmux::stream_id::Dir;
use qmux::transport_error::FRAME_ENCODING_ERROR;
use qmux::varint::VarInt;

fn one(octets: &'static [u8]) -> Frame {
    let mut buf = Bytes::from_static(octets);
    let frame = Frame::decode(&mut buf).unwrap().unwrap();
    assert!(buf.is_empty());
    frame
}

fn refused(octets: &'static [u8]) -> String {
    let error = Frame::decode(&mut Bytes::from_static(octets)).unwrap_err();
    assert_eq!(error.code, VarInt::from_u32(FRAME_ENCODING_ERROR));
    error.reason
}

#[test]
fn every_frame_decodes() {
    assert!(matches!(
        one(&[0x0f, 0x02, 0x40, 0x40, 0x02, b'h', b'i']),
        Frame::Stream(s) if s.offset == 64 && s.fin && s.data.as_ref() == b"hi"
    ));
    assert!(matches!(
        one(&[0x08, 0x02, b'h', b'i']),
        Frame::Stream(s) if s.offset == 0 && !s.fin && s.data.as_ref() == b"hi"
    ));
    assert!(matches!(
        one(&[0x04, 0x02, 0x07, 0x09]),
        Frame::ResetStream(r) if r.error_code == VarInt::from_u32(7)
    ));
    assert!(matches!(
        one(&[0x24, 0x02, 0x07, 0x09, 0x09]),
        Frame::ResetStreamAt(r) if r.final_offset == VarInt::from_u32(9)
    ));
    assert!(matches!(
        one(&[0x05, 0x02, 0x07]),
        Frame::StopSending { error_code, .. } if error_code == VarInt::from_u32(7)
    ));
    assert!(matches!(one(&[0x10, 0x07]), Frame::MaxData(v) if v == VarInt::from_u32(7)));
    assert!(matches!(
        one(&[0x11, 0x02, 0x07]),
        Frame::MaxStreamData { offset, .. } if offset == VarInt::from_u32(7)
    ));
    assert!(matches!(one(&[0x12, 0x07]), Frame::MaxStreams { dir: Dir::Bi, .. }));
    assert!(matches!(one(&[0x13, 0x07]), Frame::MaxStreams { dir: Dir::Uni, .. }));
    assert!(matches!(
        one(&[0x14, 0x07]),
        Frame::DataBlocked { offset } if offset == VarInt::from_u32(7)
    ));
    assert!(matches!(one(&[0x15, 0x02, 0x07]), Frame::StreamDataBlocked { .. }));
    assert!(matches!(one(&[0x16, 0x07]), Frame::StreamsBlocked { dir: Dir::Bi, .. }));
    assert!(matches!(one(&[0x17, 0x07]), Frame::StreamsBlocked { dir: Dir::Uni, .. }));
    assert!(matches!(
        one(&[0x1c, 0x0a, 0x10, 0x01, b'x']),
        Frame::Close(c) if !c.is_application && c.frame_type == Some(VarInt::from_u32(0x10))
    ));
    assert!(matches!(
        one(&[0x1d, 0x0a, 0x01, b'x']),
        Frame::Close(c) if c.is_application && c.frame_type.is_none() && c.reason.as_ref() == b"x"
    ));
    assert!(matches!(one(&[0x30, b'x', b'y']), Frame::Datagram(d) if d.as_ref() == b"xy"));
    assert!(matches!(one(&[0x31, 0x01, b'x']), Frame::Datagram(d) if d.as_ref() == b"x"));
}

#[test]
fn malformed_frames_are_refused() {
    assert_eq!(refused(&[0x40]), "truncated frame");
    assert_eq!(refused(&[0x0e, 0x02, 0x00, 0x03, b'h']), "truncated frame");
    assert_eq!(refused(&[0x1c, 0x0a, 0x10, 0x02, b'x']), "truncated frame");
    assert_eq!(
        refused(&[0x24, 0x02, 0x07, 0x09, 0x0a]),
        "RESET_STREAM_AT reliable size exceeds final size"
    );
    assert_eq!(refused(&[0x01]), "prohibited or unknown frame type 0x1");
    assert_eq!(refused(&[0x42, 0xab]), "prohibited or unknown frame type 0x2ab");
}

#[test]
fn padding_is_skipped() {
    let mut buf = Bytes::from_static(&[0, 0, 0, 0x10, 0x07, 0, 0]);
    assert!(matches!(Frame::decode(&mut buf).unwrap(), Some(Frame::MaxData(_))));
    assert!(Frame::decode(&mut buf).unwrap().is_none());
    assert!(Frame::decode(&mut Bytes::new()).unwrap().is_none());
}

#[test]
fn encoders_round_trip() {
    let mut buf = Vec::new();
    encode_transport_parameters(&mut buf, b"abc");
    assert_eq!(&buf[..8], &[0xff, 0x51, 0x53, 0x30, 0x0d, 0x0a, 0x0d, 0x0a]);
    let start = buf.len();
    encode_ping(&mut buf, true, VarInt::from_u32(100));
    assert_eq!(buf.len() - start, ping_size(VarInt::from_u32(100)));
    let start = buf.len();
    encode_datagram(&mut buf, b"hi");
    assert_eq!((buf.len() - start) as u128, datagram_frame_size(2));
    encode_close(
        &mut buf,
        &Close {
            is_application: true,
            error_code: VarInt::from_u32(3),
            frame_type: None,
            reason: Bytes::from_static(b"bye"),
        },
    );
    encode_close(
        &mut buf,
        &Close {
            is_application: false,
            error_code: VarInt::from_u32(10),
            frame_type: None,
            reason: Bytes::from_static(b"bad"),
        },
    );
    let mut buf = Bytes::from(buf);
    assert!(matches!(
        Frame::decode(&mut buf).unwrap(),
        Some(Frame::TransportParameters(b)) if b.as_ref() == b"abc"
    ));
    assert!(matches!(
        Frame::decode(&mut buf).unwrap(),
        Some(Frame::PingResponse(s)) if s == VarInt::from_u32(100)
    ));
    assert!(matches!(
        Frame::decode(&mut buf).unwrap(),
        Some(Frame::Datagram(d)) if d.as_ref() == b"hi"
    ));
    assert!(matches!(
        Frame::decode(&mut buf).unwrap(),
        Some(Frame::Close(c)) if c.is_application && c.reason.as_ref() == b"bye"
    ));
    assert!(matches!(
        Frame::decode(&mut buf).unwrap(),
        Some(Frame::Close(c)) if c.frame_type == Some(VarInt::from_u32(0))
            && c.reason.as_ref() == b"bad"
    ));
    assert!(Frame::decode(&mut buf).unwrap().is_none());
}

#[test]
fn sizes() {
    assert_eq!(varint_size(63), 1);
    assert_eq!(varint_size(64), 2);
    assert_eq!(varint_size(1 << 14), 4);
    assert_eq!(varint_size(1 << 30), 8);
    assert_eq!(datagram_frame_size(0), 2);
    assert_eq!(datagram_frame_size(64), 67);
    assert_eq!(datagram_frame_size(16384), 16389);
}
