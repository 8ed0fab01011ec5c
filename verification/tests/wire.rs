use bytes::Bytes;
use qmux::proto::quic::{EcnCounts, ProhibitedFrame, QuicFrame};
use qmux::proto::wire::{encode_ping, encode_transport_parameters, next_frame, ping_size, QmuxFrame};
use qmux::stream_id::{Dir, StreamId};
use qmux::streams::frame::{ApplicationClose, ConnectionClose, WireFrame};
use qmux::streams::reliable::Frame as StreamFrame;
use qmux::streams::wire::{
    decode, encode_application_close, encode_connection_close, encode_datagram, Frame,
};
use qmux::transport_error::{FRAME_ENCODING_ERROR, PROTOCOL_VIOLATION};
use qmux::varint::VarInt;

#[test]
fn wire_preserves_stream_offsets() {
    let mut payload = Bytes::from_static(&[0x0e, 0x02, 0x40, 0x40, 0x02, b'h', b'i']);
    assert!(matches!(
        decode(&mut payload).unwrap(),
        Frame::Stream(StreamFrame::Stream {
            id,
            offset: 64,
            fin: false,
            data,
        }) if id.0.into_inner() == 2 && data.as_ref() == b"hi"
    ));
    assert!(payload.is_empty());
}

#[test]
fn leaves_other_frame_bodies_untouched() {
    let mut payload = Bytes::from_static(&[
        0xff, 0x51, 0x53, 0x30, 0x0d, 0x0a, 0x0d, 0x0a, b'b', b'o', b'd', b'y',
    ]);
    assert!(matches!(
        decode(&mut payload).unwrap(),
        Frame::Other(ty) if ty.into_inner() == 0x3f51_5330_0d0a_0d0a
    ));
    assert_eq!(payload.as_ref(), b"body");
}

#[test]
fn carrier_codecs_round_trip() {
    let mut datagram = encode_datagram(Bytes::from_static(b"hi"));
    assert!(matches!(
        decode(&mut datagram).unwrap(),
        Frame::Datagram {
            data,
            encoded_size: 4,
        } if data.as_ref() == b"hi"
    ));

    let mut close = encode_application_close(VarInt::from_u32(42), Bytes::from_static(b"bye"));
    assert!(matches!(
        decode(&mut close).unwrap(),
        Frame::ApplicationClose(ApplicationClose {
            error_code,
            reason,
        }) if error_code == VarInt::from_u32(42) && reason.as_ref() == b"bye"
    ));

    let mut close = encode_connection_close(ConnectionClose {
        error_code: VarInt::from_u32(PROTOCOL_VIOLATION),
        frame_type: None,
        reason: Bytes::from_static(b"bad frame"),
    });
    assert!(matches!(
        decode(&mut close).unwrap(),
        Frame::ConnectionClose(ConnectionClose {
            error_code,
            frame_type: None,
            reason,
        }) if error_code == VarInt::from_u32(PROTOCOL_VIOLATION)
            && reason.as_ref() == b"bad frame"
    ));
}

#[test]
fn datagram_size_includes_non_minimal_frame_type() {
    let mut datagram = Bytes::from_static(&[0x40, 0x31, 0x02, b'h', b'i']);
    assert!(matches!(
        decode(&mut datagram).unwrap(),
        Frame::Datagram {
            data,
            encoded_size: 5,
        } if data.as_ref() == b"hi"
    ));
}

fn stream_frame(octets: &'static [u8]) -> StreamFrame {
    let mut payload = Bytes::from_static(octets);
    match decode(&mut payload).unwrap() {
        Frame::Stream(frame) => {
            assert!(payload.is_empty());
            frame
        }
        other => panic!("unexpected frame {other:?}"),
    }
}

#[test]
fn flow_control_frames() {
    assert!(matches!(
        stream_frame(&[0x04, 0x03, 0x07, 0x09]),
        StreamFrame::Reset { id, error_code, final_offset }
            if id == StreamId(VarInt::from_u32(3))
                && error_code == VarInt::from_u32(7)
                && final_offset == VarInt::from_u32(9)
    ));
    assert!(matches!(
        stream_frame(&[0x05, 0x03, 0x07]),
        StreamFrame::StopSending { id, error_code }
            if id == StreamId(VarInt::from_u32(3)) && error_code == VarInt::from_u32(7)
    ));
    assert!(matches!(stream_frame(&[0x10, 0x05]), StreamFrame::MaxData(v) if v.into_inner() == 5));
    assert!(matches!(
        stream_frame(&[0x11, 0x03, 0x07]),
        StreamFrame::MaxStreamData { id, offset: 7 } if id == StreamId(VarInt::from_u32(3))
    ));
    assert!(matches!(
        stream_frame(&[0x12, 0x07]),
        StreamFrame::MaxStreams { dir: Dir::Bi, count: 7 }
    ));
    assert!(matches!(
        stream_frame(&[0x13, 0x07]),
        StreamFrame::MaxStreams { dir: Dir::Uni, count: 7 }
    ));
    assert!(matches!(stream_frame(&[0x14, 0x07]), StreamFrame::DataBlocked { offset: 7 }));
    assert!(matches!(
        stream_frame(&[0x15, 0x03, 0x07]),
        StreamFrame::StreamDataBlocked { offset: 7, .. }
    ));
    assert!(matches!(
        stream_frame(&[0x16, 0x07]),
        StreamFrame::StreamsBlocked { dir: Dir::Bi, limit: 7 }
    ));
    assert!(matches!(
        stream_frame(&[0x17, 0x07]),
        StreamFrame::StreamsBlocked { dir: Dir::Uni, limit: 7 }
    ));
    // No offset, no length, end of the stream
    assert!(matches!(
        stream_frame(&[0x09, 0x02, b'x', b'y']),
        StreamFrame::Stream { offset: 0, fin: true, data, .. } if data.as_ref() == b"xy"
    ));
}

#[test]
fn truncated_frames_name_their_type() {
    let error = decode(&mut Bytes::new()).unwrap_err();
    assert_eq!(error.code, VarInt::from_u32(FRAME_ENCODING_ERROR));
    assert_eq!(error.frame, None);
    assert_eq!(error.reason, "unexpected end");
    let error = decode(&mut Bytes::from_static(&[0x05, 0x03])).unwrap_err();
    assert_eq!(error.frame, Some(VarInt::from_u32(0x05)));
    let error = decode(&mut Bytes::from_static(&[0x31, 0x03, b'h'])).unwrap_err();
    assert_eq!(error.frame, Some(VarInt::from_u32(0x31)));
}

#[test]
fn padding_and_open_ended_datagrams() {
    let mut payload = Bytes::from_static(&[0x00, 0x30, b'a', b'b']);
    assert!(matches!(decode(&mut payload).unwrap(), Frame::Padding));
    assert!(matches!(
        decode(&mut payload).unwrap(),
        Frame::Datagram { data, encoded_size: 3 } if data.as_ref() == b"ab"
    ));
    assert!(payload.is_empty());
}

#[test]
fn next_frame_intercepts_extensions() {
    let mut buf = Vec::new();
    encode_transport_parameters(&mut buf, b"blob");
    encode_ping(&mut buf, false, VarInt::from_u32(7));
    encode_ping(&mut buf, true, VarInt::from_u32(70));
    assert_eq!(ping_size(VarInt::from_u32(7)), 9);
    assert_eq!(ping_size(VarInt::from_u32(70)), 10);
    assert_eq!(buf.len(), 8 + 1 + 4 + 9 + 10);
    // RESET_STREAM_AT with a reliable size equal to the final size
    buf.extend_from_slice(&[0x24, 0x02, 0x01, 0x05, 0x05]);
    buf.extend_from_slice(&[0x10, 0x05]);
    buf.push(0x01);
    let mut payload = Bytes::from(buf);
    assert!(matches!(
        next_frame(&mut payload).unwrap(),
        Some(QmuxFrame::TransportParameters(blob)) if blob.as_ref() == b"blob"
    ));
    assert!(matches!(
        next_frame(&mut payload).unwrap(),
        Some(QmuxFrame::PingRequest(seq)) if seq == VarInt::from_u32(7)
    ));
    assert!(matches!(
        next_frame(&mut payload).unwrap(),
        Some(QmuxFrame::PingResponse(seq)) if seq == VarInt::from_u32(70)
    ));
    assert!(matches!(
        next_frame(&mut payload).unwrap(),
        Some(QmuxFrame::ResetStreamAt(reset)) if reset.final_offset == VarInt::from_u32(5)
    ));
    assert!(matches!(
        next_frame(&mut payload).unwrap(),
        Some(QmuxFrame::Quic(QuicFrame::Reliable(WireFrame::MaxData(max))))
            if max == VarInt::from_u32(5)
    ));
    assert!(matches!(
        next_frame(&mut payload).unwrap(),
        Some(QmuxFrame::Quic(QuicFrame::Prohibited(ProhibitedFrame::Ping)))
    ));
    assert!(next_frame(&mut payload).unwrap().is_none());
}

#[test]
fn next_frame_refuses_malformed_extensions() {
    let mut payload = Bytes::from_static(&[0x24, 0x02, 0x01, 0x05, 0x06]);
    let error = next_frame(&mut payload).unwrap_err();
    assert_eq!(error.reason, "RESET_STREAM_AT reliable size exceeds final size");
    let mut payload = Bytes::from_static(&[0x24, 0x02, 0x01]);
    assert_eq!(next_frame(&mut payload).unwrap_err().reason, "truncated frame");
    let mut payload = Bytes::from_static(&[0xff]);
    assert_eq!(next_frame(&mut payload).unwrap_err().reason, "truncated frame");
    let mut payload = Bytes::from_static(&[0x05]);
    assert_eq!(next_frame(&mut payload).unwrap_err().reason, "unexpected end");
}

fn prohibited(payload: &mut Bytes) -> ProhibitedFrame {
    match next_frame(payload).unwrap() {
        Some(QmuxFrame::Quic(QuicFrame::Prohibited(frame))) => frame,
        other => panic!("{:?}", other),
    }
}

#[test]
fn next_frame_reads_past_prohibited_frames() {
    let mut buf = vec![0x01];
    // packets 10..=8, 5..=4 and 1..=1
    buf.extend_from_slice(&[0x02, 0x0a, 0x40, 0x64, 0x02, 0x02, 0x01, 0x01, 0x01, 0x00]);
    buf.extend_from_slice(&[0x03, 0x05, 0x00, 0x00, 0x05, 0x01, 0x02, 0x03]);
    buf.extend_from_slice(&[0x06, 0x04, 0x03, b'a', b'b', b'c']);
    buf.extend_from_slice(&[0x07, 0x02, b't', b'k']);
    buf.extend_from_slice(&[0x18, 0x03, 0x02, 0x04, 9, 8, 7, 6]);
    buf.extend_from_slice(&[0x5a; 16]);
    buf.extend_from_slice(&[0x19, 0x07]);
    buf.extend_from_slice(&[0x1a, 1, 2, 3, 4, 5, 6, 7, 8]);
    buf.extend_from_slice(&[0x1b, 8, 7, 6, 5, 4, 3, 2, 1]);
    buf.extend_from_slice(&[0x1e, 0x10, 0x05]);
    let mut payload = Bytes::from(buf);
    assert!(matches!(prohibited(&mut payload), ProhibitedFrame::Ping));
    assert!(matches!(
        prohibited(&mut payload),
        ProhibitedFrame::Ack { largest, delay, additional, ecn: None }
            if largest == VarInt::from_u32(10)
                && delay == VarInt::from_u32(100)
                && additional.as_ref() == [0x02, 0x01, 0x01, 0x01, 0x00]
    ));
    assert!(matches!(
        prohibited(&mut payload),
        ProhibitedFrame::Ack { largest, delay, additional, ecn: Some(ecn) }
            if largest == VarInt::from_u32(5)
                && delay == VarInt::from_u32(0)
                && additional.as_ref() == [0x05]
                && ecn
                    == EcnCounts {
                        ect0: VarInt::from_u32(1),
                        ect1: VarInt::from_u32(2),
                        ce: VarInt::from_u32(3),
                    }
    ));
    assert!(matches!(
        prohibited(&mut payload),
        ProhibitedFrame::Crypto { offset, data }
            if offset == VarInt::from_u32(4) && data.as_ref() == b"abc"
    ));
    assert!(matches!(
        prohibited(&mut payload),
        ProhibitedFrame::NewToken(token) if token.as_ref() == b"tk"
    ));
    assert!(matches!(
        prohibited(&mut payload),
        ProhibitedFrame::NewConnectionId { sequence, retire_prior_to, id, reset_token }
            if sequence == VarInt::from_u32(3)
                && retire_prior_to == VarInt::from_u32(2)
                && id.as_ref() == [9, 8, 7, 6]
                && reset_token.as_ref() == [0x5a; 16]
    ));
    assert!(matches!(
        prohibited(&mut payload),
        ProhibitedFrame::RetireConnectionId(sequence) if sequence == VarInt::from_u32(7)
    ));
    assert!(matches!(
        prohibited(&mut payload),
        ProhibitedFrame::PathChallenge(data) if data.as_ref() == [1, 2, 3, 4, 5, 6, 7, 8]
    ));
    assert!(matches!(
        prohibited(&mut payload),
        ProhibitedFrame::PathResponse(data) if data.as_ref() == [8, 7, 6, 5, 4, 3, 2, 1]
    ));
    assert!(matches!(prohibited(&mut payload), ProhibitedFrame::HandshakeDone));
    assert!(matches!(
        next_frame(&mut payload).unwrap(),
        Some(QmuxFrame::Quic(QuicFrame::Reliable(WireFrame::MaxData(_))))
    ));
    assert!(next_frame(&mut payload).unwrap().is_none());
}

fn refused(octets: &[u8]) -> String {
    let mut payload = Bytes::copy_from_slice(octets);
    let error = next_frame(&mut payload).unwrap_err();
    assert_eq!(error.code, VarInt::from_u32(FRAME_ENCODING_ERROR));
    assert_eq!(error.frame, Some(VarInt::from_u32(octets[0] as u32)));
    error.reason
}

#[test]
fn next_frame_refuses_broken_standard_frames() {
    // ranges that reach below packet zero
    assert_eq!(refused(&[0x02, 0x05, 0x00, 0x00, 0x06]), "malformed");
    assert_eq!(refused(&[0x02, 0x05, 0x00, 0x01, 0x04, 0x00, 0x00]), "malformed");
    assert_eq!(refused(&[0x02, 0x05, 0x00, 0x01, 0x02, 0x00, 0x02]), "malformed");
    assert_eq!(refused(&[0x02, 0x05, 0x00, 0x01, 0x02, 0x00]), "unexpected end");
    assert_eq!(refused(&[0x03, 0x05, 0x00, 0x00, 0x05, 0x01, 0x02]), "unexpected end");
    assert_eq!(refused(&[0x06, 0x00, 0x02, b'a']), "unexpected end");
    assert_eq!(refused(&[0x07, 0x02, b'a']), "unexpected end");
    // an ID that retires itself, and IDs of no and of too great length
    assert_eq!(refused(&[0x18, 0x02, 0x03, 0x01]), "malformed");
    assert_eq!(refused(&[0x18, 0x02, 0x01, 0x00]), "malformed");
    assert_eq!(refused(&[0x18, 0x02, 0x01, 0x15]), "malformed");
    assert_eq!(refused(&[0x18, 0x02, 0x01, 0x01, 0xaa]), "unexpected end");
    assert_eq!(refused(&[0x19]), "unexpected end");
    assert_eq!(refused(&[0x1a, 1, 2, 3, 4, 5, 6, 7]), "unexpected end");
    assert_eq!(refused(&[0x1b]), "unexpected end");
    assert_eq!(refused(&[0x21, 0x00]), "invalid frame ID");
}
