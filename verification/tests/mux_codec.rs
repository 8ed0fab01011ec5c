use bytes::Bytes;
use qmux::mux::codec::{
    decode_frames, decode_record, encode_application_close, encode_connection_close,
    encode_datagram, encode_parameters, encode_ping, encode_record, get_varint, put_varint,
    varint_size, Frame,
};
use qmux::mux::error::Error;
use qmux::mux::parameters::Parameters;
use qmux::streams::frame::ConnectionClose;
use qmux::streams::reliable::Frame as StreamFrame;
use qmux::transport_error::{FRAME_ENCODING_ERROR, INTERNAL_ERROR};
use qmux::varint::VarInt;

#[test]
fn matches_existing_qmux_wire_fixtures() {
    assert_eq!(
        encode_datagram(&Bytes::from_static(b"hi")).unwrap(),
        Bytes::from_static(&[0x31, 0x02, b'h', b'i'])
    );
    assert_eq!(
        encode_parameters(&Parameters::default()).unwrap(),
        Bytes::from_static(&[0xff, 0x51, 0x53, 0x30, 0x0d, 0x0a, 0x0d, 0x0a, 0x00])
    );
}

#[test]
fn application_close_uses_quic_v1_layout() {
    assert_eq!(
        encode_application_close(VarInt::from_u32(42), &Bytes::from_static(b"bye"), usize::MAX)
            .unwrap(),
        Bytes::from_static(&[0x1d, 0x2a, 0x03, b'b', b'y', b'e'])
    );
}

#[test]
fn preserves_transport_close_details() {
    let frames = decode_frames(Bytes::from_static(&[
        0x1c, 0x01, 0x10, 0x03, b'b', b'a', b'd',
    ]))
    .unwrap();
    assert!(matches!(
        frames.as_slice(),
        [Frame::ConnectionClose(close)]
            if close.error_code == VarInt::from_u32(INTERNAL_ERROR)
                && close.frame_type.is_some()
                && close.reason.as_ref() == b"bad"
    ));
}

#[test]
fn codec_preserves_stream_offsets() {
    let frames = decode_frames(Bytes::from_static(&[
        0x0e, 0x02, 0x40, 0x40, 0x02, b'h', b'i',
    ]))
    .unwrap();
    assert!(matches!(
        frames.as_slice(),
        [Frame::Stream(StreamFrame::Stream {
            id,
            offset: 64,
            fin: false,
            data,
        })] if id.0.into_inner() == 2 && data.as_ref() == b"hi"
    ));
}

#[test]
fn rejects_prohibited_quic_v1_parameters() {
    assert!(matches!(
        Parameters::decode(Bytes::from_static(&[0x03, 0x01, 0x01])),
        Err(Error::TransportParameter("prohibited QUIC v1 parameter"))
    ));
}

#[test]
fn ignores_unknown_extensions() {
    assert_eq!(
        Parameters::decode(Bytes::from_static(&[0x21, 0x00])).unwrap(),
        Parameters::default()
    );
}

#[test]
fn parameters_round_trip() {
    let mut p = Parameters::default();
    p.max_idle_timeout = VarInt::from_u32(1);
    p.initial_max_data = VarInt::from_u32(2);
    p.initial_max_stream_data_bidi_local = VarInt::from_u32(300);
    p.initial_max_stream_data_bidi_remote = VarInt::from_u32(4);
    p.initial_max_stream_data_uni = VarInt::from_u32(70_000);
    p.initial_max_streams_bidi = VarInt::from_u64(1 << 60).unwrap();
    p.initial_max_streams_uni = VarInt::from_u32(7);
    p.max_datagram_frame_size = VarInt::from_u32(8);
    p.max_record_size = VarInt::from_u32(20_000);
    assert_eq!(Parameters::decode(p.encode().unwrap()).unwrap(), p);
    assert_eq!(p.streams().initial_max_stream_data_uni, VarInt::from_u32(70_000));
}

#[test]
fn parameter_errors() {
    let refused = |octets: &'static [u8]| match Parameters::decode(Bytes::from_static(octets)) {
        Err(Error::TransportParameter(reason)) => reason,
        other => panic!("unexpected result {other:?}"),
    };
    assert_eq!(refused(&[0x04]), "malformed parameter");
    assert_eq!(refused(&[0x04, 0x01, 0x01, 0x04, 0x01, 0x01]), "duplicate parameter");
    assert_eq!(refused(&[0x04, 0x00]), "malformed parameter value");
    assert_eq!(refused(&[0x04, 0x02, 0x01, 0x01]), "parameter value has trailing bytes");
    assert_eq!(
        refused(&[0xc5, 0x71, 0xc5, 0x94, 0x29, 0xcd, 0x08, 0x45, 0x02, 0x7f, 0xfd]),
        "max_record_size is smaller than the draft default"
    );
    assert_eq!(
        refused(&[0x08, 0x08, 0xd0, 0, 0, 0, 0, 0, 0, 0x01]),
        "initial_max_streams exceeds the QUIC limit"
    );
    // Unknown parameters may be repeated
    assert!(Parameters::decode(Bytes::from_static(&[0x21, 0x00, 0x21, 0x01, 0x00])).is_ok());
}

#[test]
fn records() {
    let record = encode_record(Bytes::from_static(b"abc")).unwrap();
    assert_eq!(record, Bytes::from_static(&[0x03, b'a', b'b', b'c']));
    assert_eq!(decode_record(record).unwrap(), Bytes::from_static(b"abc"));
    assert!(matches!(
        decode_record(Bytes::from_static(&[0x02, b'a', b'b', b'c'])),
        Err(Error::RecordSizeMismatch)
    ));
    assert!(matches!(decode_record(Bytes::from_static(&[0x40])), Err(Error::Truncated)));
}

#[test]
fn integers() {
    assert_eq!(varint_size(64).unwrap(), 2);
    assert!(matches!(varint_size(1 << 62), Err(Error::VarInt(_))));
    let mut buf = vec![1];
    put_varint(&mut buf, 64).unwrap();
    assert_eq!(buf, vec![1, 0x40, 0x40]);
    assert!(matches!(put_varint(&mut buf, u64::MAX), Err(Error::VarInt(_))));
    let mut bytes = Bytes::from(buf);
    assert_eq!(get_varint(&mut bytes).unwrap(), VarInt::from_u32(1));
    assert_eq!(get_varint(&mut bytes).unwrap(), VarInt::from_u32(64));
    assert!(matches!(get_varint(&mut bytes), Err(Error::Truncated)));
}

#[test]
fn frames_of_a_record() {
    let mut payload = encode_parameters(&Parameters::default()).unwrap().to_vec();
    payload.extend_from_slice(&encode_ping(VarInt::from_u32(9), true).unwrap());
    payload.push(0);
    payload.extend_from_slice(&encode_datagram(&Bytes::from_static(b"hi")).unwrap());
    let frames = decode_frames(Bytes::from(payload.clone())).unwrap();
    assert!(matches!(
        frames.as_slice(),
        [
            Frame::Parameters(p),
            Frame::Ping { sequence, response: true },
            Frame::Padding,
            Frame::Datagram { data, frame_size: 4 },
        ] if *p == Parameters::default()
            && *sequence == VarInt::from_u32(9)
            && data.as_ref() == b"hi"
    ));
    payload.push(0x24);
    assert!(matches!(decode_frames(Bytes::from(payload)), Err(Error::InvalidFrame(0x24))));
    assert!(matches!(
        decode_frames(Bytes::from_static(&[0x01])),
        Err(Error::InvalidFrame(0x01))
    ));
    assert!(matches!(
        decode_frames(Bytes::from_static(&[0x10])),
        Err(Error::Protocol(e)) if e.code == VarInt::from_u32(FRAME_ENCODING_ERROR)
    ));
    assert!(matches!(
        decode_frames(Bytes::from_static(&[
            0xff, 0x51, 0x53, 0x30, 0x0d, 0x0a, 0x0d, 0x0a, 0x02, 0x01
        ])),
        Err(Error::Truncated)
    ));
}

#[test]
fn long_reasons_are_cut() {
    let reason = Bytes::from(vec![b'x'; 1000]);
    let close = encode_application_close(VarInt::from_u32(1), &reason, 124).unwrap();
    // 100 octets of the reason, with a type, a code and a length of two octets
    assert_eq!(close.len(), 104);
    let close = ConnectionClose {
        error_code: VarInt::from_u32(1),
        frame_type: Some(VarInt::from_u32(2)),
        reason,
    };
    assert_eq!(encode_connection_close(&close, 132).unwrap().len(), 105);
    assert_eq!(encode_connection_close(&close, 10).unwrap().len(), 4);
}

#[test]
fn messages() {
    let text = |e: Error| e.message();
    assert_eq!(text(Error::Truncated), "truncated QMUX input");
    assert_eq!(text(Error::InvalidFrame(0x24)), "invalid QMUX frame type 0x24");
    assert_eq!(text(Error::FrameEncoding("odd")), "frame encoding error: odd");
    assert_eq!(text(Error::TransportParameter("odd")), "transport parameter error: odd");
    assert_eq!(
        text(Error::RecordTooLarge { size: 20, limit: 10 }),
        "record payload of 20 bytes exceeds limit 10"
    );
    assert_eq!(
        text(Error::FrameTooLarge { size: 20, limit: 10 }),
        "frame of 20 bytes exceeds peer record limit 10"
    );
    assert_eq!(
        text(Error::DatagramTooLarge { size: 20, limit: 0 }),
        "datagram frame of 20 bytes exceeds limit 0"
    );
    let close = Error::InvalidFrame(0x24).close_reason();
    assert_eq!(close.error_code, VarInt::from_u32(FRAME_ENCODING_ERROR));
    assert_eq!(close.frame_type, None);
    assert_eq!(close.reason.as_ref(), b"invalid QMUX frame type 0x24");
}
