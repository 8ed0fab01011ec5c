use bytes::Bytes;
use qmux::proto::params::{QmuxParams, DEFAULT_MAX_RECORD_SIZE, MAX_RECORD_SIZE};
use qmux::stream_id::Side;
use qmux::transport_error::TRANSPORT_PARAMETER_ERROR;
use qmux::transport_parameters::TransportParameters;
use qmux::varint::VarInt;

fn params(max_record_size: u32) -> QmuxParams {
    QmuxParams {
        tp: TransportParameters {
            max_idle_timeout: VarInt::from_u32(30_000),
            initial_max_data: VarInt::from_u32(1 << 20),
            initial_max_stream_data_bidi_local: VarInt::from_u32(1 << 16),
            initial_max_stream_data_bidi_remote: VarInt::from_u32(1 << 16),
            initial_max_stream_data_uni: VarInt::from_u32(1 << 16),
            initial_max_streams_bidi: VarInt::from_u32(16),
            initial_max_streams_uni: VarInt::from_u32(16),
            max_datagram_frame_size: Some(VarInt::from_u32(4096)),
            ..TransportParameters::default()
        },
        max_record_size: VarInt::from_u32(max_record_size),
    }
}

fn write_param(buf: &mut Vec<u8>, id: u64, value: VarInt) {
    VarInt::from_u64(id).unwrap().encode(buf);
    VarInt::from_u64(value.size() as u64).unwrap().encode(buf);
    value.encode(buf);
}

fn reason(buf: Vec<u8>) -> String {
    let error = QmuxParams::decode(Side::Client, buf.into()).unwrap_err();
    assert_eq!(error.code, VarInt::from_u32(TRANSPORT_PARAMETER_ERROR));
    error.reason
}

#[test]
fn round_trip() {
    let params = params(32_768);
    let mut buf = Vec::new();
    params.encode(&mut buf);
    assert_eq!(
        QmuxParams::decode(Side::Server, buf.into()).unwrap(),
        params
    );
}

#[test]
fn defaults_encode_empty() {
    let defaults = QmuxParams {
        tp: TransportParameters::default(),
        max_record_size: VarInt::from_u64(DEFAULT_MAX_RECORD_SIZE).unwrap(),
    };
    let mut buf = Vec::new();
    defaults.encode(&mut buf);
    assert!(buf.is_empty());
    assert_eq!(
        QmuxParams::decode(Side::Client, Bytes::new()).unwrap(),
        defaults
    );
}

#[test]
fn forbidden_param() {
    // stateless_reset_token (0x02)
    let buf: &[u8] = &[0x02, 0x00];
    assert!(QmuxParams::decode(Side::Client, Bytes::copy_from_slice(buf)).is_err());
}

#[test]
fn duplicate_param() {
    let mut buf = Vec::new();
    write_param(&mut buf, 0x04, VarInt::from_u32(1)); // initial_max_data
    write_param(&mut buf, 0x04, VarInt::from_u32(1));
    assert!(QmuxParams::decode(Side::Client, buf.into()).is_err());
}

#[test]
fn duplicate_unknown_param() {
    let mut buf = Vec::new();
    write_param(&mut buf, 0x1234, VarInt::from_u32(7));
    write_param(&mut buf, 0x1234, VarInt::from_u32(7));
    assert!(QmuxParams::decode(Side::Client, buf.into()).is_err());
}

#[test]
fn unknown_param_ignored() {
    let mut buf = Vec::new();
    write_param(&mut buf, 0x1234, VarInt::from_u32(7));
    write_param(&mut buf, 0x04, VarInt::from_u32(42)); // initial_max_data
    let params = QmuxParams::decode(Side::Client, buf.into()).unwrap();
    assert_eq!(params.tp.initial_max_data, VarInt::from_u32(42));
}

#[test]
fn record_size_below_minimum() {
    let mut buf = Vec::new();
    write_param(&mut buf, MAX_RECORD_SIZE, VarInt::from_u32(1024));
    assert!(QmuxParams::decode(Side::Client, buf.into()).is_err());
}

#[test]
fn oversized_stream_limit_rejected() {
    let mut buf = Vec::new();
    write_param(&mut buf, 0x08, VarInt::from_u64(1 << 61).unwrap());
    assert!(QmuxParams::decode(Side::Client, buf.into()).is_err());
}

#[test]
fn exact_encoding() {
    let mut p = params(16_383);
    p.tp = TransportParameters {
        initial_max_data: VarInt::from_u32(64),
        ..TransportParameters::default()
    };
    let mut buf = vec![0xaa];
    p.encode(&mut buf);
    assert_eq!(
        buf,
        vec![0xaa, 0x04, 0x02, 0x40, 0x40, 0xc5, 0x71, 0xc5, 0x94, 0x29, 0xcd, 0x08, 0x45, 0x02, 0x7f, 0xff]
    );
}

#[test]
fn reasons_for_refusal() {
    assert_eq!(reason(vec![0x40]), "truncated parameter id");
    assert_eq!(reason(vec![0x04]), "truncated parameter length");
    assert_eq!(reason(vec![0x04, 0x02, 0x40]), "truncated parameter value");
    assert_eq!(reason(vec![0x10, 0x00]), "prohibited QUIC v1 transport parameter");
    assert_eq!(reason(vec![0x21, 0x00, 0x21, 0x00]), "duplicate transport parameter");
    let mut buf = Vec::new();
    write_param(&mut buf, MAX_RECORD_SIZE, VarInt::from_u32(16_381));
    assert_eq!(reason(buf), "max_record_size below the required minimum");
    // A length that does not match the integer
    let mut buf = Vec::new();
    VarInt::from_u64(MAX_RECORD_SIZE).unwrap().encode(&mut buf);
    buf.extend_from_slice(&[0x03, 0x7f, 0xff, 0x00]);
    assert_eq!(reason(buf), "malformed parameter value");
    assert_eq!(reason(vec![0x04, 0x02, 0x01, 0x01]), "malformed");
    let mut buf = Vec::new();
    write_param(&mut buf, 0x09, VarInt::from_u64((1 << 60) + 1).unwrap());
    assert_eq!(reason(buf), "illegal value");
    // The earliest fault counts, before a later truncation
    assert_eq!(reason(vec![0x00, 0x00, 0x40]), "prohibited QUIC v1 transport parameter");
}

#[test]
fn largest_stream_limit_is_accepted() {
    let mut buf = Vec::new();
    write_param(&mut buf, 0x08, VarInt::from_u64(1 << 60).unwrap());
    assert!(QmuxParams::decode(Side::Server, buf.into()).is_ok());
}
