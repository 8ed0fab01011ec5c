use bytes::Bytes;
use qmux::stream_id::{Dir, Side, StreamId};
use qmux::streams::order::ReceiveOrder;
use qmux::streams::reliable::{Config, Connection, Frame, Parameters};
use qmux::transport_error::PROTOCOL_VIOLATION;
use qmux::varint::VarInt;

fn endpoint(side: Side) -> Connection {
    Connection::new(
        side,
        Config {
            max_remote_bidi: VarInt::from_u32(4),
            max_remote_uni: VarInt::from_u32(4),
            send_window: 64,
            receive_window: VarInt::from_u32(64),
            stream_receive_window: VarInt::from_u32(64),
        },
    )
}

fn stream(id: StreamId, offset: u64, fin: bool, data: &'static [u8]) -> Frame {
    Frame::Stream { id, offset, fin, data: Bytes::from_static(data) }
}

#[test]
fn rejects_out_of_order_stream_frames() {
    let mut server = endpoint(Side::Server);
    let id = StreamId::new(Side::Client, Dir::Bi, 0);

    let error = server.received_frame(&stream(id, 1, false, b"x")).unwrap_err();

    assert_eq!(error.code, VarInt::from_u32(PROTOCOL_VIOLATION));
}

#[test]
fn contiguous_frames_are_accepted() {
    let mut server = endpoint(Side::Server);
    let first = StreamId::new(Side::Client, Dir::Bi, 0);
    let second = StreamId::new(Side::Client, Dir::Uni, 0);
    server.received_frame(&stream(first, 0, false, b"abc")).unwrap();
    server.received_frame(&stream(second, 0, false, b"x")).unwrap();
    server.received_frame(&stream(first, 3, false, b"")).unwrap();
    server.received_frame(&stream(first, 3, true, b"de")).unwrap();
    server.received_frame(&stream(second, 1, false, b"y")).unwrap();
    let error = server.received_frame(&stream(second, 1, false, b"y")).unwrap_err();
    assert_eq!(error.reason, "stream payload received out of order");
    // Data behind the end of a stream is out of order
    assert!(server.received_frame(&stream(first, 5, false, b"f")).is_err());
}

#[test]
fn reset_forgets_the_offset() {
    let mut server = endpoint(Side::Server);
    let id = StreamId::new(Side::Client, Dir::Uni, 3);
    server.received_frame(&stream(id, 0, false, b"abc")).unwrap();
    server
        .received_frame(&Frame::Reset {
            id,
            error_code: VarInt::from_u32(42),
            final_offset: VarInt::from_u32(3),
        })
        .unwrap();
    assert!(server.received_frame(&stream(id, 3, false, b"d")).is_err());
    assert!(server.received_frame(&stream(id, 0, false, b"d")).is_ok());
}

#[test]
fn order_at_the_largest_offset() {
    let mut order = ReceiveOrder::new();
    let id = StreamId::new(Side::Server, Dir::Bi, 7);
    assert!(order.advance(id, 0, usize::MAX, false));
    assert!(order.advance(id, u64::MAX, 0, false));
    // The next offset does not fit: it stays where it is
    assert!(order.advance(id, u64::MAX, 1, false));
    assert!(order.advance(id, u64::MAX, 0, true));
    assert!(!order.advance(id, u64::MAX, 0, true));
}

#[test]
fn closed_connections_send_nothing() {
    let mut client = endpoint(Side::Client);
    assert_eq!(client.side(), Side::Client);
    assert_eq!(client.config().send_window, 64);
    assert_eq!(client.poll_transmit(1200), Some(1200));
    assert!(!client.is_closed());
    client.close();
    assert!(client.is_closed());
    assert!(client.poll_transmit(1200).is_none());
}

#[test]
fn default_parameters_permit_nothing() {
    let parameters = Parameters::default();
    assert_eq!(parameters.initial_max_data, VarInt::from_u32(0));
    assert_eq!(parameters.initial_max_streams_bidi, VarInt::from_u32(0));
}
