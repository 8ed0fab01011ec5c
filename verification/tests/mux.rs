use bytes::{Bytes, BytesMut};
use qmux::mux::connection::{Config, Connection, Transmit};
use qmux::mux::error::Error;
use qmux::mux::parameters::Parameters;
use qmux::mux::state::{Close, Event, Poll, Step, StreamCall};
use qmux::mux::DEFAULT_MAX_RECORD_SIZE;
use qmux::stream_id::{Dir, Side, StreamId};
use qmux::streams::event::StreamEvent;
use qmux::streams::reliable;
use qmux::transport_error::{
    TransportError, FLOW_CONTROL_ERROR, FRAME_ENCODING_ERROR, PROTOCOL_VIOLATION,
    TRANSPORT_PARAMETER_ERROR,
};
use qmux::varint::VarInt;
use std::collections::VecDeque;

const QX_PING_REQUEST: u64 = 0x348c_6752_9ef8_c7bd;
const QX_PING_RESPONSE: u64 = 0x348c_6752_9ef8_c7be;

/// Stands in for the stream state machine: it sends what the test queues and reports what the
/// test expects of a reset.
#[derive(Default)]
struct Streams {
    outgoing: VecDeque<Bytes>,
    confirmed: Vec<u32>,
    next_token: u32,
    parameters: Option<reliable::Parameters>,
    frames: Vec<(reliable::Frame, usize)>,
    violation: Option<TransportError>,
}

struct Endpoint {
    conn: Connection,
    streams: Streams,
}

impl Endpoint {
    fn new(id: u64, side: Side, config: Config) -> Self {
        Self {
            conn: Connection::new(id, side, config).unwrap(),
            streams: Streams::default(),
        }
    }

    fn received(&mut self, record: Bytes) -> Result<(), Error> {
        let mut step = self.conn.received(record)?;
        loop {
            let answer = match step {
                Step::Done => return Ok(()),
                Step::Call(StreamCall::SetPeerParameters(params)) => {
                    self.streams.parameters = Some(params);
                    Ok(Vec::new())
                }
                Step::Call(StreamCall::Frame { frame, allocation_size }) => {
                    let events = match &frame {
                        reliable::Frame::Reset { id, .. } => vec![
                            StreamEvent::Opened { dir: id.dir() },
                            StreamEvent::Readable { id: *id },
                        ],
                        _ => Vec::new(),
                    };
                    self.streams.frames.push((frame, allocation_size));
                    match self.streams.violation.take() {
                        Some(e) => Err(e),
                        None => Ok(events),
                    }
                }
            };
            step = self.conn.resume(answer)?;
        }
    }

    fn poll_transmit(&mut self) -> Result<Option<Transmit<u32>>, Error> {
        match self.conn.poll_transmit()? {
            Poll::Idle => Ok(None),
            Poll::Record(transmit) => Ok(Some(transmit)),
            Poll::Streams { limit } => {
                let payload = self.streams.outgoing.pop_front().map(|bytes| {
                    assert!(bytes.len() <= limit);
                    self.streams.next_token += 1;
                    (bytes, self.streams.next_token)
                });
                self.conn.poll_transmit_streams(payload)
            }
        }
    }

    fn transmitted(&mut self, transmit: Transmit<u32>) -> Result<(), Error> {
        if let Some(token) = self.conn.transmitted(transmit)? {
            self.streams.confirmed.push(token);
        }
        Ok(())
    }
}

fn ping_record(sequence: u32, response: bool) -> Bytes {
    let mut payload = Vec::new();
    VarInt::from_u64(if response {
        QX_PING_RESPONSE
    } else {
        QX_PING_REQUEST
    })
    .unwrap()
    .encode(&mut payload);
    VarInt::from_u32(sequence).encode(&mut payload);
    record(&payload)
}

fn record(payload: &[u8]) -> Bytes {
    let mut header = Vec::new();
    VarInt::from_u64(payload.len() as u64).unwrap().encode(&mut header);
    let mut record = BytesMut::new();
    record.extend_from_slice(&header);
    record.extend_from_slice(payload);
    record.freeze()
}

fn transfer(from: &mut Endpoint, to: &mut Endpoint) {
    while let Some(transmit) = from.poll_transmit().unwrap() {
        let bytes = transmit.bytes.clone();
        to.received(bytes).unwrap();
        from.transmitted(transmit).unwrap();
    }
}

fn pair(config: Config) -> (Endpoint, Endpoint) {
    let mut client = Endpoint::new(1, Side::Client, config);
    let mut server = Endpoint::new(2, Side::Server, config);
    transfer(&mut client, &mut server);
    transfer(&mut server, &mut client);
    assert!(matches!(client.conn.poll(), Some(Event::PeerParameters(_))));
    assert!(matches!(server.conn.poll(), Some(Event::PeerParameters(_))));
    (client, server)
}

#[test]
fn reset_ping_datagram_and_close_use_the_same_record_engine() {
    let mut config = Config::default();
    config.max_datagram_frame_size = VarInt::from_u32(1200);
    let (mut client, mut server) = pair(config);

    let id = StreamId::new(Side::Client, Dir::Uni, 0);
    // RESET_STREAM of that stream with error code 42 and final size 0
    client.streams.outgoing.push_back(Bytes::from_static(&[0x04, 0x02, 0x2a, 0x00]));
    client.conn.ping(VarInt::from_u32(7)).unwrap();
    client
        .conn
        .send_datagram(Bytes::from_static(b"unreliable"))
        .unwrap();
    transfer(&mut client, &mut server);
    assert_eq!(client.streams.confirmed, vec![1]);

    assert!(matches!(
        server.conn.poll(),
        Some(Event::Stream(StreamEvent::Opened { dir: Dir::Uni }))
    ));
    assert!(matches!(
        server.conn.poll(),
        Some(Event::Stream(StreamEvent::Readable { id: readable })) if readable == id
    ));
    assert!(matches!(
        server.streams.frames.as_slice(),
        [(reliable::Frame::Reset { id: reset, error_code, .. }, 4)]
            if *reset == id && *error_code == VarInt::from_u32(42)
    ));
    assert!(matches!(
        server.conn.poll(),
        Some(Event::Datagram(data)) if data == Bytes::from_static(b"unreliable")
    ));

    transfer(&mut server, &mut client);
    assert!(matches!(
        client.conn.poll(),
        Some(Event::PingResponse(sequence)) if sequence == VarInt::from_u32(7)
    ));

    client.conn.close(VarInt::from_u32(9), Bytes::from_static(b"done"));
    assert!(client.conn.streams_closed());
    transfer(&mut client, &mut server);
    assert!(matches!(
        server.conn.poll(),
        Some(Event::Closed(Close::Application(close)))
            if close.error_code == VarInt::from_u32(9) && close.reason.as_ref() == b"done"
    ));
    assert!(client.conn.is_closed());
    assert!(server.conn.is_closed());
    assert!(matches!(
        client.conn.ping(VarInt::from_u32(8)),
        Err(Error::ConnectionClosed)
    ));
}

#[test]
fn ping_sequences_are_validated_and_violations_are_closed() {
    let (mut client, mut server) = pair(Config::default());

    client.conn.ping(VarInt::from_u32(2)).unwrap();
    assert!(matches!(client.conn.ping(VarInt::from_u32(2)), Err(Error::PingSequence)));
    assert!(matches!(client.conn.ping(VarInt::from_u32(1)), Err(Error::PingSequence)));

    assert!(matches!(
        server.received(ping_record(7, true)),
        Err(Error::Protocol(error))
            if error.code == VarInt::from_u32(PROTOCOL_VIOLATION)
    ));
    let close = server.poll_transmit().unwrap().unwrap();
    client.received(close.bytes.clone()).unwrap();
    server.transmitted(close).unwrap();
    assert!(matches!(
        client.conn.poll(),
        Some(Event::Closed(Close::Transport(close)))
            if close.error_code == VarInt::from_u32(PROTOCOL_VIOLATION)
    ));
}

#[test]
fn incoming_ping_requests_must_strictly_increase() {
    let (_, mut server) = pair(Config::default());

    server.received(ping_record(3, false)).unwrap();
    assert!(matches!(
        server.received(ping_record(3, false)),
        Err(Error::Protocol(error))
            if error.code == VarInt::from_u32(PROTOCOL_VIOLATION)
    ));
}

#[test]
fn close_before_first_write_preserves_parameter_order_and_truncates_reason() {
    let mut client = Endpoint::new(1, Side::Client, Config::default());
    let mut server = Endpoint::new(2, Side::Server, Config::default());
    client.conn.close(VarInt::from_u32(4), Bytes::from(vec![b'x'; 32_000]));

    let parameters = client.poll_transmit().unwrap().unwrap();
    server.received(parameters.bytes.clone()).unwrap();
    client.transmitted(parameters).unwrap();
    assert!(matches!(server.conn.poll(), Some(Event::PeerParameters(_))));

    let close = client.poll_transmit().unwrap().unwrap();
    assert!(close.bytes.len() <= DEFAULT_MAX_RECORD_SIZE as usize + 2);
    server.received(close.bytes.clone()).unwrap();
    client.transmitted(close).unwrap();
    assert!(matches!(
        server.conn.poll(),
        Some(Event::Closed(Close::Application(close)))
            if close.error_code == VarInt::from_u32(4)
                && !close.reason.is_empty()
                && close.reason.len() < 32_000
    ));
}

#[test]
fn advertised_datagram_size_is_capped_by_record_size() {
    let mut config = Config::default();
    config.max_datagram_frame_size = VarInt::from_u32(20_000);
    let (mut client, _) = pair(config);

    assert_eq!(
        client.conn.local_parameters().max_datagram_frame_size,
        client.conn.local_parameters().max_record_size
    );
    let payload = Bytes::from(vec![0; 16_380]);
    assert!(matches!(
        client.conn.send_datagram(payload),
        Err(Error::DatagramTooLarge { .. })
    ));
}

#[test]
fn transmit_tokens_are_connection_bound_and_ordered() {
    let mut first = Endpoint::new(1, Side::Client, Config::default());
    let mut second = Endpoint::new(2, Side::Client, Config::default());

    let foreign = first.poll_transmit().unwrap().unwrap();
    assert!(matches!(
        second.transmitted(foreign),
        Err(Error::WrongConnection)
    ));

    let mut ordered = Endpoint::new(3, Side::Client, Config::default());
    ordered.conn.ping(VarInt::from_u32(1)).unwrap();
    let first_transmit = ordered.poll_transmit().unwrap().unwrap();
    let second_transmit = ordered.poll_transmit().unwrap().unwrap();
    assert!(matches!(
        ordered.transmitted(second_transmit),
        Err(Error::OutOfOrderTransmit)
    ));
    ordered.transmitted(first_transmit).unwrap();
}

#[test]
fn handshake_exchanges_parameters() {
    let mut config = Config::default();
    config.max_remote_bidi = VarInt::from_u32(3);
    let (client, server) = pair(config);
    assert_eq!(client.conn.peer_parameters(), Some(server.conn.local_parameters()));
    assert_eq!(server.conn.peer_parameters(), Some(client.conn.local_parameters()));
    assert_eq!(
        server.streams.parameters.unwrap().initial_max_streams_bidi,
        VarInt::from_u32(3)
    );
    assert_eq!(client.conn.local_parameters().max_datagram_frame_size, VarInt::from_u32(0));
    assert_eq!(client.conn.side(), Side::Client);
    assert_eq!(config.streams().max_remote_bidi, VarInt::from_u32(3));
    assert_eq!(config.streams().send_window, 8 * 1024 * 1024);
}

#[test]
fn invalid_configuration_is_refused() {
    let mut config = Config::default();
    config.max_record_size = VarInt::from_u32(16_381);
    assert!(matches!(
        Connection::new(1, Side::Client, config),
        Err(Error::TransportParameter("max_record_size is smaller than the draft default"))
    ));
}

#[test]
fn datagram_limits() {
    let mut client = Endpoint::new(1, Side::Client, Config::default());
    assert!(matches!(
        client.conn.send_datagram(Bytes::new()),
        Err(Error::DatagramsUnsupported)
    ));
    let (mut client, _) = pair(Config::default());
    assert!(matches!(
        client.conn.send_datagram(Bytes::new()),
        Err(Error::DatagramsUnsupported)
    ));
    let mut config = Config::default();
    config.max_datagram_frame_size = VarInt::from_u32(12);
    let (mut client, mut server) = pair(config);
    assert!(matches!(
        client.conn.send_datagram(Bytes::from_static(b"elevenbytes")),
        Err(Error::DatagramTooLarge { size: 13, limit: 12 })
    ));
    client.conn.send_datagram(Bytes::from_static(b"ten octets")).unwrap();
    transfer(&mut client, &mut server);
    assert!(matches!(server.conn.poll(), Some(Event::Datagram(d)) if d.as_ref() == b"ten octets"));
    assert!(server.conn.poll().is_none());
    // The receiver enforces its own limit
    assert!(matches!(
        server.received(record(&[0x31, 0x0b, 1, 2, 3, 4, 5, 6, 7, 8, 9, 10, 11])),
        Err(Error::DatagramTooLarge { size: 13, limit: 12 })
    ));
}

#[test]
fn refused_records_close_with_their_code() {
    let cases: Vec<(Bytes, u32)> = vec![
        (Bytes::from_static(&[0x40]), FRAME_ENCODING_ERROR),
        (Bytes::from_static(&[0x05, 0x00]), FRAME_ENCODING_ERROR),
        (record(&[0x24]), FRAME_ENCODING_ERROR),
        (record(&[0x10]), FRAME_ENCODING_ERROR),
        (
            record(&[0xff, 0x51, 0x53, 0x30, 0x0d, 0x0a, 0x0d, 0x0a, 0x00]),
            PROTOCOL_VIOLATION,
        ),
        (
            record(&[0xff, 0x51, 0x53, 0x30, 0x0d, 0x0a, 0x0d, 0x0a, 0x02, 0x00, 0x00]),
            TRANSPORT_PARAMETER_ERROR,
        ),
        (record(&vec![0; 16_383]), FRAME_ENCODING_ERROR),
    ];
    for (input, code) in cases {
        let (mut client, mut server) = pair(Config::default());
        let error = server.received(input).unwrap_err();
        let message = error.message();
        assert!(server.conn.streams_closed() && !server.conn.is_closed());
        transfer(&mut server, &mut client);
        assert!(server.conn.is_closed());
        assert!(matches!(
            client.conn.poll(),
            Some(Event::Closed(Close::Transport(close)))
                if close.error_code == VarInt::from_u32(code)
                    && close.reason.as_ref() == message.as_bytes()
        ));
        assert!(client.conn.is_closed());
        // Nothing is sent or processed any more
        assert!(client.poll_transmit().unwrap().is_none());
        assert!(client.received(Bytes::from_static(&[0xff])).is_ok());
    }
}

#[test]
fn parameters_come_first_and_once() {
    let mut server = Endpoint::new(1, Side::Server, Config::default());
    assert!(matches!(
        server.received(record(&[0x00])),
        Err(Error::ParametersNotFirst)
    ));
    let (_, mut server) = pair(Config::default());
    let again = Parameters::default().encode().unwrap();
    assert!(again.is_empty());
    assert!(matches!(
        server.received(record(&[0xff, 0x51, 0x53, 0x30, 0x0d, 0x0a, 0x0d, 0x0a, 0x00])),
        Err(Error::DuplicateParameters)
    ));
}

#[test]
fn oversized_records_are_refused() {
    let (_, mut server) = pair(Config::default());
    assert!(matches!(
        server.received(record(&vec![0; 16_383])),
        Err(Error::RecordTooLarge { size: 16_383, limit: 16_382 })
    ));
    let (_, mut server) = pair(Config::default());
    server.received(record(&vec![0; 16_382])).unwrap();
}

#[test]
fn stream_violations_close_the_connection() {
    let (mut client, mut server) = pair(Config::default());
    server.streams.violation = Some(TransportError::new(FLOW_CONTROL_ERROR, "too much"));
    // A STREAM frame, and a ping that is no longer looked at
    let error = server.received(record(&[0x0a, 0x02, 0x01, b'x', 0x00])).unwrap_err();
    assert_eq!(error.message(), "too much");
    transfer(&mut server, &mut client);
    assert!(matches!(
        client.conn.poll(),
        Some(Event::Closed(Close::Transport(close)))
            if close.error_code == VarInt::from_u32(FLOW_CONTROL_ERROR)
                && close.reason.as_ref() == b"too much"
    ));
}

#[test]
fn frames_after_a_close_are_ignored() {
    let (_, mut server) = pair(Config::default());
    let mut payload = vec![0x1d, 0x05, 0x00];
    payload.extend_from_slice(&[0x31, 0x01, b'x']);
    server.received(record(&payload)).unwrap();
    assert!(matches!(server.conn.poll(), Some(Event::Closed(Close::Application(_)))));
    assert!(server.conn.poll().is_none());
}

#[test]
fn urgent_frames_precede_streams_and_streams_precede_the_rest() {
    let (mut client, _) = pair(Config::default());
    client.conn.ping(VarInt::from_u32(5)).unwrap();
    client.streams.outgoing.push_back(Bytes::from_static(&[0x10, 0x05]));
    client.received(ping_record(1, false)).unwrap();
    let mut records = Vec::new();
    while let Some(transmit) = client.poll_transmit().unwrap() {
        records.push(transmit.record().clone());
        client.transmitted(transmit).unwrap();
    }
    assert_eq!(
        records,
        vec![ping_record(1, true), record(&[0x10, 0x05]), ping_record(5, false)]
    );
    assert!(client.conn.sequences_left());
}

#[test]
fn refusal_before_the_first_record() {
    let mut server = Endpoint::new(1, Side::Server, Config::default());
    server.conn.ping(VarInt::from_u32(1)).unwrap();
    let error = server.received(record(&[0x00])).unwrap_err();
    assert!(matches!(server.conn.ping(VarInt::from_u32(2)), Err(Error::ConnectionClosed)));
    assert!(matches!(
        server.conn.send_datagram(Bytes::new()),
        Err(Error::ConnectionClosed)
    ));
    let mut records = Vec::new();
    while let Some(transmit) = server.poll_transmit().unwrap() {
        records.push(transmit.bytes.clone());
    }
    let reason = error.message();
    let mut close = vec![0x1c, 0x0a, 0x00, reason.len() as u8];
    close.extend_from_slice(reason.as_bytes());
    assert_eq!(records.len(), 2);
    assert!(records[0][1..].starts_with(&[0xff, 0x51, 0x53, 0x30, 0x0d, 0x0a, 0x0d, 0x0a]));
    assert_eq!(records[1], record(&close));
    assert!(server.poll_transmit().unwrap().is_none());
}
