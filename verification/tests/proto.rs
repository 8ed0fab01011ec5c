use bytes::Bytes;
use qmux::config::Config;
use qmux::proto::config::{Config as SharedConfig, TransportConfig};
use qmux::proto::connection::Connection;
use qmux::proto::event::{ConnectionError, Event, SendDatagramError};
use qmux::proto::state::{Step, StreamCall, Transmission};
use qmux::proto::timer::IdleTimer;
use qmux::stream_id::{Dir, Side, StreamId};
use qmux::streams::event::StreamEvent;
use qmux::time::{Duration, Instant};
use qmux::transport_error::{
    TransportError, FINAL_SIZE_ERROR, FRAME_ENCODING_ERROR, PROTOCOL_VIOLATION,
};
use qmux::varint::VarInt;

/// Stands in for the stream state machine: it takes note of what it is asked and sends what
/// the test queues.
#[derive(Default)]
struct Streams {
    calls: Vec<StreamCall>,
    outgoing: Vec<u8>,
    violation: Option<TransportError>,
    credit: bool,
    announced_credit: usize,
}

struct Endpoint {
    conn: Connection,
    streams: Streams,
}

impl Endpoint {
    fn answer(
        &mut self,
        mut result: Result<Step, ConnectionError>,
        now: Instant,
    ) -> Result<(), ConnectionError> {
        loop {
            match result? {
                Step::Done => return Ok(()),
                Step::Call(call) => {
                    let answer = match (&call, self.streams.violation.take()) {
                        (StreamCall::Data { .. }, Some(e)) => Err(e),
                        (StreamCall::Data { .. }, None) => Ok(self.streams.credit),
                        (_, violation) => {
                            self.streams.violation = violation;
                            Ok(false)
                        }
                    };
                    self.streams.calls.push(call);
                    result = self.conn.resume(answer, now);
                }
            }
        }
    }

    fn handle_input(&mut self, data: &[u8], now: Instant) -> Result<(), ConnectionError> {
        let result = self.conn.handle_input(data, now);
        self.answer(result, now)
    }

    fn handle_record(&mut self, data: Bytes, now: Instant) -> Result<(), ConnectionError> {
        let result = self.conn.handle_record(data, now);
        self.answer(result, now)
    }

    fn transmit(&mut self, now: Instant) -> Transmission {
        assert!(self.conn.can_ping());
        let mut t = self.conn.transmit(now);
        if let Transmission::Open { frames, budget, max_data } = &mut t {
            if *max_data {
                self.streams.announced_credit += 1;
            }
            if frames.len() + self.streams.outgoing.len() <= *budget {
                frames.append(&mut self.streams.outgoing);
            }
        }
        t
    }

    fn poll_transmit(&mut self, now: Instant) -> Option<Bytes> {
        let t = self.transmit(now);
        self.conn.poll_transmit(t, now)
    }

    fn events(&mut self) -> Vec<Event> {
        std::iter::from_fn(|| self.conn.poll()).collect()
    }
}

struct Pair {
    client: Endpoint,
    server: Endpoint,
    now: Instant,
}

impl Pair {
    fn new(client_config: Config, server_config: Config) -> Self {
        let now = Instant { nanos: 1 << 40 };
        Self {
            client: Endpoint {
                conn: Connection::new(client_config, Side::Client, now),
                streams: Streams::default(),
            },
            server: Endpoint {
                conn: Connection::new(server_config, Side::Server, now),
                streams: Streams::default(),
            },
            now,
        }
    }

    fn default() -> Self {
        Self::new(Config::default(), Config::default())
    }

    /// Shuttle records both ways until neither side has anything to send
    fn drive(&mut self) {
        loop {
            let mut progress = false;
            while let Some(record) = self.client.poll_transmit(self.now) {
                progress = true;
                let _ = self.server.handle_input(&record, self.now);
            }
            while let Some(record) = self.server.poll_transmit(self.now) {
                progress = true;
                let _ = self.client.handle_input(&record, self.now);
            }
            if !progress {
                break;
            }
        }
    }

    fn connect(&mut self) {
        self.drive();
        assert!(self.client.conn.is_established());
        assert!(self.server.conn.is_established());
    }
}

fn after(now: Instant, d: Duration) -> Instant {
    now.after(d)
}

#[test]
fn handshake() {
    let mut pair = Pair::default();
    assert!(!pair.client.conn.is_established());
    pair.connect();
    assert!(matches!(
        pair.client.events().first(),
        Some(Event::Connected)
    ));
    assert!(matches!(
        pair.server.events().first(),
        Some(Event::Connected)
    ));
}

#[test]
fn qmux_datagrams() {
    let mut pair = Pair::default();
    assert_eq!(
        pair.client.conn.send_datagram(Bytes::from_static(b"early")),
        Err(SendDatagramError::NotYetReady)
    );
    pair.connect();

    pair.client
        .conn
        .send_datagram(Bytes::from_static(b"hello datagram"))
        .unwrap();
    pair.drive();
    assert!(pair
        .server
        .events()
        .iter()
        .any(|e| matches!(e, Event::DatagramReceived)));
    assert_eq!(
        pair.server.conn.recv_datagram(),
        Some(Bytes::from_static(b"hello datagram"))
    );
    assert_eq!(pair.server.conn.recv_datagram(), None);

    let too_large = vec![0; 64 * 1024];
    assert_eq!(
        pair.client.conn.send_datagram(too_large.into()),
        Err(SendDatagramError::TooLarge)
    );
}

#[test]
fn datagrams_disabled() {
    let mut receiver = Config::default();
    receiver.max_datagram_frame_size(None);
    let mut pair = Pair::new(Config::default(), receiver);
    pair.connect();
    assert_eq!(
        pair.client.conn.send_datagram(Bytes::from_static(b"nope")),
        Err(SendDatagramError::UnsupportedByPeer)
    );
}

#[test]
fn application_close() {
    let mut pair = Pair::default();
    pair.connect();
    pair.client
        .conn
        .close(VarInt::from_u32(3), Bytes::from_static(b"bye"));
    pair.drive();
    assert!(matches!(
        pair.client.conn.error(),
        Some(ConnectionError::LocallyClosed)
    ));
    match pair.server.conn.error() {
        Some(ConnectionError::ApplicationClosed { error_code, reason }) => {
            assert_eq!(*error_code, VarInt::from_u32(3));
            assert_eq!(reason.as_ref(), b"bye");
        }
        other => panic!("unexpected server error: {other:?}"),
    }
    // Draining connections go quiet
    assert!(pair.server.poll_transmit(pair.now).is_none());
    assert!(pair.client.poll_transmit(pair.now).is_none());
}

/// Wrap a frames payload in a record Size prefix
fn record(frames: &[u8]) -> Vec<u8> {
    let mut out = Vec::new();
    VarInt::from_u64(frames.len() as u64)
        .unwrap()
        .encode(&mut out);
    out.extend_from_slice(frames);
    out
}

fn expect_transport_error(result: Result<(), ConnectionError>, code: u32) {
    match result {
        Err(ConnectionError::TransportError(e)) => assert_eq!(e.code, VarInt::from_u32(code)),
        other => panic!("expected {code}, got {other:?}"),
    }
}

#[test]
fn first_frame_must_be_params() {
    let mut pair = Pair::default();
    // A lone MAX_DATA frame before any QX_TRANSPORT_PARAMETERS
    let mut frames = Vec::new();
    VarInt::from_u32(0x10).encode(&mut frames);
    VarInt::from_u32(1234).encode(&mut frames);
    expect_transport_error(
        pair.server.handle_input(&record(&frames), pair.now),
        PROTOCOL_VIOLATION,
    );
    // The failure produces a final CONNECTION_CLOSE record and nothing after it
    let close = pair.server.poll_transmit(pair.now).expect("close record");
    assert!(!close.is_empty());
    assert!(pair.server.poll_transmit(pair.now).is_none());
}

#[test]
fn prohibited_frame() {
    let mut pair = Pair::default();
    pair.connect();
    // QUIC PING (0x01) is prohibited in QMux
    let mut frames = Vec::new();
    VarInt::from_u32(0x01).encode(&mut frames);
    expect_transport_error(
        pair.server.handle_input(&record(&frames), pair.now),
        FRAME_ENCODING_ERROR,
    );
}

#[test]
fn stream_offset_gap() {
    let mut pair = Pair::default();
    pair.connect();
    // STREAM frame with OFF|LEN set (0x0e) for client uni stream 2 at offset 100
    let mut frames = Vec::new();
    VarInt::from_u32(0x0e).encode(&mut frames);
    VarInt::from_u32(2).encode(&mut frames); // client-initiated uni stream id
    VarInt::from_u32(100).encode(&mut frames); // offset: not 0
    VarInt::from_u32(3).encode(&mut frames); // length
    frames.extend_from_slice(b"abc");
    expect_transport_error(
        pair.server.handle_input(&record(&frames), pair.now),
        PROTOCOL_VIOLATION,
    );
}

#[test]
fn unsolicited_ping_response() {
    let mut pair = Pair::default();
    pair.connect();
    let mut frames = Vec::new();
    VarInt::from_u64(0x348c67529ef8c7be)
        .unwrap()
        .encode(&mut frames);
    VarInt::from_u32(5).encode(&mut frames);
    expect_transport_error(
        pair.server.handle_input(&record(&frames), pair.now),
        PROTOCOL_VIOLATION,
    );
}

#[test]
fn keepalive_and_idle_timeout() {
    let mut config = Config::default();
    config.max_idle_timeout(Some(Duration::from_secs(3)));
    let mut pair = Pair::new(config, Config::default());
    pair.connect();

    // A keep-alive ping request goes out at a third of the idle timeout
    let at = pair.client.conn.poll_timeout().expect("timeout scheduled");
    assert!(at.nanos <= after(pair.now, Duration::from_secs(1)).nanos);
    pair.now = at;
    pair.client.conn.handle_timeout(pair.now);
    let ping = pair.client.poll_transmit(pair.now).expect("ping record");
    pair.server.handle_input(&ping, pair.now).unwrap();
    // The server responds; the response is valid at the client
    let response = pair.server.poll_transmit(pair.now).expect("ping response");
    pair.client.handle_input(&response, pair.now).unwrap();
    assert!(!pair.client.conn.is_closed());

    // Going silent past the effective timeout expires the connection
    pair.now = after(pair.now, Duration::from_secs(10));
    pair.client.conn.handle_timeout(pair.now);
    assert!(matches!(
        pair.client.conn.error(),
        Some(ConnectionError::TimedOut)
    ));
    // Idle timeout sends nothing
    assert!(pair.client.poll_transmit(pair.now).is_none());
}

#[test]
fn record_size_limit_enforced() {
    let mut pair = Pair::default();
    pair.connect();
    // A record claiming a payload larger than our advertised max_record_size
    let mut input = Vec::new();
    VarInt::from_u32(1_000_000).encode(&mut input);
    expect_transport_error(
        pair.server.handle_input(&input, pair.now),
        PROTOCOL_VIOLATION,
    );
}

#[test]
fn data_after_fin_rejected() {
    let mut pair = Pair::default();
    pair.connect();
    let id = StreamId::new(Side::Client, Dir::Uni, 0);
    // What the stream state machine sends for "abc" and the end of the stream
    pair.client.streams.outgoing = vec![0x0b, 0x02, 0x03, b'a', b'b', b'c'];
    pair.drive();
    assert!(pair.server.streams.calls.iter().any(
        |c| matches!(c, StreamCall::Data { frame, .. } if frame.id == id && frame.fin)
    ));

    // Hand-crafted extra data for the finished stream at its correct next offset;
    // sending anything after FIN violates the stream's final size
    let mut frames = Vec::new();
    VarInt::from_u32(0x0e).encode(&mut frames);
    id.0.encode(&mut frames);
    VarInt::from_u32(3).encode(&mut frames); // offset == final size
    VarInt::from_u32(1).encode(&mut frames);
    frames.push(b'x');
    expect_transport_error(
        pair.server.handle_input(&record(&frames), pair.now),
        PROTOCOL_VIOLATION,
    );
}

#[test]
fn handshake_wakes_those_that_open_streams() {
    let mut pair = Pair::default();
    pair.connect();
    let events = pair.client.events();
    assert!(matches!(
        events.as_slice(),
        [
            Event::Connected,
            Event::Stream(StreamEvent::Available { dir: Dir::Bi }),
            Event::Stream(StreamEvent::Available { dir: Dir::Uni }),
        ]
    ));
    assert!(matches!(
        pair.server.streams.calls.as_slice(),
        [StreamCall::SetParameters(tp), StreamCall::QueueMaxStreams]
            if tp.initial_max_data == VarInt::from_u32(8 * 1024 * 1024)
                && tp.initial_max_streams_uni == VarInt::from_u32(100)
                && tp.max_datagram_frame_size.is_none()
    ));
    assert_eq!(pair.client.conn.side(), Side::Client);
    assert_eq!(pair.client.conn.config().send_window, 8 * 1024 * 1024);
}

#[test]
fn any_chunking_gives_the_same_result() {
    let mut pair = Pair::default();
    pair.connect();
    let mut frames = vec![0x31, 0x02, b'h', b'i', 0x10, 0x05, 0x00];
    frames.extend_from_slice(&[0x31, 0x01, b'x']);
    let mut input = record(&frames);
    input.extend_from_slice(&record(&[0x31, 0x01, b'y']));
    let mut other = Pair::default();
    other.connect();
    pair.server.handle_input(&input, pair.now).unwrap();
    for octet in &input {
        other.server.handle_input(&[*octet], other.now).unwrap();
    }
    assert_eq!(pair.server.conn.buffered(), 0);
    for expected in [&b"hi"[..], b"x", b"y"] {
        assert_eq!(pair.server.conn.recv_datagram().unwrap(), expected);
        assert_eq!(other.server.conn.recv_datagram().unwrap(), expected);
    }
    assert_eq!(pair.server.streams.calls.len(), other.server.streams.calls.len());
    assert!(matches!(
        &pair.server.streams.calls[2..],
        [
            StreamCall::MaxData(max),
            StreamCall::QueueMaxStreams,
            StreamCall::QueueMaxStreams,
        ] if *max == VarInt::from_u32(5)
    ));
}

#[test]
fn message_transports_exchange_payloads() {
    let now = Instant { nanos: 0 };
    let mut pair = Pair::default();
    let t = pair.client.transmit(now);
    let payload = pair.client.conn.poll_transmit_payload(t, now).unwrap();
    assert_eq!(&payload[..8], &[0xff, 0x51, 0x53, 0x30, 0x0d, 0x0a, 0x0d, 0x0a]);
    pair.server.handle_record(payload, now).unwrap();
    assert!(pair.server.conn.is_established());
    let t = pair.client.transmit(now);
    assert!(pair.client.conn.poll_transmit_payload(t, now).is_none());
}

#[test]
fn flow_control_frames_reach_the_streams() {
    let mut pair = Pair::default();
    pair.connect();
    pair.server.streams.calls.clear();
    let frames = [
        0x05, 0x02, 0x07, // STOP_SENDING
        0x11, 0x02, 0x40, 0x64, // MAX_STREAM_DATA
        0x13, 0x05, // MAX_STREAMS, unidirectional
        0x14, 0x01, 0x15, 0x02, 0x01, 0x16, 0x01, // the peer is blocked
        0x04, 0x02, 0x07, 0x00, // RESET_STREAM
        0x24, 0x06, 0x08, 0x05, 0x03, // RESET_STREAM_AT
        0x0a, 0x0a, 0x02, b'h', b'i', // STREAM
        0x0c, 0x0a, 0x02, b'!', // STREAM up to the end of the record
    ];
    pair.server.streams.credit = true;
    pair.server.handle_input(&record(&frames), pair.now).unwrap();
    let calls = &pair.server.streams.calls;
    assert!(matches!(
        calls.as_slice(),
        [
            StreamCall::StopSending { error_code, .. },
            StreamCall::MaxStreamData { offset: 100, .. },
            StreamCall::MaxStreams { dir: Dir::Uni, count: 5 },
            StreamCall::Reset(reset),
            StreamCall::Reset(reset_at),
            StreamCall::Data { frame: first, allocation_size: 34 },
            StreamCall::Data { frame: second, allocation_size: 34 },
            StreamCall::QueueMaxStreams,
        ] if *error_code == VarInt::from_u32(7)
            && reset.error_code == VarInt::from_u32(7)
            && reset_at.final_offset == VarInt::from_u32(5)
            && first.data.as_ref() == b"hi"
            && second.offset == 2
            && second.data.as_ref() == b"!"
    ));
    // Credit is announced once
    pair.drive();
    assert_eq!(pair.server.streams.announced_credit, 1);
}

#[test]
fn stream_violations_end_the_connection() {
    let mut pair = Pair::default();
    pair.connect();
    pair.server.streams.violation = Some(TransportError::new(FINAL_SIZE_ERROR, "too long"));
    expect_transport_error(
        pair.server.handle_input(&record(&[0x08, 0x02, b'x']), pair.now),
        FINAL_SIZE_ERROR,
    );
    pair.drive();
    assert!(matches!(
        pair.client.conn.error(),
        Some(ConnectionError::ConnectionClosed { error_code, frame_type, reason })
            if *error_code == VarInt::from_u32(FINAL_SIZE_ERROR)
                && *frame_type == Some(VarInt::from_u32(0))
                && reason.as_ref() == b"too long"
    ));
    // Further input is ignored
    assert!(pair.server.handle_input(&[0xff; 16], pair.now).is_ok());
    assert_eq!(pair.server.conn.buffered(), 0);
}

#[test]
fn parameters_are_accepted_once() {
    let mut pair = Pair::default();
    let hello = pair.client.poll_transmit(pair.now).unwrap();
    pair.server.handle_input(&hello, pair.now).unwrap();
    let error = pair.server.handle_input(&hello, pair.now).unwrap_err();
    assert_eq!(
        error.message(),
        "transport error: duplicate QX_TRANSPORT_PARAMETERS frame"
    );
}

#[test]
fn datagram_limits_of_the_receiver() {
    let mut config = Config::default();
    config.max_datagram_frame_size(None);
    let mut pair = Pair::new(Config::default(), config);
    pair.connect();
    let error = pair.server.handle_input(&record(&[0x30]), pair.now).unwrap_err();
    assert_eq!(
        error.message(),
        "transport error: DATAGRAM frame received but datagrams are disabled"
    );
    let mut config = Config::default();
    config.max_datagram_frame_size(Some(VarInt::from_u32(4)));
    let mut pair = Pair::new(Config::default(), config);
    pair.connect();
    assert_eq!(pair.client.conn.max_datagram_size(), Some(2));
    assert!(pair.client.conn.send_datagram(Bytes::from_static(b"ab")).is_ok());
    assert_eq!(
        pair.client.conn.send_datagram(Bytes::from_static(b"abc")),
        Err(SendDatagramError::TooLarge)
    );
    pair.server.handle_input(&record(&[0x31, 0x02, 1, 2]), pair.now).unwrap();
    let error = pair.server.handle_input(&record(&[0x30, 1, 2, 3]), pair.now).unwrap_err();
    assert_eq!(error.message(), "transport error: oversized DATAGRAM frame");
}

#[test]
fn largest_datagrams() {
    // The length of a datagram takes one, two, four or eight octets
    let cases: [(u64, usize); 12] = [
        (0, 0),
        (1, 0),
        (2, 0),
        (65, 63),
        (66, 63),
        (67, 64),
        (16_386, 16_383),
        (16_388, 16_383),
        (16_389, 16_384),
        (0x4000_0004, 0x3fff_ffff),
        (0x4000_0008, 0x3fff_ffff),
        (0x4000_0009, 0x4000_0000),
    ];
    for (limit, largest) in cases {
        let mut config = Config::default();
        config.max_datagram_frame_size(Some(VarInt::from_u64(limit).unwrap()));
        config.max_record_size(VarInt::from_u32(0x5000_0000));
        let mut pair = Pair::new(Config::default(), config);
        pair.connect();
        assert_eq!(pair.client.conn.max_datagram_size(), Some(largest));
        if limit < 0x1_0000 {
            let fits = pair.client.conn.send_datagram(vec![0; largest].into());
            assert_eq!(fits.is_ok(), limit >= 2);
            assert_eq!(
                pair.client.conn.send_datagram(vec![0; largest + 1].into()),
                Err(SendDatagramError::TooLarge)
            );
        }
    }
}

#[test]
fn full_queues_lose_their_oldest_datagram() {
    let mut config = Config::default();
    config.datagram_send_queue(2).datagram_recv_queue(1);
    let mut pair = Pair::new(config, config);
    pair.connect();
    assert_eq!(pair.client.conn.max_datagram_size(), Some(16379));
    for data in [&b"one"[..], b"two", b"three"] {
        pair.client.conn.send_datagram(Bytes::copy_from_slice(data)).unwrap();
    }
    let record = pair.client.poll_transmit(pair.now).unwrap();
    assert_eq!(
        &record[1..],
        &[0x31, 3, b't', b'w', b'o', 0x31, 5, b't', b'h', b'r', b'e', b'e'][..]
    );
    pair.server.handle_input(&record, pair.now).unwrap();
    assert_eq!(pair.server.conn.recv_datagram().unwrap(), &b"three"[..]);
    assert!(pair.server.conn.recv_datagram().is_none());
}

#[test]
fn ping_requests_of_the_peer_must_increase() {
    let mut pair = Pair::default();
    pair.connect();
    let mut frames = Vec::new();
    VarInt::from_u64(0x348c67529ef8c7bd).unwrap().encode(&mut frames);
    VarInt::from_u32(5).encode(&mut frames);
    pair.server.handle_input(&record(&frames), pair.now).unwrap();
    let error = pair.server.handle_input(&record(&frames), pair.now).unwrap_err();
    assert_eq!(
        error.message(),
        "transport error: QX_PING sequence number did not increase"
    );
}

#[test]
fn sending_does_not_keep_a_silent_peer_alive() {
    let mut config = Config::default();
    config.max_idle_timeout(Some(Duration::from_secs(3)));
    let mut pair = Pair::new(config, Config::default());
    pair.connect();
    // Pings that nobody answers
    for _ in 0..10 {
        if let Some(at) = pair.client.conn.poll_timeout() {
            pair.now = at;
            pair.client.conn.handle_timeout(at);
            let _ = pair.client.poll_transmit(at);
        }
    }
    assert!(matches!(pair.client.conn.error(), Some(ConnectionError::TimedOut)));
    assert!(pair.client.conn.poll_timeout().is_none());
}

#[test]
fn transport_failure() {
    let mut pair = Pair::default();
    pair.connect();
    pair.client.conn.transport_closed();
    assert!(matches!(pair.client.conn.error(), Some(ConnectionError::TransportClosed)));
    assert!(pair.client.poll_transmit(pair.now).is_none());
    // The first reason is final
    pair.client.conn.close(VarInt::from_u32(1), Bytes::new());
    assert!(matches!(pair.client.conn.error(), Some(ConnectionError::TransportClosed)));
    assert_eq!(
        pair.client
            .events()
            .iter()
            .filter(|e| matches!(e, Event::ConnectionLost { .. }))
            .count(),
        1
    );
}

#[test]
fn records_after_a_close_are_skipped() {
    let mut pair = Pair::default();
    pair.connect();
    let mut input = record(&[0x1d, 0x05, 0x00, 0x01]);
    input.extend_from_slice(&record(&[0x01]));
    pair.server.handle_input(&input, pair.now).unwrap();
    assert!(matches!(
        pair.server.conn.error(),
        Some(ConnectionError::ApplicationClosed { .. })
    ));
    assert_eq!(pair.server.conn.buffered(), 0);
}

#[test]
fn shared_configuration() {
    let shared = SharedConfig::new();
    assert_eq!(shared.max_record_size, VarInt::from_u32(16382));
    assert_eq!(shared.transport.max_concurrent_bidi_streams, VarInt::from_u32(100));
    assert_eq!(shared.limits().keep_alive_interval, None);
    let mut changed = SharedConfig::default();
    changed.max_record_size = VarInt::from_u32(20_000);
    changed.transport = std::sync::Arc::new(TransportConfig {
        keep_alive_interval: Some(Duration::from_secs(6)),
        ..TransportConfig::default()
    });
    let limits = changed.limits();
    assert_eq!(limits.keep_alive_interval, Some(Duration::from_secs(6)));
    assert_eq!(limits.max_record_size, VarInt::from_u32(20_000));
    assert_eq!(limits.receive_window, VarInt::from_u32(8 * 1024 * 1024));
    assert_eq!(limits.stream_receive_window, VarInt::from_u32(1024 * 1024));
}

#[test]
fn configuration_setters() {
    let mut config = Config::new();
    config
        .receive_window(VarInt::from_u32(1))
        .stream_receive_window(VarInt::from_u32(2))
        .max_concurrent_bidi_streams(VarInt::from_u32(3))
        .max_concurrent_uni_streams(VarInt::from_u32(4))
        .send_window(5)
        .max_idle_timeout(None)
        .keep_alive_interval(Some(Duration::from_secs(6)))
        .max_record_size(VarInt::from_u32(16_400))
        .max_datagram_frame_size(Some(VarInt::from_u32(7)))
        .datagram_send_queue(8)
        .datagram_recv_queue(9);
    assert_eq!(config.receive_window, VarInt::from_u32(1));
    assert_eq!(config.stream_receive_window, VarInt::from_u32(2));
    assert_eq!(config.max_concurrent_bidi_streams, VarInt::from_u32(3));
    assert_eq!(config.max_concurrent_uni_streams, VarInt::from_u32(4));
    assert_eq!(config.send_window, 5);
    assert!(config.max_idle_timeout.is_none());
    assert_eq!(config.keep_alive_interval, Some(Duration::from_secs(6)));
    assert_eq!(config.max_record_size, VarInt::from_u32(16_400));
    assert_eq!(config.max_datagram_frame_size, Some(VarInt::from_u32(7)));
    assert_eq!(config.datagram_send_queue, 8);
    assert_eq!(config.datagram_recv_queue, 9);
}

#[test]
fn only_the_first_payload_holds_parameters() {
    let magic = [0xff, 0x51, 0x53, 0x30, 0x0d, 0x0a, 0x0d, 0x0a];
    let mut pair = Pair::default();
    let first = pair.client.transmit(pair.now);
    let first = pair.client.conn.poll_transmit_payload(first, pair.now).unwrap();
    assert!(first.starts_with(&magic));
    pair.drive();
    let mut later = Vec::new();
    pair.client.conn.send_datagram(Bytes::from_static(b"data")).unwrap();
    for reason in [None, Some("bye")] {
        if let Some(reason) = reason {
            pair.client.conn.close(VarInt::from_u32(0), Bytes::from_static(reason.as_bytes()));
        }
        let t = pair.client.transmit(pair.now);
        later.extend(pair.client.conn.poll_transmit_payload(t, pair.now));
    }
    assert_eq!(later.len(), 2);
    for payload in later {
        assert!(!payload.is_empty());
        assert!(!payload.windows(8).any(|w| w == magic));
    }
}

#[test]
fn violation_before_the_first_record() {
    let mut pair = Pair::default();
    let error = pair.server.handle_input(&record(&[0x01]), pair.now).unwrap_err();
    assert_eq!(pair.server.conn.error(), Some(&error));
    assert!(!pair.server.conn.is_established());
    // The parameters, then one CONNECTION_CLOSE that names no frame type
    let t = pair.server.transmit(pair.now);
    let payload = pair.server.conn.poll_transmit_payload(t, pair.now).unwrap();
    assert!(payload.starts_with(&[0xff, 0x51, 0x53, 0x30, 0x0d, 0x0a, 0x0d, 0x0a]));
    let reason = b"prohibited or unknown frame type 0x1";
    let mut close = vec![0x1c, 0x07, 0x00, reason.len() as u8];
    close.extend_from_slice(reason);
    assert!(payload.ends_with(&close));
    assert!(pair.server.poll_transmit(pair.now).is_none());
    assert!(pair.server.handle_input(&record(&[0x01]), pair.now).is_ok());
    assert_eq!(pair.server.conn.error(), Some(&error));
}

#[test]
fn configured_keepalive_interval() {
    let mut config = Config::default();
    config
        .max_idle_timeout(Some(Duration::from_secs(3)))
        .keep_alive_interval(Some(Duration::from_secs(2)));
    let mut pair = Pair::new(config, Config::default());
    assert_eq!(
        pair.client.conn.poll_timeout(),
        Some(after(pair.now, Duration::from_secs(2)))
    );
    pair.connect();
    // The peer's parameters do not change it
    let at = pair.client.conn.poll_timeout().unwrap();
    assert_eq!(at, after(pair.now, Duration::from_secs(2)));
    pair.now = at;
    pair.client.conn.handle_timeout(pair.now);
    assert!(pair.client.poll_transmit(pair.now).is_some());
    assert!(!pair.client.conn.is_closed());

    // Without an idle timeout only a configured interval keeps a timer running
    let mut config = Config::default();
    config.max_idle_timeout(None);
    let now = Instant { nanos: 1 << 40 };
    let conn = Connection::new(config.clone(), Side::Client, now);
    assert_eq!(conn.poll_timeout(), None);
    config.keep_alive_interval(Some(Duration::from_secs(2)));
    let conn = Connection::new(config, Side::Client, now);
    assert_eq!(conn.poll_timeout(), Some(after(now, Duration::from_secs(2))));
}

#[test]
fn timer_fires_no_later_than_either_deadline() {
    let now = Instant { nanos: 1 << 40 };
    let local = Some(VarInt::from_u32(3_000));
    for (keepalive, first) in [(None, 3), (Some(1), 1), (Some(3), 3), (Some(5), 3)] {
        let mut timer = IdleTimer::new(local, keepalive.map(Duration::from_secs), now);
        let at = timer.next_timeout().unwrap();
        assert_eq!(at, after(now, Duration::from_secs(first)));
        let just_before = Instant { nanos: at.nanos - 1 };
        assert!(!timer.is_expired(just_before));
        assert!(!timer.poll_keepalive(just_before));
        assert!(timer.is_expired(at) || timer.poll_keepalive(at));
    }
    assert_eq!(IdleTimer::new(None, None, now).next_timeout(), None);
}
