//! What a connection is and how it changes, as mathematics.

use crate::config::Config;
use crate::proto::event::{ConnectionError, Event, Reason, SendDatagramError};
use crate::proto::frame::{
    close_frame, next_frame, ping_frame, transport_parameters_frame, Close, Frame,
};
use crate::proto::params::{announced, table, QmuxParams, DEFAULT_MAX_RECORD_SIZE};
use crate::proto::record::next_record;
use crate::proto::timer::{due, negotiated, IdleTimer};
use crate::stream_id::{Dir, Side, StreamId};
use crate::streams::event::StreamEvent;
use crate::streams::frame::{ResetStream, StreamFrame};
use crate::streams::order::{expected_offset, offsets_after};
use crate::streams::wire::{datagram_frame, datagram_size};
use crate::time::{Duration, Instant, NANOS_PER_MILLI};
use crate::transport_error::{transport_error, TransportError, PROTOCOL_VIOLATION};
use crate::transport_parameters::{written, TransportParameters};
use crate::varint::{VarInt, VARINT_BOUND};
use bytes::Bytes;
use vstd::prelude::*;
use vstd::utf8::encode_utf8;

verus! {

/// Work that a received frame asks of the stream state machine.
#[derive(Debug)]
pub enum StreamCall<B = Bytes> {
    /// Apply the limits that the peer granted.
    SetParameters(TransportParameters),
    /// Take stream data that is in order; it keeps a record of the given size alive.
    Data {
        /// The data.
        frame: StreamFrame<B>,
        /// Size of the record.
        allocation_size: usize,
    },
    /// End a stream that the peer abandoned.
    Reset(ResetStream),
    /// The peer wants no more data on a stream.
    StopSending {
        /// The stream.
        id: StreamId,
        /// Error code of the application.
        error_code: VarInt,
    },
    /// More data may be sent on the connection.
    MaxData(VarInt),
    /// More data may be sent on a stream.
    MaxStreamData {
        /// The stream.
        id: StreamId,
        /// New limit.
        offset: u64,
    },
    /// More streams may be opened.
    MaxStreams {
        /// Direction of the streams.
        dir: Dir,
        /// New limit.
        count: u64,
    },
    /// All frames of a record were processed: announce stream limits that were raised.
    QueueMaxStreams,
}

/// How far received octets were processed.
#[derive(Debug)]
pub enum Step<B = Bytes> {
    /// All of them were.
    Done,
    /// The stream state machine has to do something first.
    Call(StreamCall<B>),
}

/// What is to be sent.
#[derive(Debug)]
pub enum Transmission<F = Vec<u8>> {
    /// Nothing.
    Nothing,
    /// The frames of a record.
    Record(F),
    /// The first frames of a record, to which the stream state machine adds its own.
    Open {
        /// The frames so far.
        frames: F,
        /// Most octets that the record may hold.
        budget: usize,
        /// Whether connection-level credit is to be announced.
        max_data: bool,
    },
}

/// The state of a connection.
#[verifier::ext_equal]
pub struct State {
    /// Which endpoint this is.
    pub side: Side,
    /// Limits of this endpoint.
    pub config: Config,
    /// Whether our transport parameters were sent.
    pub params_sent: bool,
    /// What the peer announced, once it did.
    pub peer_params: Option<QmuxParams>,
    /// Where the data of each stream must go on.
    pub offsets: Map<u64, u64>,
    /// Octets that no record was made of yet.
    pub input: Seq<u8>,
    /// Frames of the current record that wait for the stream state machine, and the size of
    /// that record.
    pub record: Option<(Seq<u8>, usize)>,
    /// Whether `input` is to be processed further.
    pub streaming: bool,
    /// Timeouts.
    pub idle: IdleTimer,
    /// Sequence number of the next ping request.
    pub next_ping_seq: u64,
    /// Largest sequence number in a request of the peer.
    pub greatest_ping_recv: Option<u64>,
    /// Whether a ping request is to be sent.
    pub ping_request_pending: bool,
    /// Requests of the peer that are to be answered.
    pub ping_responses: Seq<VarInt>,
    /// Whether connection-level credit is to be announced.
    pub max_data_pending: bool,
    /// Datagrams to be sent.
    pub datagram_send: Seq<Seq<u8>>,
    /// Datagrams that the application has not taken yet.
    pub datagram_recv: Seq<Seq<u8>>,
    /// Close frame to be sent.
    pub close: Option<Close<Seq<u8>>>,
    /// Whether nothing is sent any more.
    pub close_sent: bool,
    /// Why the connection ended, once it did.
    pub error: Option<Reason>,
    /// Events that the application has not taken yet.
    pub events: Seq<Event<Seq<char>, Seq<u8>>>,
}

/// How processing received octets went.
pub type Outcome = Result<Step<Seq<u8>>, Reason>;

/// The `max_idle_timeout` parameter in milliseconds: zero for none, and the largest integer
/// for what is too long.
pub open spec fn idle_millis(timeout: Option<Duration>) -> u64 {
    match timeout {
        Some(timeout) => {
            let millis = timeout.spec_nanos() / NANOS_PER_MILLI as nat;
            if millis < VARINT_BOUND {
                millis as u64
            } else {
                (VARINT_BOUND - 1) as u64
            }
        },
        None => 0,
    }
}

/// The transport parameters that an endpoint announces.
pub open spec fn local_params(config: Config) -> QmuxParams {
    QmuxParams {
        tp: TransportParameters {
            max_idle_timeout: VarInt::of(idle_millis(config.max_idle_timeout)),
            initial_max_data: config.receive_window,
            initial_max_stream_data_bidi_local: config.stream_receive_window,
            initial_max_stream_data_bidi_remote: config.stream_receive_window,
            initial_max_stream_data_uni: config.stream_receive_window,
            initial_max_streams_bidi: config.max_concurrent_bidi_streams,
            initial_max_streams_uni: config.max_concurrent_uni_streams,
            max_datagram_frame_size: config.max_datagram_frame_size,
        },
        max_record_size: config.max_record_size,
    }
}

/// A third of an optional span.
pub open spec fn third_of(d: Option<Duration>) -> Option<Duration> {
    match d {
        Some(d) => Some(Duration::of_nanos(d.spec_nanos() / 3)),
        None => None,
    }
}

/// The interval between keep-alives: the configured one, or else a third of the timeout.
pub open spec fn keepalive_interval(config: Config, timeout: Option<Duration>) -> Option<Duration> {
    match config.keep_alive_interval {
        Some(interval) => Some(interval),
        None => third_of(timeout),
    }
}

/// The timer of a new connection.
pub open spec fn initial_timer(config: Config, now: Instant) -> IdleTimer {
    let local = VarInt::of(idle_millis(config.max_idle_timeout));
    IdleTimer::unarmed(
        Some(local),
        keepalive_interval(config, negotiated(Some(local), None)),
    ).rearmed(now)
}

/// The timer after the peer announced its timeout.
pub open spec fn negotiated_timer(
    config: Config,
    idle: IdleTimer,
    peer: VarInt,
    now: Instant,
) -> IdleTimer {
    let effective = negotiated(idle.local, Some(peer));
    IdleTimer {
        effective,
        keepalive: keepalive_interval(config, effective),
        ..idle
    }.rearmed(now)
}

/// A new connection.
pub open spec fn initial_state(config: Config, side: Side, now: Instant) -> State {
    State {
        side,
        config,
        params_sent: false,
        peer_params: None,
        offsets: Map::empty(),
        input: Seq::empty(),
        record: None,
        streaming: false,
        idle: initial_timer(config, now),
        next_ping_seq: 0,
        greatest_ping_recv: None,
        ping_request_pending: false,
        ping_responses: Seq::empty(),
        max_data_pending: false,
        datagram_send: Seq::empty(),
        datagram_recv: Seq::empty(),
        close: None,
        close_sent: false,
        error: None,
        events: Seq::empty(),
    }
}

/// Whether a close frame can be encoded.
pub open spec fn encodable_close(close: Close<Seq<u8>>) -> bool {
    &&& close.error_code.in_range()
    &&& close.frame_type matches Some(ty) ==> ty.in_range()
    &&& close.reason.len() < VARINT_BOUND
}

/// What every operation keeps: keep-alives are armed only beside an interval, whatever waits to
/// be sent can be encoded, the peer takes records of the default size, a connection that has not ended has no close to send and sent none, and
/// nothing ends the sending before our transport parameters were sent.
pub open spec fn valid(st: State) -> bool {
    &&& st.idle.wf()
    &&& st.next_ping_seq <= VARINT_BOUND
    &&& st.peer_params matches Some(peer) ==> DEFAULT_MAX_RECORD_SIZE <= peer.max_record_size.value()
        && peer.max_record_size.in_range()
    &&& st.error is None ==> st.close is None && !st.close_sent
    &&& st.close_sent ==> st.params_sent && st.close is None
    &&& st.close matches Some(close) ==> encodable_close(close)
    &&& forall|i: int|
        0 <= i < st.ping_responses.len() ==> (#[trigger] st.ping_responses[i]).in_range()
    &&& forall|i: int|
        0 <= i < st.datagram_send.len() ==> (#[trigger] st.datagram_send[i]).len() < VARINT_BOUND
}

/// Whether the peer can be told about an error.
pub open spec fn sendable(e: TransportError<Seq<char>>) -> bool {
    &&& e.code.in_range()
    &&& encode_utf8(e.reason).len() < VARINT_BOUND
}

/// The connection after it ended for `reason`, unless it had ended before.
pub open spec fn lost(st: State, reason: Reason) -> State {
    if st.error is Some {
        st
    } else {
        State {
            error: Some(reason),
            events: st.events.push(Event::ConnectionLost { reason }),
            ..st
        }
    }
}

/// The connection after the peer violated the protocol: it ends, and the peer is told why.
pub open spec fn failed(st: State, e: TransportError<Seq<char>>) -> State {
    if st.error is Some {
        st
    } else {
        lost(
            State {
                close: Some(
                    Close {
                        is_application: false,
                        error_code: e.code,
                        frame_type: None,
                        reason: encode_utf8(e.reason),
                    },
                ),
                ..st
            },
            ConnectionError::TransportError(e),
        )
    }
}

/// The connection after the application closed it.
pub open spec fn closed(st: State, error_code: VarInt, reason: Seq<u8>) -> State {
    if st.error is Some {
        st
    } else {
        lost(
            State {
                close: Some(Close { is_application: true, error_code, frame_type: None, reason }),
                ..st
            },
            ConnectionError::LocallyClosed,
        )
    }
}

/// A queue after `item` was appended and, where it was full, its oldest item dropped.
pub open spec fn enqueued(queue: Seq<Seq<u8>>, capacity: usize, item: Seq<u8>) -> Seq<Seq<u8>> {
    if queue.len() >= capacity && queue.len() > 0 {
        queue.skip(1).push(item)
    } else {
        queue.push(item)
    }
}

/// Why the connection ended, according to the peer.
pub open spec fn peer_reason(close: Close<Seq<u8>>) -> Reason {
    if close.is_application {
        ConnectionError::ApplicationClosed { error_code: close.error_code, reason: close.reason }
    } else {
        ConnectionError::ConnectionClosed {
            error_code: close.error_code,
            frame_type: close.frame_type,
            reason: close.reason,
        }
    }
}

/// The limits that concern streams.
pub open spec fn stream_limits(tp: TransportParameters) -> TransportParameters {
    TransportParameters { max_idle_timeout: VarInt::of(0), max_datagram_frame_size: None, ..tp }
}

/// The peer broke a rule of the protocol.
pub open spec fn violation(reason: Seq<char>) -> TransportError<Seq<char>> {
    transport_error(PROTOCOL_VIOLATION, reason)
}

/// What one frame does: the connection afterwards and what the stream state machine has to
/// do, or how the frame breaks the protocol.
pub open spec fn on_frame(st: State, frame: Frame<Seq<u8>>, len: usize, now: Instant) -> Result<
    (State, Option<StreamCall<Seq<u8>>>),
    TransportError<Seq<char>>,
> {
    if st.peer_params is Some && frame is TransportParameters {
        Err(violation("duplicate QX_TRANSPORT_PARAMETERS frame"@))
    } else if st.peer_params is None && !(frame is TransportParameters) {
        Err(violation("first frame was not QX_TRANSPORT_PARAMETERS"@))
    } else {
        match frame {
            Frame::TransportParameters(blob) => match announced(blob) {
                Err(e) => Err(e),
                Ok(peer) => Ok(
                    (
                        State {
                            idle: negotiated_timer(
                                st.config,
                                st.idle,
                                peer.tp.max_idle_timeout,
                                now,
                            ),
                            peer_params: Some(peer),
                            events: st.events.push(Event::Connected).push(
                                Event::Stream(StreamEvent::Available { dir: Dir::Bi }),
                            ).push(Event::Stream(StreamEvent::Available { dir: Dir::Uni })),
                            ..st
                        },
                        Some(StreamCall::SetParameters(stream_limits(peer.tp))),
                    ),
                ),
            },
            Frame::Stream(stream) => if stream.offset != expected_offset(st.offsets, stream.id) {
                Err(violation("stream payload received out of order"@))
            } else {
                Ok(
                    (
                        State {
                            offsets: offsets_after(
                                st.offsets,
                                stream.id,
                                stream.data.len(),
                                stream.fin,
                            ),
                            ..st
                        },
                        Some(StreamCall::Data { frame: stream, allocation_size: len }),
                    ),
                )
            },
            // All data was delivered in order, so that partial delivery is satisfied.
            Frame::ResetStream(reset) | Frame::ResetStreamAt(reset) => Ok(
                (
                    State { offsets: st.offsets.remove(reset.id.0.value()), ..st },
                    Some(StreamCall::Reset(reset)),
                ),
            ),
            Frame::StopSending { id, error_code } => Ok(
                (st, Some(StreamCall::StopSending { id, error_code })),
            ),
            Frame::MaxData(max) => Ok((st, Some(StreamCall::MaxData(max)))),
            Frame::MaxStreamData { id, offset } => Ok(
                (st, Some(StreamCall::MaxStreamData { id, offset: offset.value() })),
            ),
            Frame::MaxStreams { dir, count } => Ok(
                (st, Some(StreamCall::MaxStreams { dir, count: count.value() })),
            ),
            Frame::DataBlocked { .. } => Ok((st, None)),
            Frame::StreamDataBlocked { .. } => Ok((st, None)),
            Frame::StreamsBlocked { .. } => Ok((st, None)),
            Frame::Close(close) => Ok((lost(st, peer_reason(close)), None)),
            Frame::Datagram(data) => match st.config.max_datagram_frame_size {
                None => Err(violation("DATAGRAM frame received but datagrams are disabled"@)),
                Some(max) => if datagram_size(data.len()) > max.value() {
                    Err(violation("oversized DATAGRAM frame"@))
                } else {
                    Ok(
                        (
                            State {
                                datagram_recv: enqueued(
                                    st.datagram_recv,
                                    st.config.datagram_recv_queue,
                                    data,
                                ),
                                events: st.events.push(Event::DatagramReceived),
                                ..st
                            },
                            None,
                        ),
                    )
                },
            },
            Frame::PingRequest(seq) => if st.greatest_ping_recv matches Some(greatest)
                && seq.value() <= greatest {
                Err(violation("QX_PING sequence number did not increase"@))
            } else {
                Ok(
                    (
                        State {
                            greatest_ping_recv: Some(seq.value()),
                            ping_responses: st.ping_responses.push(seq),
                            ..st
                        },
                        None,
                    ),
                )
            },
            Frame::PingResponse(seq) => if seq.value() >= st.next_ping_seq {
                Err(violation("QX_PING response for a request we never sent"@))
            } else {
                Ok((st, None))
            },
        }
    }
}

/// The connection when nothing received is left to be processed.
pub open spec fn at_rest(st: State) -> State {
    State { record: None, streaming: false, ..st }
}

/// Process the frames in `s`, the rest of a record of `len` octets, up to the next call.
pub open spec fn run_frames(st: State, s: Seq<u8>, len: usize, now: Instant) -> (State, Outcome)
    decreases s.len(),
{
    match next_frame(s) {
        Err(e) => (failed(at_rest(st), e), Err(ConnectionError::TransportError(e))),
        Ok(None) => (State { record: None, ..st }, Ok(Step::Call(StreamCall::QueueMaxStreams))),
        Ok(Some((frame, rest))) => match on_frame(st, frame, len, now) {
            Err(e) => (failed(at_rest(st), e), Err(ConnectionError::TransportError(e))),
            Ok((next, Some(call))) => (
                State { record: Some((rest, len)), ..next },
                Ok(Step::Call(call)),
            ),
            Ok((next, None)) => if next.error is Some || rest.len() >= s.len() {
                // The peer closed the connection; trailing frames are ignored.
                (State { record: None, ..next }, Ok(Step::Done))
            } else {
                run_frames(next, rest, len, now)
            },
        },
    }
}

/// Process the octets in `s` record by record, up to the next call. The records after a close
/// are skipped.
pub open spec fn run_input(st: State, s: Seq<u8>, now: Instant) -> (State, Outcome)
    decreases s.len(),
{
    match next_record(s, st.config.max_record_size.value()) {
        Err(e) => (
            failed(State { input: s, ..at_rest(st) }, e),
            Err(ConnectionError::TransportError(e)),
        ),
        Ok(None) => (State { input: s, ..at_rest(st) }, Ok(Step::Done)),
        Ok(Some((payload, rest))) => if rest.len() >= s.len() {
            (State { input: s, ..at_rest(st) }, Ok(Step::Done))
        } else if st.error is Some {
            run_input(st, rest, now)
        } else {
            let started = State { input: rest, idle: st.idle.rearmed(now), ..st };
            let (next, outcome) = run_frames(started, payload, payload.len() as usize, now);
            if outcome matches Ok(Step::Done) {
                run_input(next, rest, now)
            } else {
                (next, outcome)
            }
        },
    }
}

/// Go on where processing stopped, up to the next call.
pub open spec fn run(st: State, now: Instant) -> (State, Outcome) {
    match st.record {
        Some((rest, len)) => {
            let (next, outcome) = run_frames(st, rest, len, now);
            if next.streaming && outcome matches Ok(Step::Done) {
                run_input(next, next.input, now)
            } else {
                (next, outcome)
            }
        },
        None => if st.streaming {
            run_input(st, st.input, now)
        } else {
            (st, Ok(Step::Done))
        },
    }
}

/// Octets arrive from a byte stream.
pub open spec fn input_received(st: State, data: Seq<u8>, now: Instant) -> (State, Outcome) {
    if st.error is Some {
        (st, Ok(Step::Done))
    } else {
        run(State { input: st.input + data, streaming: true, ..st }, now)
    }
}

/// A record arrives from a transport that delimits records.
pub open spec fn record_received(st: State, payload: Seq<u8>, now: Instant) -> (State, Outcome) {
    if st.error is Some {
        (st, Ok(Step::Done))
    } else {
        run_frames(
            State { idle: st.idle.rearmed(now), ..st },
            payload,
            payload.len() as usize,
            now,
        )
    }
}

/// The stream state machine answers a call: it failed, or it did its work and says whether
/// connection-level credit is to be announced.
pub open spec fn answered(
    st: State,
    answer: Result<bool, TransportError<Seq<char>>>,
    now: Instant,
) -> (State, Outcome) {
    match answer {
        Err(e) => (failed(at_rest(st), e), Err(ConnectionError::TransportError(e))),
        Ok(max_data) => run(
            State { max_data_pending: st.max_data_pending || max_data, ..st },
            now,
        ),
    }
}

/// Most octets that a record to the peer may hold.
pub open spec fn record_budget(st: State) -> usize {
    let max = match st.peer_params {
        Some(peer) => peer.max_record_size.value(),
        None => DEFAULT_MAX_RECORD_SIZE,
    };
    if max <= usize::MAX {
        max as usize
    } else {
        usize::MAX
    }
}

/// Ping responses appended to `buf` while they fit, and those that are left.
pub open spec fn fit_responses(buf: Seq<u8>, queue: Seq<VarInt>, budget: usize) -> (
    Seq<u8>,
    Seq<VarInt>,
)
    decreases queue.len(),
{
    if queue.len() == 0 || buf.len() + ping_frame(true, queue[0]).len() > budget {
        (buf, queue)
    } else {
        fit_responses(buf + ping_frame(true, queue[0]), queue.skip(1), budget)
    }
}

/// Datagrams appended to `buf` while they fit, and those that are left.
pub open spec fn fit_datagrams(buf: Seq<u8>, queue: Seq<Seq<u8>>, budget: usize) -> (
    Seq<u8>,
    Seq<Seq<u8>>,
)
    decreases queue.len(),
{
    if queue.len() == 0 || buf.len() + datagram_frame(queue[0]).len() > budget {
        (buf, queue)
    } else {
        fit_datagrams(buf + datagram_frame(queue[0]), queue.skip(1), budget)
    }
}

/// The frame that announces our transport parameters.
pub open spec fn hello(config: Config) -> Seq<u8> {
    transport_parameters_frame(written(table(local_params(config))))
}

/// Whether a ping request goes out behind `buf`.
pub open spec fn pings(st: State, buf: Seq<u8>) -> bool {
    st.ping_request_pending && buf.len() + ping_frame(false, VarInt::of(st.next_ping_seq)).len()
        <= record_budget(st)
}

/// The next record, or as much of it as does not come from the stream state machine.
pub open spec fn transmission(st: State, now: Instant) -> (State, Transmission<Seq<u8>>) {
    if st.close_sent {
        (st, Transmission::Nothing)
    } else {
        let start = if st.params_sent {
            Seq::empty()
        } else {
            hello(st.config)
        };
        if st.error is Some {
            match st.close {
                None => (
                    State { params_sent: true, close_sent: true, ..st },
                    if start.len() == 0 {
                        Transmission::Nothing
                    } else {
                        Transmission::Record(start)
                    },
                ),
                Some(close) => (
                    State {
                        params_sent: true,
                        close: None,
                        close_sent: true,
                        idle: st.idle.after_sending(now),
                        ..st
                    },
                    Transmission::Record(start + close_frame(close)),
                ),
            }
        } else {
            let budget = record_budget(st);
            let (b1, responses) = fit_responses(start, st.ping_responses, budget);
            let b2 = if pings(st, b1) {
                b1 + ping_frame(false, VarInt::of(st.next_ping_seq))
            } else {
                b1
            };
            let (b3, datagrams) = fit_datagrams(b2, st.datagram_send, budget);
            (
                State {
                    params_sent: true,
                    ping_responses: responses,
                    next_ping_seq: if pings(st, b1) {
                        (st.next_ping_seq + 1) as u64
                    } else {
                        st.next_ping_seq
                    },
                    ping_request_pending: st.ping_request_pending && !pings(st, b1),
                    datagram_send: datagrams,
                    max_data_pending: false,
                    ..st
                },
                Transmission::Open { frames: b3, budget, max_data: st.max_data_pending },
            )
        }
    }
}

/// The payload of the record that a transmission ended up with, and the connection after it.
pub open spec fn completed(st: State, t: Transmission<Seq<u8>>, now: Instant) -> (
    State,
    Option<Seq<u8>>,
) {
    match t {
        Transmission::Nothing => (st, None),
        Transmission::Record(frames) => (st, Some(frames)),
        Transmission::Open { frames, .. } => if frames.len() == 0 {
            (st, None)
        } else {
            (State { idle: st.idle.after_sending(now), ..st }, Some(frames))
        },
    }
}

/// Largest datagram frame that the peer accepts in a record.
pub open spec fn datagram_limit(max_frame: VarInt, peer: QmuxParams) -> u64 {
    if max_frame.value() <= peer.max_record_size.value() {
        max_frame.value()
    } else {
        peer.max_record_size.value()
    }
}

/// Whether `n` octets are the largest datagram whose frame takes no more than `limit` octets;
/// zero where not even the frame of an empty datagram does.
pub open spec fn is_largest_datagram(n: usize, limit: u64) -> bool {
    if limit < 2 {
        n == 0
    } else {
        &&& datagram_size(n as nat) <= limit
        &&& n == usize::MAX || datagram_size((n + 1) as nat) > limit
    }
}

/// The application sends a datagram.
pub open spec fn datagram_sent(st: State, data: Seq<u8>) -> (State, Result<(), SendDatagramError>) {
    match st.peer_params {
        None => (st, Err(SendDatagramError::NotYetReady)),
        Some(peer) => match peer.tp.max_datagram_frame_size {
            None => (st, Err(SendDatagramError::UnsupportedByPeer)),
            Some(max_frame) => if datagram_size(data.len()) > datagram_limit(max_frame, peer) {
                (st, Err(SendDatagramError::TooLarge))
            } else {
                (
                    State {
                        datagram_send: enqueued(
                            st.datagram_send,
                            st.config.datagram_send_queue,
                            data,
                        ),
                        ..st
                    },
                    Ok(()),
                )
            },
        },
    }
}

/// Timeouts are looked at.
pub open spec fn timeout_handled(st: State, now: Instant) -> State {
    if st.error is Some {
        st
    } else if st.idle.spec_expired(now) {
        lost(st, ConnectionError::TimedOut)
    } else if st.idle.keepalive_due(now) {
        State {
            idle: IdleTimer { keepalive_at: due(now, st.idle.keepalive), ..st.idle },
            ping_request_pending: true,
            ..st
        }
    } else {
        st
    }
}

} // verus!
