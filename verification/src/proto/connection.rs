//! QMux connection state machine.
//!
//! [`Connection`] multiplexes QUIC streams and flow control over a single reliable, ordered
//! byte stream. It performs no I/O, and it leaves streams themselves to a stream state
//! machine beside it: received octets yield a [`StreamCall`] at a time, which the driver has
//! that machine perform and answers with [`Connection::resume`]; a record to send is handed to
//! that machine for its own frames before it is complete. Data counts as acknowledged the
//! moment it is handed to the transport, and nothing is ever retransmitted at this layer.

use crate::buffer::{as_slice, from_vec, octets};
use crate::config::Config;
use crate::proto::event::{ConnectionError, Event, SendDatagramError};
use crate::proto::frame::{
    datagram_frame_size, encode_close, encode_datagram, encode_ping, encode_transport_parameters,
    ping_frame, ping_size, Close, Frame,
};
use crate::proto::params::{table, QmuxParams, DEFAULT_MAX_RECORD_SIZE};
use crate::proto::record::{self, Deframer};
use crate::proto::state::{
    answered, closed, completed, datagram_limit, datagram_sent, enqueued,
    failed, fit_datagrams, fit_responses, hello, idle_millis, initial_state, input_received,
    is_largest_datagram, keepalive_interval, local_params, lost, on_frame, pings, record_budget, record_received, run, run_frames,
    run_input, timeout_handled, transmission, valid, Outcome, State, Step,
    StreamCall, Transmission,
};
use crate::proto::steps::{
    lemma_any_input, lemma_at_rest, lemma_frames_at_rest, lemma_frames_elsewhere, lemma_frames_keep,
};
use crate::proto::timer::{negotiate_max_idle_timeout, IdleTimer};
use crate::stream_id::{Dir, Side, StreamId};
use crate::streams::event::StreamEvent;
use crate::streams::frame::ResetStream;
use crate::streams::order::ReceiveOrder;
use crate::streams::wire::datagram_frame;
use crate::time::{group_time, Duration, Instant};
use crate::transport_error::{TransportError, PROTOCOL_VIOLATION};
use crate::transport_parameters::{lemma_written_len, written, TransportParameters};
use crate::varint::{encoded_size, group_varint, VarInt, VARINT_BOUND};
use bytes::Bytes;
use std::collections::VecDeque;
use vstd::prelude::*;
use vstd::string::*;
use vstd::utf8::encode_utf8;

verus! {

broadcast use {group_varint, group_time};

/// A QMux connection over a reliable, ordered transport.
pub struct Connection {
    side: Side,
    config: Config,
    params_sent: bool,
    peer_params: Option<QmuxParams>,
    /// Next expected receive offset per live stream.
    order: ReceiveOrder,
    deframer: Deframer,
    /// Frames of the current record that wait for the stream state machine, and the size of
    /// that record.
    record: Option<(Bytes, usize)>,
    streaming: bool,
    idle: IdleTimer,
    next_ping_seq: u64,
    greatest_ping_recv: Option<u64>,
    ping_request_pending: bool,
    ping_responses: VecDeque<VarInt>,
    max_data_pending: bool,
    datagram_send: VecDeque<Bytes>,
    datagram_recv: VecDeque<Bytes>,
    /// CONNECTION_CLOSE / APPLICATION_CLOSE frame awaiting transmission.
    close: Option<Close>,
    close_sent: bool,
    error: Option<ConnectionError>,
    events: VecDeque<Event>,
}

/// The contents of buffers.
pub open spec fn contents(s: Seq<Bytes>) -> Seq<Seq<u8>> {
    s.map_values(|b: Bytes| octets(b))
}

/// The events that a queue holds.
pub open spec fn reported(s: Seq<Event>) -> Seq<Event<Seq<char>, Seq<u8>>> {
    s.map_values(|e: Event| e@)
}

impl View for Connection {
    type V = State;

    closed spec fn view(&self) -> State {
        State {
            side: self.side,
            config: self.config,
            params_sent: self.params_sent,
            peer_params: self.peer_params,
            offsets: self.order@,
            input: self.deframer@,
            record: match self.record {
                Some((rest, len)) => Some((octets(rest), len)),
                None => None,
            },
            streaming: self.streaming,
            idle: self.idle,
            next_ping_seq: self.next_ping_seq,
            greatest_ping_recv: self.greatest_ping_recv,
            ping_request_pending: self.ping_request_pending,
            ping_responses: self.ping_responses@,
            max_data_pending: self.max_data_pending,
            datagram_send: contents(self.datagram_send@),
            datagram_recv: contents(self.datagram_recv@),
            close: match self.close {
                Some(close) => Some(close@),
                None => None,
            },
            close_sent: self.close_sent,
            error: match self.error {
                Some(e) => Some(e@),
                None => None,
            },
            events: reported(self.events@),
        }
    }
}

impl View for StreamCall<Bytes> {
    type V = StreamCall<Seq<u8>>;

    open spec fn view(&self) -> StreamCall<Seq<u8>> {
        match *self {
            StreamCall::SetParameters(tp) => StreamCall::SetParameters(tp),
            StreamCall::Data { frame, allocation_size } => StreamCall::Data {
                frame: frame@,
                allocation_size,
            },
            StreamCall::Reset(reset) => StreamCall::Reset(reset),
            StreamCall::StopSending { id, error_code } => StreamCall::StopSending {
                id,
                error_code,
            },
            StreamCall::MaxData(max) => StreamCall::MaxData(max),
            StreamCall::MaxStreamData { id, offset } => StreamCall::MaxStreamData { id, offset },
            StreamCall::MaxStreams { dir, count } => StreamCall::MaxStreams { dir, count },
            StreamCall::QueueMaxStreams => StreamCall::QueueMaxStreams,
        }
    }
}

impl View for Step<Bytes> {
    type V = Step<Seq<u8>>;

    open spec fn view(&self) -> Step<Seq<u8>> {
        match *self {
            Step::Done => Step::Done,
            Step::Call(call) => Step::Call(call@),
        }
    }
}

impl View for Transmission<Vec<u8>> {
    type V = Transmission<Seq<u8>>;

    open spec fn view(&self) -> Transmission<Seq<u8>> {
        match *self {
            Transmission::Nothing => Transmission::Nothing,
            Transmission::Record(frames) => Transmission::Record(frames@),
            Transmission::Open { frames, budget, max_data } => Transmission::Open {
                frames: frames@,
                budget,
                max_data,
            },
        }
    }
}

/// Whether a result is the given outcome.
pub open spec fn is_outcome(r: Result<Step, ConnectionError>, outcome: Outcome) -> bool {
    match outcome {
        Ok(step) => r is Ok && r->Ok_0@ == step,
        Err(e) => r is Err && r->Err_0@ == e,
    }
}

/// The answer of the stream state machine, over plain sequences.
pub open spec fn given(answer: Result<bool, TransportError>) -> Result<
    bool,
    TransportError<Seq<char>>,
> {
    match answer {
        Ok(max_data) => Ok(max_data),
        Err(e) => Err(e@),
    }
}

proof fn lemma_contents_push(s: Seq<Bytes>, b: Bytes)
    ensures
        contents(s.push(b)) == contents(s).push(octets(b)),
{
    assert(contents(s.push(b)) =~= contents(s).push(octets(b)));
}

proof fn lemma_contents_pop(s: Seq<Bytes>)
    requires
        s.len() > 0,
    ensures
        contents(s.subrange(1, s.len() as int)) == contents(s).skip(1),
        octets(s[0]) == contents(s)[0],
{
    assert(contents(s.subrange(1, s.len() as int)) =~= contents(s).skip(1));
}

proof fn lemma_reported_push(s: Seq<Event>, e: Event)
    ensures
        reported(s.push(e)) == reported(s).push(e@),
{
    assert(reported(s.push(e)) =~= reported(s).push(e@));
}

/// Append to a queue; a full queue loses its oldest item.
fn enqueue(queue: &mut VecDeque<Bytes>, capacity: usize, item: Bytes)
    ensures
        contents(final(queue)@) == enqueued(contents(old(queue)@), capacity, octets(item)),
{
    if queue.len() >= capacity {
        proof {
            if queue@.len() > 0 {
                lemma_contents_pop(queue@);
            }
        }
        let _oldest = queue.pop_front();
    }
    proof {
        lemma_contents_push(queue@, item);
    }
    queue.push_back(item);
}

fn keepalive(config: &Config, timeout: Option<Duration>) -> (r: Option<Duration>)
    ensures
        r == keepalive_interval(*config, timeout),
{
    match (config.keep_alive_interval, timeout) {
        (Some(interval), _) => Some(interval),
        (None, Some(timeout)) => Some(timeout.third()),
        (None, None) => None,
    }
}

fn violated(reason: &str) -> (e: TransportError)
    ensures
        e@ == crate::proto::state::violation(reason@),
{
    TransportError::new(PROTOCOL_VIOLATION, reason)
}

fn idle_parameter(timeout: Option<Duration>) -> (v: VarInt)
    ensures
        v == VarInt::of(idle_millis(timeout)),
{
    let millis: u128 = match timeout {
        Some(timeout) => timeout.as_millis(),
        None => 0,
    };
    if millis < VARINT_BOUND as u128 {
        match VarInt::from_u64(millis as u64) {
            Ok(v) => v,
            Err(_) => VarInt::max(),
        }
    } else {
        let v = VarInt::max();
        proof {
            VarInt::lemma_value_of(v);
        }
        v
    }
}

/// The largest datagram whose frame takes no more than `limit` octets. What is left beside the
/// type of the frame depends on how long the length of the datagram is.
fn largest_datagram(limit: u64) -> (n: usize)
    ensures
        is_largest_datagram(n, limit),
{
    let n: u64 = if limit >= 0x4000_0000 + 9 {
        limit - 9
    } else if limit >= 0x4000_0000 + 4 {
        0x3fff_ffff
    } else if limit >= 0x4000 + 5 {
        limit - 5
    } else if limit >= 0x4000 + 2 {
        0x3fff
    } else if limit >= 0x40 + 3 {
        limit - 3
    } else if limit >= 0x40 + 1 {
        0x3f
    } else {
        limit.saturating_sub(2)
    };
    if n <= usize::MAX as u64 {
        n as usize
    } else {
        usize::MAX
    }
}

impl Connection {
    /// Create a connection; `side` distinguishes client- from server-initiated stream IDs.
    pub fn new(config: Config, side: Side, now: Instant) -> (c: Connection)
        requires
            now.in_range(),
        ensures
            c@ == initial_state(config, side, now),
            valid(c@),
    {
        let local = idle_parameter(config.max_idle_timeout);
        let interval = keepalive(&config, negotiate_max_idle_timeout(Some(local), None));
        let c = Connection {
            side,
            config,
            params_sent: false,
            peer_params: None,
            order: ReceiveOrder::new(),
            deframer: Deframer::default(),
            record: None,
            streaming: false,
            idle: IdleTimer::new(Some(local), interval, now),
            next_ping_seq: 0,
            greatest_ping_recv: None,
            ping_request_pending: false,
            ping_responses: VecDeque::new(),
            max_data_pending: false,
            datagram_send: VecDeque::new(),
            datagram_recv: VecDeque::new(),
            close: None,
            close_sent: false,
            error: None,
            events: VecDeque::new(),
        };
        assert(c@ =~= initial_state(config, side, now));
        c
    }

    /// Which side of the connection this is.
    pub fn side(&self) -> (side: Side)
        ensures
            side == self@.side,
    {
        self.side
    }

    /// Limits of this endpoint.
    pub fn config(&self) -> (config: Config)
        ensures
            config == self@.config,
    {
        self.config
    }

    /// Whether the peer's transport parameters have been received.
    pub fn is_established(&self) -> (b: bool)
        ensures
            b == (self@.peer_params is Some && self@.error is None),
    {
        self.peer_params.is_some() && self.error.is_none()
    }

    /// Whether the connection has terminated.
    pub fn is_closed(&self) -> (b: bool)
        ensures
            b == (self@.error is Some),
    {
        self.error.is_some()
    }

    /// The reason the connection terminated, if it has.
    pub fn error(&self) -> (e: Option<&ConnectionError>)
        ensures
            match self@.error {
                Some(reason) => e is Some && e->0@ == reason,
                None => e is None,
            },
    {
        match &self.error {
            Some(e) => Some(e),
            None => None,
        }
    }

    /// Number of received octets that no record was made of yet.
    pub fn buffered(&self) -> (n: usize)
        ensures
            n == self@.input.len(),
    {
        self.deframer.buffered()
    }

    /// Terminate the connection with `reason` if it hasn't terminated already.
    fn lost(&mut self, reason: ConnectionError)
        ensures
            final(self)@ == lost(old(self)@, reason@),
    {
        if self.error.is_some() {
            return;
        }
        let event = Event::ConnectionLost { reason: reason.duplicate() };
        proof {
            lemma_reported_push(self.events@, event);
        }
        self.error = Some(reason);
        self.events.push_back(event);
    }

    /// Record a protocol error: queue a CONNECTION_CLOSE and terminate.
    fn fail(&mut self, error: TransportError) -> (reason: ConnectionError)
        ensures
            final(self)@ == failed(old(self)@, error@),
            reason@ == ConnectionError::<Seq<char>, Seq<u8>>::TransportError(error@),
    {
        let reason = ConnectionError::TransportError(error.duplicate());
        if self.error.is_none() {
            self.close = Some(
                Close {
                    is_application: false,
                    error_code: error.code,
                    frame_type: None,
                    reason: from_vec(error.reason.as_str().as_bytes_vec()),
                },
            );
            self.lost(ConnectionError::TransportError(error));
        }
        reason
    }

    /// Accept the transport parameters of the peer.
    fn on_parameters(&mut self, blob: Bytes, now: Instant) -> (r: Result<
        StreamCall,
        TransportError,
    >)
        requires
            now.in_range(),
            old(self)@.peer_params is None,
        ensures
            match on_frame(old(self)@, Frame::TransportParameters(octets(blob)), 0, now) {
                Ok((st, call)) => final(self)@ == st && r is Ok && call == Some(r->Ok_0@),
                Err(e) => final(self)@ == old(self)@ && r is Err && r->Err_0@ == e,
            },
    {
        let peer = match QmuxParams::decode(self.side, blob) {
            Ok(peer) => peer,
            Err(e) => return Err(e),
        };
        let ghost before = self@;
        self.idle.set_peer_timeout(peer.tp.max_idle_timeout, now);
        let interval = keepalive(&self.config, self.idle.effective);
        self.idle.set_keepalive(interval, now);
        self.peer_params = Some(peer);
        let bi = Event::Stream(StreamEvent::Available { dir: Dir::Bi });
        let uni = Event::Stream(StreamEvent::Available { dir: Dir::Uni });
        proof {
            let q = self.events@;
            lemma_reported_push(q, Event::Connected);
            lemma_reported_push(q.push(Event::Connected), bi);
            lemma_reported_push(q.push(Event::Connected).push(bi), uni);
        }
        self.events.push_back(Event::Connected);
        // Wake anything waiting to open a stream now that limits are known
        self.events.push_back(bi);
        self.events.push_back(uni);
        let tp = TransportParameters {
            max_idle_timeout: VarInt::from_u32(0),
            max_datagram_frame_size: None,
            ..peer.tp
        };
        Ok(StreamCall::SetParameters(tp))
    }

    /// Accept a datagram.
    fn on_datagram(&mut self, data: Bytes) -> (r: Result<(), TransportError>)
        requires
            old(self)@.peer_params is Some,
        ensures
            forall|len: usize, now: Instant|
                match #[trigger] on_frame(
                    old(self)@,
                    Frame::Datagram(octets(data)),
                    len,
                    now,
                ) {
                    Ok((st, call)) => final(self)@ == st && r is Ok && call is None,
                    Err(e) => final(self)@ == old(self)@ && r is Err && r->Err_0@ == e,
                },
    {
        let max: u64 = match self.config.max_datagram_frame_size {
            Some(max) => max.into_inner(),
            None => return Err(violated("DATAGRAM frame received but datagrams are disabled")),
        };
        if datagram_frame_size(data.len()) > max as u128 {
            return Err(violated("oversized DATAGRAM frame"));
        }
        proof {
            lemma_reported_push(self.events@, Event::DatagramReceived);
        }
        // Received datagrams may be dropped when the application lags
        let capacity: usize = self.config.datagram_recv_queue;
        enqueue(&mut self.datagram_recv, capacity, data);
        self.events.push_back(Event::DatagramReceived);
        Ok(())
    }

    fn on_frame(&mut self, frame: Frame, payload_len: usize, now: Instant) -> (r: Result<
        Option<StreamCall>,
        TransportError,
    >)
        requires
            now.in_range(),
        ensures
            match on_frame(old(self)@, frame@, payload_len, now) {
                Ok((st, Some(call))) => final(self)@ == st && r is Ok && r->Ok_0 is Some
                    && r->Ok_0->0@ == call,
                Ok((st, None)) => final(self)@ == st && r is Ok && r->Ok_0 is None,
                Err(e) => final(self)@ == old(self)@ && r is Err && r->Err_0@ == e,
            },
    {
        // QX_TRANSPORT_PARAMETERS must be the first frame received, exactly once
        let is_params = match &frame {
            Frame::TransportParameters(_) => true,
            _ => false,
        };
        if self.peer_params.is_some() && is_params {
            return Err(violated("duplicate QX_TRANSPORT_PARAMETERS frame"));
        }
        if self.peer_params.is_none() && !is_params {
            return Err(violated("first frame was not QX_TRANSPORT_PARAMETERS"));
        }
        match frame {
            Frame::TransportParameters(blob) => match self.on_parameters(blob, now) {
                Ok(call) => Ok(Some(call)),
                Err(e) => Err(e),
            },
            Frame::Stream(stream) => {
                // Stream payloads arrive in offset order; a gap can only mean a peer bug,
                // since the transport is ordered. Data on a stream that already ended is
                // likewise a violation of its final size.
                if !self.order.advance(stream.id, stream.offset, stream.data.len(), stream.fin) {
                    return Err(violated("stream payload received out of order"));
                }
                Ok(Some(StreamCall::Data { frame: stream, allocation_size: payload_len }))
            },
            Frame::ResetStream(reset) => {
                self.order.forget(reset.id);
                Ok(Some(StreamCall::Reset(reset)))
            },
            Frame::ResetStreamAt(reset) => {
                self.order.forget(reset.id);
                Ok(Some(StreamCall::Reset(reset)))
            },
            Frame::StopSending { id, error_code } => Ok(
                Some(StreamCall::StopSending { id, error_code }),
            ),
            Frame::MaxData(max) => Ok(Some(StreamCall::MaxData(max))),
            Frame::MaxStreamData { id, offset } => Ok(
                Some(StreamCall::MaxStreamData { id, offset: offset.into_inner() }),
            ),
            Frame::MaxStreams { dir, count } => Ok(
                Some(StreamCall::MaxStreams { dir, count: count.into_inner() }),
            ),
            Frame::DataBlocked { .. } => Ok(None),
            Frame::StreamDataBlocked { .. } => Ok(None),
            Frame::StreamsBlocked { .. } => Ok(None),
            Frame::Close(close) => {
                let reason = if close.is_application {
                    ConnectionError::ApplicationClosed {
                        error_code: close.error_code,
                        reason: close.reason,
                    }
                } else {
                    ConnectionError::ConnectionClosed {
                        error_code: close.error_code,
                        frame_type: close.frame_type,
                        reason: close.reason,
                    }
                };
                self.lost(reason);
                Ok(None)
            },
            Frame::Datagram(data) => match self.on_datagram(data) {
                Ok(()) => Ok(None),
                Err(e) => Err(e),
            },
            Frame::PingRequest(seq) => {
                let seq_value: u64 = seq.into_inner();
                let stale = match self.greatest_ping_recv {
                    Some(greatest) => seq_value <= greatest,
                    None => false,
                };
                if stale {
                    return Err(violated("QX_PING sequence number did not increase"));
                }
                self.greatest_ping_recv = Some(seq_value);
                self.ping_responses.push_back(seq);
                Ok(None)
            },
            Frame::PingResponse(seq) => {
                if seq.into_inner() >= self.next_ping_seq {
                    return Err(violated("QX_PING response for a request we never sent"));
                }
                Ok(None)
            },
        }
    }

    /// Process the frames of a record up to the next call.
    fn run_frames(&mut self, frames: Bytes, payload_len: usize, now: Instant) -> (r: Result<
        Step,
        ConnectionError,
    >)
        requires
            now.in_range(),
        ensures
            final(self)@ == run_frames(old(self)@, octets(frames), payload_len, now).0,
            is_outcome(r, run_frames(old(self)@, octets(frames), payload_len, now).1),
    {
        let ghost whole = run_frames(self@, octets(frames), payload_len, now);
        let mut rest = frames;
        loop
            invariant
                run_frames(self@, octets(rest), payload_len, now) == whole,
                whole == run_frames(old(self)@, octets(frames), payload_len, now),
                now.in_range(),
            decreases octets(rest).len(),
        {
            proof {
                crate::proto::frame::law_frame_progress(octets(rest));
            }
            let frame = match Frame::decode(&mut rest) {
                Ok(Some(frame)) => frame,
                Ok(None) => {
                    self.record = None;
                    return Ok(Step::Call(StreamCall::QueueMaxStreams));
                },
                Err(e) => {
                    self.record = None;
                    self.streaming = false;
                    return Err(self.fail(e));
                },
            };
            match self.on_frame(frame, payload_len, now) {
                Ok(Some(call)) => {
                    self.record = Some((rest, payload_len));
                    return Ok(Step::Call(call));
                },
                Ok(None) => {
                    if self.is_closed() {
                        // The peer closed the connection; ignore any trailing frames
                        self.record = None;
                        return Ok(Step::Done);
                    }
                },
                Err(e) => {
                    self.record = None;
                    self.streaming = false;
                    return Err(self.fail(e));
                },
            }
        }
    }

    /// Process buffered octets record by record, up to the next call.
    fn run_input(&mut self, now: Instant) -> (r: Result<Step, ConnectionError>)
        requires
            now.in_range(),
        ensures
            final(self)@ == run_input(old(self)@, old(self)@.input, now).0,
            is_outcome(r, run_input(old(self)@, old(self)@.input, now).1),
    {
        let ghost whole = run_input(self@, self@.input, now);
        loop
            invariant
                run_input(self@, self@.input, now) == whole,
                whole == run_input(old(self)@, old(self)@.input, now),
                now.in_range(),
            decreases self@.input.len(),
        {
            let ghost before = self@;
            proof {
                crate::proto::record::lemma_next_record_shortens(
                    self@.input,
                    self@.config.max_record_size.value(),
                );
            }
            let max_size: u64 = self.config.max_record_size.into_inner();
            match self.deframer.next(max_size) {
                Ok(Some(payload)) => {
                    if self.is_closed() {
                        proof {
                            lemma_any_input(before, self@, self@.input, now);
                        }
                        continue ;
                    }
                    self.idle.on_record_received(now);
                    let payload_len: usize = payload.len();
                    let ghost started = self@;
                    proof {
                        lemma_frames_keep(started, octets(payload), payload_len, now);
                    }
                    match self.run_frames(payload, payload_len, now) {
                        Ok(Step::Done) => {},
                        r => return r,
                    }
                },
                Ok(None) => {
                    self.record = None;
                    self.streaming = false;
                    return Ok(Step::Done);
                },
                Err(e) => {
                    self.record = None;
                    self.streaming = false;
                    return Err(self.fail(e));
                },
            }
        }
    }
}

/// Append ping responses while they fit.
fn put_responses(buf: &mut Vec<u8>, queue: &mut VecDeque<VarInt>, budget: usize)
    ensures
        (final(buf)@, final(queue)@) == fit_responses(old(buf)@, old(queue)@, budget),
{
    let ghost whole = fit_responses(buf@, queue@, budget);
    while queue.len() > 0
        invariant_except_break
            fit_responses(buf@, queue@, budget) == whole,
        invariant
            whole == fit_responses(old(buf)@, old(queue)@, budget),
        ensures
            (buf@, queue@) == whole,
        decreases queue@.len(),
    {
        let seq = queue[0];
        assert(ping_size_is(seq));
        if buf.len() as u128 + ping_size(seq) as u128 > budget as u128 {
            break;
        }
        encode_ping(buf, true, seq);
        let _first = queue.pop_front();
    }
}

/// The size that is reserved for a ping response is the size it takes.
spec fn ping_size_is(seq: VarInt) -> bool {
    ping_frame(true, seq).len() == 8 + encoded_size(seq.value())
}

/// Append datagrams while they fit.
fn put_datagrams(buf: &mut Vec<u8>, queue: &mut VecDeque<Bytes>, budget: usize)
    requires
        forall|i: int|
            0 <= i < contents(old(queue)@).len() ==> (#[trigger] contents(old(queue)@)[i]).len()
                < VARINT_BOUND,
    ensures
        (final(buf)@, contents(final(queue)@)) == fit_datagrams(
            old(buf)@,
            contents(old(queue)@),
            budget,
        ),
{
    let ghost whole = fit_datagrams(buf@, contents(queue@), budget);
    while queue.len() > 0
        invariant_except_break
            fit_datagrams(buf@, contents(queue@), budget) == whole,
            forall|i: int|
                0 <= i < contents(queue@).len() ==> (#[trigger] contents(queue@)[i]).len()
                    < VARINT_BOUND,
        invariant
            whole == fit_datagrams(old(buf)@, contents(old(queue)@), budget),
        ensures
            (buf@, contents(queue@)) == whole,
        decreases queue@.len(),
    {
        proof {
            lemma_contents_pop(queue@);
        }
        let ghost before = contents(queue@);
        let size: u128 = datagram_frame_size(queue[0].len());
        assert(size == datagram_frame(before[0]).len());
        if buf.len() as u128 + size > budget as u128 {
            break;
        }
        encode_datagram(buf, as_slice(&queue[0]));
        let _first = queue.pop_front();
        assert forall|i: int| 0 <= i < contents(queue@).len() implies (#[trigger] contents(
            queue@,
        )[i]).len() < VARINT_BOUND by {
            assert(contents(queue@)[i] == before[i + 1]);
        }
    }
}

impl Connection {
    /// Go on where processing stopped, up to the next call.
    fn run(&mut self, now: Instant) -> (r: Result<Step, ConnectionError>)
        requires
            now.in_range(),
        ensures
            final(self)@ == run(old(self)@, now).0,
            is_outcome(r, run(old(self)@, now).1),
    {
        match self.record.take() {
            Some((rest, len)) => {
                proof {
                    lemma_frames_elsewhere(
                        self@,
                        old(self)@.input,
                        old(self)@.record,
                        octets(rest),
                        len,
                        now,
                    );
                    lemma_frames_keep(self@, octets(rest), len, now);
                    assert(old(self)@ == State { record: old(self)@.record, ..self@ });
                }
                match self.run_frames(rest, len, now) {
                    Ok(Step::Done) => if self.streaming {
                        self.run_input(now)
                    } else {
                        Ok(Step::Done)
                    },
                    r => r,
                }
            },
            None => if self.streaming {
                self.run_input(now)
            } else {
                Ok(Step::Done)
            },
        }
    }

    /// Feed octets received from the underlying transport.
    ///
    /// Accepts arbitrary chunkings; records are reassembled internally. On error the
    /// connection is closed and a final CONNECTION_CLOSE record is available from
    /// [`Self::transmit`].
    pub fn handle_input(&mut self, data: &[u8], now: Instant) -> (r: Result<Step, ConnectionError>)
        requires
            now.in_range(),
            valid(old(self)@),
            4 * (old(self)@.input.len() + data@.len()) <= isize::MAX,
        ensures
            final(self)@ == input_received(old(self)@, data@, now).0,
            is_outcome(r, input_received(old(self)@, data@, now).1),
            valid(final(self)@),
            old(self)@.record is None && !(r matches Ok(Step::Call(_))) ==> final(self)@.record is None,
    {
        proof {
            crate::proto::valid::law_receiving_keeps_valid(self@, data@, Ok(false), now);
            lemma_at_rest(
                State { input: self@.input + data@, streaming: true, ..self@ },
                now,
            );
        }
        if self.is_closed() {
            return Ok(Step::Done);
        }
        self.deframer.push(data);
        self.streaming = true;
        self.run(now)
    }

    /// Process the frames payload of one record.
    ///
    /// For message-oriented transports (e.g. WebSocket) where the transport already delimits
    /// records; byte-stream transports use [`Self::handle_input`]. The record before must have
    /// been processed to its end.
    pub fn handle_record(&mut self, payload: Bytes, now: Instant) -> (r: Result<
        Step,
        ConnectionError,
    >)
        requires
            now.in_range(),
            valid(old(self)@),
            old(self)@.record is None,
        ensures
            final(self)@ == record_received(old(self)@, octets(payload), now).0,
            is_outcome(r, record_received(old(self)@, octets(payload), now).1),
            valid(final(self)@),
            !(r matches Ok(Step::Call(_))) ==> final(self)@.record is None,
    {
        proof {
            let s = octets(payload);
            crate::proto::valid::law_receiving_keeps_valid(self@, s, Ok(false), now);
            lemma_frames_at_rest(
                State { idle: self@.idle.rearmed(now), ..self@ },
                s,
                s.len() as usize,
                now,
            );
        }
        if self.is_closed() {
            return Ok(Step::Done);
        }
        self.idle.on_record_received(now);
        let payload_len: usize = payload.len();
        self.run_frames(payload, payload_len, now)
    }

    /// Take the answer of the stream state machine to the last call and go on.
    ///
    /// The answer is the protocol violation that the machine found, or else whether
    /// connection-level credit is to be announced to the peer.
    pub fn resume(&mut self, answer: Result<bool, TransportError>, now: Instant) -> (r: Result<
        Step,
        ConnectionError,
    >)
        requires
            now.in_range(),
            valid(old(self)@),
            answer matches Err(e) ==> encode_utf8(e@.reason).len() < VARINT_BOUND,
        ensures
            final(self)@ == answered(old(self)@, given(answer), now).0,
            is_outcome(r, answered(old(self)@, given(answer), now).1),
            valid(final(self)@),
            !(r matches Ok(Step::Call(_))) ==> final(self)@.record is None,
    {
        proof {
            if let Err(e) = &answer {
                use_type_invariant(&e.code);
            }
            let a = given(answer);
            crate::proto::valid::law_receiving_keeps_valid(self@, Seq::empty(), a, now);
            if let Ok(b) = a {
                lemma_at_rest(
                    State { max_data_pending: self@.max_data_pending || b, ..self@ },
                    now,
                );
            }
        }
        match answer {
            Ok(max_data) => {
                self.max_data_pending = self.max_data_pending || max_data;
                self.run(now)
            },
            Err(e) => {
                self.record = None;
                self.streaming = false;
                Err(self.fail(e))
            },
        }
    }

    /// The underlying transport failed or reached EOF without a close frame.
    pub fn transport_closed(&mut self)
        requires
            valid(old(self)@),
        ensures
            final(self)@ == lost(old(self)@, ConnectionError::TransportClosed),
            valid(final(self)@),
    {
        self.lost(ConnectionError::TransportClosed);
    }

    /// Close the connection, notifying the peer with an APPLICATION_CLOSE frame.
    ///
    /// The final record is produced by the next [`Self::transmit`]; the caller should then
    /// flush it and gracefully shut down its sending side of the transport.
    pub fn close(&mut self, error_code: VarInt, reason: Bytes)
        requires
            valid(old(self)@),
            octets(reason).len() < VARINT_BOUND,
        ensures
            final(self)@ == closed(old(self)@, error_code, octets(reason)),
            valid(final(self)@),
    {
        if self.is_closed() {
            return;
        }
        proof {
            use_type_invariant(&error_code);
        }
        self.close = Some(Close { is_application: true, error_code, frame_type: None, reason });
        self.lost(ConnectionError::LocallyClosed);
    }
}

impl Connection {
    fn local_params(&self) -> (p: QmuxParams)
        ensures
            p == local_params(self@.config),
    {
        QmuxParams {
            tp: TransportParameters {
                max_idle_timeout: idle_parameter(self.config.max_idle_timeout),
                initial_max_data: self.config.receive_window,
                initial_max_stream_data_bidi_local: self.config.stream_receive_window,
                initial_max_stream_data_bidi_remote: self.config.stream_receive_window,
                initial_max_stream_data_uni: self.config.stream_receive_window,
                initial_max_streams_bidi: self.config.max_concurrent_bidi_streams,
                initial_max_streams_uni: self.config.max_concurrent_uni_streams,
                max_datagram_frame_size: self.config.max_datagram_frame_size,
            },
            max_record_size: self.config.max_record_size,
        }
    }

    /// Largest frames payload we may place in a single record.
    fn record_budget(&self) -> (n: usize)
        ensures
            n == record_budget(self@),
    {
        let max: u64 = match &self.peer_params {
            Some(peer) => peer.max_record_size.into_inner(),
            None => DEFAULT_MAX_RECORD_SIZE,
        };
        if max <= usize::MAX as u64 {
            max as usize
        } else {
            usize::MAX
        }
    }

    /// Whether there is a sequence number left for a ping request that is to be sent.
    pub fn can_ping(&self) -> (b: bool)
        ensures
            b == (self@.ping_request_pending ==> self@.next_ping_seq < VARINT_BOUND),
    {
        !self.ping_request_pending || self.next_ping_seq < VARINT_BOUND
    }

    /// Append a ping request if one is to be sent and it fits.
    fn put_request(&mut self, buf: &mut Vec<u8>, budget: usize)
        requires
            budget == record_budget(old(self)@),
            old(self)@.ping_request_pending ==> old(self)@.next_ping_seq < VARINT_BOUND,
        ensures
            if pings(old(self)@, old(buf)@) {
                &&& final(buf)@ == old(buf)@ + ping_frame(
                    false,
                    VarInt::of(old(self)@.next_ping_seq),
                )
                &&& final(self)@ == (State {
                    next_ping_seq: (old(self)@.next_ping_seq + 1) as u64,
                    ping_request_pending: false,
                    ..old(self)@
                })
            } else {
                final(buf)@ == old(buf)@ && final(self)@ == old(self)@
            },
    {
        if !self.ping_request_pending {
            return;
        }
        let seq = match VarInt::from_u64(self.next_ping_seq) {
            Ok(seq) => seq,
            Err(_) => return,
        };
        assert(ping_frame(false, seq).len() == 8 + encoded_size(seq.value()));
        if buf.len() as u128 + ping_size(seq) as u128 <= budget as u128 {
            encode_ping(buf, false, seq);
            self.next_ping_seq = self.next_ping_seq + 1;
            self.ping_request_pending = false;
        }
    }

    /// Begin the next record: everything but the frames of the stream state machine, which
    /// come last because a STREAM frame that omits its length extends to the end of the
    /// record.
    ///
    /// There must be a sequence number left where a ping request is to be sent.
    pub fn transmit(&mut self, now: Instant) -> (t: Transmission)
        requires
            now.in_range(),
            valid(old(self)@),
            old(self)@.ping_request_pending ==> old(self)@.next_ping_seq < VARINT_BOUND,
        ensures
            final(self)@ == transmission(old(self)@, now).0,
            t@ == transmission(old(self)@, now).1,
            valid(final(self)@),
    {
        proof {
            crate::proto::valid::law_sending_keeps_valid(self@, VarInt::of(0), Seq::empty(), now);
        }
        if self.close_sent {
            return Transmission::Nothing;
        }
        let mut buf: Vec<u8> = Vec::new();
        assert(buf@ =~= Seq::empty());
        // The transport parameters must be the very first frame we send
        if !self.params_sent {
            let params = self.local_params();
            let mut blob: Vec<u8> = Vec::new();
            params.encode(&mut blob);
            proof {
                lemma_written_len(table(params));
                assert(blob@ =~= written(table(params)));
            }
            encode_transport_parameters(&mut buf, blob.as_slice());
            assert(buf@ =~= hello(self@.config));
            self.params_sent = true;
        }
        if self.error.is_some() {
            // Drain: emit the close frame (if any) and go quiet. An idle timeout or transport
            // failure sends nothing.
            self.close_sent = true;
            return match self.close.take() {
                Some(close) => {
                    encode_close(&mut buf, &close);
                    self.idle.on_record_sent(now);
                    Transmission::Record(buf)
                },
                None => if buf.len() == 0 {
                    Transmission::Nothing
                } else {
                    Transmission::Record(buf)
                },
            };
        }
        let budget: usize = self.record_budget();
        put_responses(&mut buf, &mut self.ping_responses, budget);
        self.put_request(&mut buf, budget);
        put_datagrams(&mut buf, &mut self.datagram_send, budget);
        let max_data = self.max_data_pending;
        self.max_data_pending = false;
        Transmission::Open { frames: buf, budget, max_data }
    }

    /// Complete a record that [`Self::transmit`] began and the stream state machine added its
    /// frames to.
    ///
    /// Returns `None` when there is nothing to send. The returned buffer includes the record's
    /// Size prefix; message-oriented transports use [`Self::poll_transmit_payload`].
    pub fn poll_transmit(&mut self, t: Transmission, now: Instant) -> (r: Option<Bytes>)
        requires
            now.in_range(),
            valid(old(self)@),
            completed(old(self)@, t@, now).1 matches Some(frames) ==> frames.len() < VARINT_BOUND,
        ensures
            final(self)@ == completed(old(self)@, t@, now).0,
            match completed(old(self)@, t@, now).1 {
                Some(frames) => r is Some && octets(r->0) == record::record(frames),
                None => r is None,
            },
            valid(final(self)@),
    {
        match t {
            Transmission::Nothing => None,
            Transmission::Record(frames) => Some(record::wrap(frames.as_slice())),
            Transmission::Open { frames, .. } => {
                if frames.len() == 0 {
                    return None;
                }
                self.idle.on_record_sent(now);
                Some(record::wrap(frames.as_slice()))
            },
        }
    }

    /// Like [`Self::poll_transmit`], but without the record Size prefix.
    ///
    /// For message-oriented transports where each transport message is one record.
    pub fn poll_transmit_payload(&mut self, t: Transmission, now: Instant) -> (r: Option<Bytes>)
        requires
            now.in_range(),
            valid(old(self)@),
        ensures
            final(self)@ == completed(old(self)@, t@, now).0,
            match completed(old(self)@, t@, now).1 {
                Some(frames) => r is Some && octets(r->0) == frames,
                None => r is None,
            },
            valid(final(self)@),
    {
        match t {
            Transmission::Nothing => None,
            Transmission::Record(frames) => Some(from_vec(frames)),
            Transmission::Open { frames, .. } => {
                if frames.len() == 0 {
                    return None;
                }
                self.idle.on_record_sent(now);
                Some(from_vec(frames))
            },
        }
    }

    /// The instant at which [`Self::handle_timeout`] should next run.
    pub fn poll_timeout(&self) -> (t: Option<Instant>)
        ensures
            t == (if self@.error is Some {
                None
            } else {
                self@.idle.earliest()
            }),
    {
        if self.is_closed() {
            None
        } else {
            self.idle.next_timeout()
        }
    }

    /// Process idle timeout expiry and keep-alive scheduling.
    pub fn handle_timeout(&mut self, now: Instant)
        requires
            now.in_range(),
            valid(old(self)@),
        ensures
            final(self)@ == timeout_handled(old(self)@, now),
            valid(final(self)@),
    {
        if self.is_closed() {
            return;
        }
        if self.idle.is_expired(now) {
            // Idle timeout shuts the transport down without sending frames
            self.lost(ConnectionError::TimedOut);
            return;
        }
        if self.idle.poll_keepalive(now) {
            self.ping_request_pending = true;
        }
    }

    /// Yield application events of the connection itself; those of the stream state machine
    /// come after them.
    pub fn poll(&mut self) -> (e: Option<Event>)
        requires
            valid(old(self)@),
        ensures
            if old(self)@.events.len() == 0 {
                e is None && final(self)@ == old(self)@
            } else {
                e is Some && e->0@ == old(self)@.events[0] && final(self)@ == (State {
                    events: old(self)@.events.skip(1),
                    ..old(self)@
                })
            },
            valid(final(self)@),
    {
        let e = self.events.pop_front();
        proof {
            if old(self).events@.len() > 0 {
                assert(reported(self.events@) =~= reported(old(self).events@).skip(1));
            }
        }
        e
    }

    /// Queue a datagram for transmission.
    ///
    /// Unlike QUIC, a QMux datagram is delivered reliably and in order once sent, and is
    /// subject to the same head-of-line blocking as other data. If the send queue is full the
    /// oldest queued datagram is dropped.
    pub fn send_datagram(&mut self, data: Bytes) -> (r: Result<(), SendDatagramError>)
        requires
            valid(old(self)@),
        ensures
            final(self)@ == datagram_sent(old(self)@, octets(data)).0,
            r == datagram_sent(old(self)@, octets(data)).1,
            valid(final(self)@),
    {
        let peer = match &self.peer_params {
            Some(peer) => peer,
            None => return Err(SendDatagramError::NotYetReady),
        };
        let max_frame: u64 = match peer.tp.max_datagram_frame_size {
            Some(max) => max.into_inner(),
            None => return Err(SendDatagramError::UnsupportedByPeer),
        };
        let max_record: u64 = peer.max_record_size.into_inner();
        let limit: u64 = if max_frame <= max_record {
            max_frame
        } else {
            max_record
        };
        if datagram_frame_size(data.len()) > limit as u128 {
            return Err(SendDatagramError::TooLarge);
        }
        proof {
            crate::proto::valid::law_datagram_keeps_valid(self@, octets(data));
        }
        let capacity: usize = self.config.datagram_send_queue;
        enqueue(&mut self.datagram_send, capacity, data);
        Ok(())
    }

    /// Receive a queued datagram.
    pub fn recv_datagram(&mut self) -> (r: Option<Bytes>)
        requires
            valid(old(self)@),
        ensures
            if old(self)@.datagram_recv.len() == 0 {
                r is None && final(self)@ == old(self)@
            } else {
                r is Some && octets(r->0) == old(self)@.datagram_recv[0] && final(self)@ == (State {
                    datagram_recv: old(self)@.datagram_recv.skip(1),
                    ..old(self)@
                })
            },
            valid(final(self)@),
    {
        proof {
            if self.datagram_recv@.len() > 0 {
                lemma_contents_pop(self.datagram_recv@);
            }
        }
        self.datagram_recv.pop_front()
    }

    /// Largest datagram payload the peer accepts, or `None` before the handshake or when the
    /// peer disabled datagrams.
    pub fn max_datagram_size(&self) -> (n: Option<usize>)
        ensures
            match self@.peer_params {
                None => n is None,
                Some(peer) => match peer.tp.max_datagram_frame_size {
                    None => n is None,
                    Some(max_frame) => n is Some && is_largest_datagram(
                        n->0,
                        datagram_limit(max_frame, peer),
                    ),
                },
            },
    {
        let peer = match &self.peer_params {
            Some(peer) => peer,
            None => return None,
        };
        let max_frame: u64 = match peer.tp.max_datagram_frame_size {
            Some(max) => max.into_inner(),
            None => return None,
        };
        let max_record: u64 = peer.max_record_size.into_inner();
        let limit: u64 = if max_frame <= max_record {
            max_frame
        } else {
            max_record
        };
        Some(largest_datagram(limit))
    }
}

/// A call stands for itself: it asks of the stream state machine what it holds, field by field.
pub proof fn law_calls_as_made(
    call: StreamCall,
    tp: TransportParameters,
    reset: ResetStream,
    id: StreamId,
    v: VarInt,
    n: u64,
    dir: Dir,
)
    ensures
        call@ == StreamCall::<Seq<u8>>::SetParameters(tp) <==> call
            == StreamCall::<Bytes>::SetParameters(tp),
        call@ == StreamCall::<Seq<u8>>::Reset(reset) <==> call == StreamCall::<Bytes>::Reset(reset),
        call@ == (StreamCall::<Seq<u8>>::StopSending { id, error_code: v }) <==> call == (
        StreamCall::<Bytes>::StopSending { id, error_code: v }),
        call@ == StreamCall::<Seq<u8>>::MaxData(v) <==> call == StreamCall::<Bytes>::MaxData(v),
        call@ == (StreamCall::<Seq<u8>>::MaxStreamData { id, offset: n }) <==> call == (
        StreamCall::<Bytes>::MaxStreamData { id, offset: n }),
        call@ == (StreamCall::<Seq<u8>>::MaxStreams { dir, count: n }) <==> call == (
        StreamCall::<Bytes>::MaxStreams { dir, count: n }),
        call@ is QueueMaxStreams <==> call is QueueMaxStreams,
        call matches StreamCall::Data { frame, allocation_size } ==> {
            &&& call@ matches StreamCall::Data { frame: f, allocation_size: size }
            &&& f.id == frame.id && f.offset == frame.offset && f.fin == frame.fin
            &&& f.data == octets(frame.data)
            &&& size == allocation_size
        },
        call@ is Data ==> call is Data,
{
}

/// What is handed over is what is meant: processing comes to a call, to its end or to an error just
/// as its outcome says, answers count as they were given, and what is to be sent is what is stated
/// of it.
pub proof fn law_handed_over_exactly(
    r: Result<Step, ConnectionError>,
    outcome: Outcome,
    answer: Result<bool, TransportError>,
    t: Transmission,
)
    ensures
        is_outcome(r, outcome) <==> match (r, outcome) {
            (Ok(Step::Done), Ok(Step::Done)) => true,
            (Ok(Step::Call(call)), Ok(Step::Call(asked))) => call@ == asked,
            (Err(e), Err(reason)) => e@ == reason,
            _ => false,
        },
        answer matches Ok(credit) ==> given(answer) == Ok::<bool, TransportError<Seq<char>>>(credit),
        answer matches Err(e) ==> {
            &&& given(answer) matches Err(f)
            &&& f.code == e.code && f.frame == e.frame && f.reason == e.reason@
        },
        t is Nothing <==> t@ is Nothing,
        t matches Transmission::Record(frames) ==> t@ == Transmission::Record(frames@),
        t matches Transmission::Open { frames, budget, max_data } ==> t@ == (Transmission::Open {
            frames: frames@,
            budget,
            max_data,
        }),
{
}

} // verus!
