//! QMux protocol state for one endpoint.
//!
//! The connection is record-oriented and performs no I/O. It leaves streams to a stream state
//! machine beside it: a received record yields a [`StreamCall`] at a time, which the driver
//! has that machine perform and answers with [`Connection::resume`], and between urgent and
//! auxiliary frames the driver is asked for what that machine has to send.

use crate::buffer::octets;
use crate::mux::codec::{self, decode_frames, decode_record, encode_record, frame_views, Frame};
use crate::mux::error::Error;
use crate::mux::parameters::{invalid, Parameters};
use crate::mux::state::{
    answered, closed_by_peer, closing, completed, datagram_sent, encoded, initial_state, issued,
    on_frame, pinged, polled, polled_streams, record_limit, record_received, refused, run,
    sendable, valid, Close, Control, Event, Issued, Outcome, Phase, Poll, State, Step, StreamCall,
};
use crate::mux::valid::{
    law_receiving_keeps_valid, law_sending_keeps_valid, lemma_closing_valid, lemma_run_valid,
    lemma_started_valid,
};
use crate::mux::DEFAULT_MAX_RECORD_SIZE;
use crate::stream_id::Side;
use crate::streams::event::StreamEvent;
use crate::streams::frame::{ApplicationClose, ConnectionClose};
use crate::streams::reliable;
use crate::transport_error::{TransportError, PROTOCOL_VIOLATION};
use crate::varint::{group_varint, VarInt, VARINT_BOUND};
use bytes::Bytes;
use std::collections::VecDeque;
use vstd::prelude::*;

verus! {

broadcast use group_varint;

/// Local QMux configuration.
#[derive(Debug, Copy, Clone)]
#[non_exhaustive]
pub struct Config {
    /// Number of peer-initiated bidirectional streams initially permitted.
    pub max_remote_bidi: VarInt,
    /// Number of peer-initiated unidirectional streams initially permitted.
    pub max_remote_uni: VarInt,
    /// Maximum stream octets retained until carrier writes complete.
    pub send_window: u64,
    /// Connection-level receive flow-control window.
    pub receive_window: VarInt,
    /// Per-stream receive flow-control window.
    pub stream_receive_window: VarInt,
    /// Maximum idle timeout advertised to the peer, in milliseconds.
    pub max_idle_timeout: VarInt,
    /// Maximum accepted QMux Frames field size.
    pub max_record_size: VarInt,
    /// Maximum accepted encoded DATAGRAM frame size, or zero to disable datagrams.
    pub max_datagram_frame_size: VarInt,
}

/// The configuration with default limits.
pub open spec fn default_config() -> Config {
    Config {
        max_remote_bidi: VarInt::of(100),
        max_remote_uni: VarInt::of(100),
        send_window: 8_388_608,
        receive_window: VarInt::of(8_388_608),
        stream_receive_window: VarInt::of(1_048_576),
        max_idle_timeout: VarInt::of(0),
        max_record_size: VarInt::of(DEFAULT_MAX_RECORD_SIZE),
        max_datagram_frame_size: VarInt::of(0),
    }
}

/// What an endpoint with this configuration announces. No datagram frame is larger than a
/// record.
pub open spec fn local_parameters(c: Config) -> Parameters {
    Parameters {
        max_idle_timeout: c.max_idle_timeout,
        initial_max_data: c.receive_window,
        initial_max_stream_data_bidi_local: c.stream_receive_window,
        initial_max_stream_data_bidi_remote: c.stream_receive_window,
        initial_max_stream_data_uni: c.stream_receive_window,
        initial_max_streams_bidi: c.max_remote_bidi,
        initial_max_streams_uni: c.max_remote_uni,
        max_datagram_frame_size: if c.max_datagram_frame_size.value()
            <= c.max_record_size.value() {
            c.max_datagram_frame_size
        } else {
            c.max_record_size
        },
        max_record_size: c.max_record_size,
    }
}

impl Default for Config {
    /// The configuration with default limits.
    fn default() -> (c: Config)
        ensures
            c == default_config(),
    {
        Config {
            max_remote_bidi: VarInt::from_u32(100),
            max_remote_uni: VarInt::from_u32(100),
            send_window: 8 * 1024 * 1024,
            receive_window: VarInt::from_u32(8 * 1024 * 1024),
            stream_receive_window: VarInt::from_u32(1024 * 1024),
            max_idle_timeout: VarInt::from_u32(0),
            max_record_size: VarInt::from_u32(16_382),
            max_datagram_frame_size: VarInt::from_u32(0),
        }
    }
}

impl Config {
    /// What an endpoint with this configuration announces.
    pub fn parameters(self) -> (p: Parameters)
        ensures
            p == local_parameters(self),
    {
        Parameters {
            max_idle_timeout: self.max_idle_timeout,
            initial_max_data: self.receive_window,
            initial_max_stream_data_bidi_local: self.stream_receive_window,
            initial_max_stream_data_bidi_remote: self.stream_receive_window,
            initial_max_stream_data_uni: self.stream_receive_window,
            initial_max_streams_bidi: self.max_remote_bidi,
            initial_max_streams_uni: self.max_remote_uni,
            max_datagram_frame_size: if self.max_datagram_frame_size.into_inner()
                <= self.max_record_size.into_inner() {
                self.max_datagram_frame_size
            } else {
                self.max_record_size
            },
            max_record_size: self.max_record_size,
        }
    }

    /// Limits that the stream state machine is made with.
    pub fn streams(self) -> (c: reliable::Config)
        ensures
            c == (reliable::Config {
                max_remote_bidi: self.max_remote_bidi,
                max_remote_uni: self.max_remote_uni,
                send_window: self.send_window,
                receive_window: self.receive_window,
                stream_receive_window: self.stream_receive_window,
            }),
    {
        reliable::Config {
            max_remote_bidi: self.max_remote_bidi,
            max_remote_uni: self.max_remote_uni,
            send_window: self.send_window,
            receive_window: self.receive_window,
            stream_receive_window: self.stream_receive_window,
        }
    }
}

/// A complete length-prefixed QMux record ready for an ordered carrier.
///
/// `T` is what the stream state machine wants back when the record was written.
#[derive(Debug)]
#[must_use]
pub struct Transmit<T> {
    /// The complete size-prefixed QMux record to write to the carrier.
    pub bytes: Bytes,
    connection: u64,
    sequence: u64,
    streams: Option<T>,
    closes: bool,
}

/// QMux protocol state for one endpoint.
pub struct Connection {
    id: u64,
    side: Side,
    local_parameters: Parameters,
    peer_parameters: Option<Parameters>,
    urgent: VecDeque<Control>,
    auxiliary: VecDeque<Control>,
    events: VecDeque<Event>,
    next_transmit: u64,
    next_completion: u64,
    last_ping_sent: Option<VarInt>,
    last_ping_received: Option<VarInt>,
    phase: Phase,
    pending: VecDeque<Frame>,
    allocation_size: usize,
}

impl View for Close<Bytes> {
    type V = Close<Seq<u8>>;

    open spec fn view(&self) -> Close<Seq<u8>> {
        match *self {
            Close::Transport(close) => Close::Transport(close@),
            Close::Application(close) => Close::Application(close@),
        }
    }
}

impl View for Event<Bytes> {
    type V = Event<Seq<u8>>;

    open spec fn view(&self) -> Event<Seq<u8>> {
        match *self {
            Event::Stream(e) => Event::Stream(e),
            Event::PeerParameters(params) => Event::PeerParameters(params),
            Event::Datagram(data) => Event::Datagram(octets(data)),
            Event::PingResponse(sequence) => Event::PingResponse(sequence),
            Event::Closed(close) => Event::Closed(close@),
        }
    }
}

impl View for Control<Bytes> {
    type V = Control<Seq<u8>>;

    open spec fn view(&self) -> Control<Seq<u8>> {
        match *self {
            Control::Parameters(params) => Control::Parameters(params),
            Control::Ping { sequence, response } => Control::Ping { sequence, response },
            Control::Datagram(data) => Control::Datagram(octets(data)),
            Control::Close(close) => Control::Close(close@),
        }
    }
}

impl View for StreamCall<Bytes> {
    type V = StreamCall<Seq<u8>>;

    open spec fn view(&self) -> StreamCall<Seq<u8>> {
        match *self {
            StreamCall::SetPeerParameters(params) => StreamCall::SetPeerParameters(params),
            StreamCall::Frame { frame, allocation_size } => StreamCall::Frame {
                frame: frame@,
                allocation_size,
            },
        }
    }
}

impl View for Step<Bytes> {
    type V = Step<Seq<u8>>;

    open spec fn view(&self) -> Step<Seq<u8>> {
        match *self {
            Step::Done => Step::Done,
            Step::Call(call) => Step::Call(call@),
        }
    }
}

/// The record and its token.
impl<T> View for Transmit<T> {
    type V = Issued;

    closed spec fn view(&self) -> Issued {
        Issued {
            bytes: octets(self.bytes),
            connection: self.connection,
            sequence: self.sequence,
            closes: self.closes,
        }
    }
}

impl<T> Transmit<T> {
    /// What the stream state machine wants back.
    pub closed spec fn token(self) -> Option<T> {
        self.streams
    }

    /// The record.
    pub fn record(&self) -> (b: &Bytes)
        ensures
            octets(*b) == self@.bytes,
    {
        &self.bytes
    }
}

/// The frames that a queue holds.
pub open spec fn controls(s: Seq<Control>) -> Seq<Control<Seq<u8>>> {
    s.map_values(|c: Control| c@)
}

/// The events that a queue holds.
pub open spec fn reported(s: Seq<Event>) -> Seq<Event<Seq<u8>>> {
    s.map_values(|e: Event| e@)
}

/// Whether a result is the given outcome.
pub open spec fn is_outcome(r: Result<Step, Error>, outcome: Outcome) -> bool {
    match outcome {
        Ok(step) => r is Ok && r->Ok_0@ == step,
        Err(e) => r is Err && r->Err_0@ == e,
    }
}

/// Whether a result is nothing or the given error.
pub open spec fn is_result(r: Result<(), Error>, spec: Result<(), Error<Seq<char>>>) -> bool {
    match spec {
        Ok(()) => r is Ok,
        Err(e) => r is Err && r->Err_0@ == e,
    }
}

/// The answer of the stream state machine, over plain sequences.
pub open spec fn given(answer: Result<Vec<StreamEvent>, TransportError>) -> Result<
    Seq<StreamEvent>,
    TransportError<Seq<char>>,
> {
    match answer {
        Ok(events) => Ok(events@),
        Err(e) => Err(e@),
    }
}

impl View for Connection {
    type V = State;

    closed spec fn view(&self) -> State {
        State {
            id: self.id,
            side: self.side,
            local: self.local_parameters,
            peer: self.peer_parameters,
            urgent: controls(self.urgent@),
            auxiliary: controls(self.auxiliary@),
            events: reported(self.events@),
            next_transmit: self.next_transmit,
            next_completion: self.next_completion,
            last_ping_sent: self.last_ping_sent,
            last_ping_received: self.last_ping_received,
            phase: self.phase,
            pending: frame_views(self.pending@),
            allocation_size: self.allocation_size,
        }
    }
}

fn push_control(queue: &mut VecDeque<Control>, c: Control)
    ensures
        controls(final(queue)@) == controls(old(queue)@).push(c@),
{
    queue.push_back(c);
    assert(controls(queue@) =~= controls(old(queue)@).push(c@));
}

fn pop_control(queue: &mut VecDeque<Control>) -> (c: Option<Control>)
    ensures
        if controls(old(queue)@).len() == 0 {
            c is None && final(queue)@ == old(queue)@
        } else {
            c is Some && c->0@ == controls(old(queue)@)[0] && controls(final(queue)@) == controls(
                old(queue)@,
            ).skip(1)
        },
{
    let c = queue.pop_front();
    assert(old(queue)@.len() > 0 ==> controls(queue@) =~= controls(old(queue)@).skip(1));
    c
}

fn clear_controls(queue: &mut VecDeque<Control>)
    ensures
        controls(final(queue)@) == Seq::<Control<Seq<u8>>>::empty(),
{
    queue.clear();
    assert(controls(queue@) =~= Seq::<Control<Seq<u8>>>::empty());
}

fn push_event(queue: &mut VecDeque<Event>, e: Event)
    ensures
        reported(final(queue)@) == reported(old(queue)@).push(e@),
{
    queue.push_back(e);
    assert(reported(queue@) =~= reported(old(queue)@).push(e@));
}

impl Control<Bytes> {
    fn encode(&self, max_size: usize) -> (r: Result<Bytes, Error>)
        requires
            sendable(self@),
            max_size < VARINT_BOUND,
        ensures
            r is Ok && octets(r->Ok_0) == encoded(self@, max_size),
    {
        match self {
            Control::Parameters(params) => codec::encode_parameters(params),
            Control::Ping { sequence, response } => codec::encode_ping(*sequence, *response),
            Control::Datagram(data) => codec::encode_datagram(data),
            Control::Close(Close::Transport(close)) => codec::encode_connection_close(
                close,
                max_size,
            ),
            Control::Close(Close::Application(close)) => codec::encode_application_close(
                close.error_code,
                &close.reason,
                max_size,
            ),
        }
    }
}

/// Encode the first frame of a queue.
fn encode_front(queue: &VecDeque<Control>, limit: usize) -> (r: Result<Option<Bytes>, Error>)
    requires
        limit < VARINT_BOUND,
        forall|i: int| 0 <= i < controls(queue@).len() ==> sendable(#[trigger] controls(queue@)[i]),
    ensures
        if controls(queue@).len() == 0 {
            r is Ok && r->Ok_0 is None
        } else {
            let payload = encoded(controls(queue@)[0], limit);
            if payload.len() > limit {
                r is Err && r->Err_0@ == (Error::<Seq<char>>::FrameTooLarge {
                    size: payload.len() as usize,
                    limit,
                })
            } else {
                r is Ok && r->Ok_0 is Some && octets(r->Ok_0->0) == payload
            }
        },
{
    if queue.len() == 0 {
        return Ok(None);
    }
    assert(controls(queue@)[0] == queue@[0]@);
    let payload = match queue[0].encode(limit) {
        Ok(payload) => payload,
        Err(e) => return Err(e),
    };
    if payload.len() > limit {
        return Err(Error::FrameTooLarge { size: payload.len(), limit });
    }
    Ok(Some(payload))
}

fn violated(reason: &str) -> (e: Error)
    ensures
        e@ == crate::mux::state::violation(reason@),
{
    Error::Protocol(TransportError::new(PROTOCOL_VIOLATION, reason))
}

impl Connection {
    /// Construct one endpoint and queue its transport parameters as the first frame.
    ///
    /// `id` tells the connections of a process apart: no two may share it.
    pub fn new(id: u64, side: Side, config: Config) -> (r: Result<Connection, Error>)
        ensures
            match invalid(local_parameters(config)) {
                Some(e) => r is Err && r->Err_0@ == e,
                None => r is Ok && r->Ok_0@ == initial_state(id, side, local_parameters(config))
                    && valid(r->Ok_0@),
            },
    {
        let local_parameters = config.parameters();
        match local_parameters.validate() {
            Ok(()) => {},
            Err(e) => return Err(e),
        }
        let mut urgent: VecDeque<Control> = VecDeque::new();
        urgent.push_back(Control::Parameters(local_parameters));
        let c = Connection {
            id,
            side,
            local_parameters,
            peer_parameters: None,
            urgent,
            auxiliary: VecDeque::new(),
            events: VecDeque::new(),
            next_transmit: 0,
            next_completion: 0,
            last_ping_sent: None,
            last_ping_received: None,
            phase: Phase::Open,
            pending: VecDeque::new(),
            allocation_size: 0,
        };
        assert(c@ =~= initial_state(id, side, local_parameters));
        Ok(c)
    }

    /// Which endpoint this is.
    pub fn side(&self) -> (side: Side)
        ensures
            side == self@.side,
    {
        self.side
    }

    /// Return the transport parameters advertised by this endpoint.
    pub fn local_parameters(&self) -> (p: Parameters)
        ensures
            p == self@.local,
    {
        self.local_parameters
    }

    /// Return the peer's transport parameters once received.
    pub fn peer_parameters(&self) -> (p: Option<Parameters>)
        ensures
            p == self@.peer,
    {
        self.peer_parameters
    }

    /// Whether this endpoint has entered the terminal closed state.
    pub fn is_closed(&self) -> (b: bool)
        ensures
            b == (self@.phase == Phase::Closed),
    {
        self.phase == Phase::Closed
    }

    /// Whether the stream state machine has to stop opening, writing and sending.
    pub fn streams_closed(&self) -> (b: bool)
        ensures
            b == (self@.phase != Phase::Open),
    {
        self.phase != Phase::Open
    }

    /// Whether records can still be numbered.
    pub fn sequences_left(&self) -> (b: bool)
        ensures
            b == (self@.next_transmit < u64::MAX && self@.next_completion < u64::MAX),
    {
        self.next_transmit < u64::MAX && self.next_completion < u64::MAX
    }

    /// Yield the next event of the carrier; those of the stream state machine come after them.
    pub fn poll(&mut self) -> (e: Option<Event>)
        requires
            valid(old(self)@),
        ensures
            if old(self)@.events.len() == 0 {
                e is None && final(self)@ == old(self)@
            } else {
                e is Some && e->0@ == old(self)@.events[0] && final(self)@ == (State {
                    events: old(self)@.events.skip(1),
                    ..old(self)@
                })
            },
            valid(final(self)@),
    {
        let e = self.events.pop_front();
        assert(old(self).events@.len() > 0 ==> reported(self.events@) =~= reported(
            old(self).events@,
        ).skip(1));
        e
    }

    fn ensure_open(&self) -> (r: Result<(), Error>)
        ensures
            if self@.phase == Phase::Open {
                r is Ok
            } else {
                r is Err && r->Err_0@ == Error::<Seq<char>>::ConnectionClosed
            },
    {
        if self.phase == Phase::Open {
            Ok(())
        } else {
            Err(Error::ConnectionClosed)
        }
    }

    /// Queue a QX_PING request.
    pub fn ping(&mut self, sequence: VarInt) -> (r: Result<(), Error>)
        requires
            valid(old(self)@),
        ensures
            final(self)@ == pinged(old(self)@, sequence).0,
            is_result(r, pinged(old(self)@, sequence).1),
            valid(final(self)@),
    {
        match self.ensure_open() {
            Ok(()) => {},
            Err(e) => return Err(e),
        }
        let stale = match self.last_ping_sent {
            Some(previous) => sequence.into_inner() <= previous.into_inner(),
            None => false,
        };
        if stale {
            return Err(Error::PingSequence);
        }
        self.last_ping_sent = Some(sequence);
        push_control(&mut self.auxiliary, Control::Ping { sequence, response: false });
        Ok(())
    }

    /// Queue an unreliable datagram if the peer advertised support and sufficient size.
    pub fn send_datagram(&mut self, data: Bytes) -> (r: Result<(), Error>)
        requires
            valid(old(self)@),
        ensures
            final(self)@ == datagram_sent(old(self)@, octets(data)).0,
            is_result(r, datagram_sent(old(self)@, octets(data)).1),
            valid(final(self)@),
    {
        match self.ensure_open() {
            Ok(()) => {},
            Err(e) => return Err(e),
        }
        let peer = match self.peer_parameters {
            Some(peer) => peer,
            None => return Err(Error::DatagramsUnsupported),
        };
        let prefix: usize = match codec::varint_size(data.len() as u64) {
            Ok(n) => n,
            Err(e) => return Err(e),
        };
        let size: usize = 1 + prefix + data.len();
        let max_frame: u64 = peer.max_datagram_frame_size.into_inner();
        let max_record: u64 = peer.max_record_size.into_inner();
        let limit: u64 = if max_frame <= max_record {
            max_frame
        } else {
            max_record
        };
        if limit == 0 {
            return Err(Error::DatagramsUnsupported);
        }
        if size as u64 > limit {
            return Err(Error::DatagramTooLarge { size, limit });
        }
        push_control(&mut self.auxiliary, Control::Datagram(data));
        Ok(())
    }

    /// Queue an application close frame.
    pub fn close(&mut self, code: VarInt, reason: Bytes)
        requires
            valid(old(self)@),
        ensures
            final(self)@ == closing(
                old(self)@,
                Close::Application(
                    ApplicationClose { error_code: code, reason: octets(reason) },
                ),
            ),
            valid(final(self)@),
    {
        let close = Close::Application(ApplicationClose { error_code: code, reason });
        proof {
            lemma_closing_valid(self@, close@);
        }
        self.start_close(close);
    }

    fn start_close(&mut self, close: Close)
        ensures
            final(self)@ == closing(old(self)@, close@),
    {
        if self.phase != Phase::Open {
            return;
        }
        self.phase = Phase::Closing;
        clear_controls(&mut self.auxiliary);
        // Transport parameters must remain the first frame even when the application closes
        // before its first carrier write. Other queued responses are superseded by the close.
        let keep = self.urgent.len() > 0 && matches!(self.urgent[0], Control::Parameters(_));
        assert(self.urgent@.len() > 0 ==> controls(self.urgent@)[0] == self.urgent@[0]@);
        let parameters = if keep {
            pop_control(&mut self.urgent)
        } else {
            None
        };
        clear_controls(&mut self.urgent);
        if let Some(parameters) = parameters {
            push_control(&mut self.urgent, parameters);
        }
        push_control(&mut self.urgent, Control::Close(close));
        assert(self@.urgent =~= closing(old(self)@, close@).urgent);
    }

    fn peer_closed(&mut self, close: Close)
        ensures
            final(self)@ == closed_by_peer(old(self)@, close@),
    {
        self.phase = Phase::Closed;
        clear_controls(&mut self.urgent);
        clear_controls(&mut self.auxiliary);
        push_event(&mut self.events, Event::Closed(close));
        self.pending.clear();
        assert(frame_views(self.pending@) =~= Seq::<Frame<Seq<u8>>>::empty());
    }

    /// Close because a record was refused.
    fn refuse(&mut self, error: &Error)
        ensures
            final(self)@ == refused(old(self)@, error@),
    {
        self.pending.clear();
        assert(frame_views(self.pending@) =~= Seq::<Frame<Seq<u8>>>::empty());
        self.start_close(Close::Transport(error.close_reason()));
    }
}

impl Connection {
    fn on_ping(&mut self, sequence: VarInt, response: bool) -> (r: Result<(), Error>)
        requires
            old(self)@.peer is Some,
        ensures
            match on_frame(old(self)@, Frame::Ping { sequence, response }) {
                Ok((st, call)) => final(self)@ == st && r is Ok && call is None,
                Err(e) => final(self)@ == old(self)@ && r is Err && r->Err_0@ == e,
            },
    {
        if response {
            let solicited = match self.last_ping_sent {
                Some(last) => sequence.into_inner() <= last.into_inner(),
                None => false,
            };
            if !solicited {
                return Err(violated("QX_PING response sequence was not sent"));
            }
            push_event(&mut self.events, Event::PingResponse(sequence));
        } else {
            let stale = match self.last_ping_received {
                Some(previous) => sequence.into_inner() <= previous.into_inner(),
                None => false,
            };
            if stale {
                return Err(violated("QX_PING request sequence did not increase"));
            }
            self.last_ping_received = Some(sequence);
            push_control(&mut self.urgent, Control::Ping { sequence, response: true });
        }
        Ok(())
    }

    fn on_frame(&mut self, frame: Frame) -> (r: Result<Option<StreamCall>, Error>)
        ensures
            match on_frame(old(self)@, frame@) {
                Ok((st, Some(call))) => final(self)@ == st && r is Ok && r->Ok_0 is Some
                    && r->Ok_0->0@ == call,
                Ok((st, None)) => final(self)@ == st && r is Ok && r->Ok_0 is None,
                Err(e) => final(self)@ == old(self)@ && r is Err && r->Err_0@ == e,
            },
    {
        let is_params = match &frame {
            Frame::Parameters(_) => true,
            _ => false,
        };
        if self.peer_parameters.is_none() && !is_params {
            return Err(Error::ParametersNotFirst);
        }
        match frame {
            Frame::Padding => Ok(None),
            Frame::Stream(frame) => Ok(
                Some(StreamCall::Frame { frame, allocation_size: self.allocation_size }),
            ),
            Frame::Parameters(params) => {
                if self.peer_parameters.is_some() {
                    return Err(Error::DuplicateParameters);
                }
                match params.validate() {
                    Ok(()) => {},
                    Err(e) => return Err(e),
                }
                self.peer_parameters = Some(params);
                push_event(&mut self.events, Event::PeerParameters(params));
                Ok(Some(StreamCall::SetPeerParameters(params.streams())))
            },
            Frame::Ping { sequence, response } => match self.on_ping(sequence, response) {
                Ok(()) => Ok(None),
                Err(e) => Err(e),
            },
            Frame::Datagram { data, frame_size } => {
                let limit: u64 = self.local_parameters.max_datagram_frame_size.into_inner();
                if limit == 0 || frame_size as u64 > limit {
                    return Err(Error::DatagramTooLarge { size: frame_size, limit });
                }
                push_event(&mut self.events, Event::Datagram(data));
                Ok(None)
            },
            Frame::ConnectionClose(close) => {
                self.peer_closed(Close::Transport(close));
                Ok(None)
            },
            Frame::ApplicationClose(close) => {
                self.peer_closed(Close::Application(close));
                Ok(None)
            },
        }
    }

    /// Process the frames that wait, up to the next call.
    fn run(&mut self) -> (r: Result<Step, Error>)
        ensures
            final(self)@ == run(old(self)@).0,
            is_outcome(r, run(old(self)@).1),
    {
        let ghost whole = run(self@);
        loop
            invariant
                run(self@) == whole,
                whole == run(old(self)@),
            decreases self@.pending.len(),
        {
            let ghost before = self@;
            let frame = match self.pending.pop_front() {
                Some(frame) => frame,
                None => return Ok(Step::Done),
            };
            assert(frame_views(self.pending@) =~= before.pending.skip(1));
            assert(self@ == State { pending: before.pending.skip(1), ..before });
            assert(frame@ == before.pending[0]);
            match self.on_frame(frame) {
                Ok(Some(call)) => return Ok(Step::Call(call)),
                Ok(None) => {},
                Err(e) => {
                    self.refuse(&e);
                    return Err(e);
                },
            }
        }
    }

    /// Process one complete size-prefixed QMux record from the carrier.
    ///
    /// The record before must have been processed to its end. Malformed input queues a close
    /// with the diagnostic before it is returned.
    pub fn received(&mut self, record: Bytes) -> (r: Result<Step, Error>)
        requires
            valid(old(self)@),
            old(self)@.pending.len() == 0,
        ensures
            final(self)@ == record_received(old(self)@, octets(record)).0,
            is_outcome(r, record_received(old(self)@, octets(record)).1),
            valid(final(self)@),
            !(r matches Ok(Step::Call(_))) ==> final(self)@.pending.len() == 0,
    {
        proof {
            law_receiving_keeps_valid(self@, octets(record), Ok(Seq::empty()));
        }
        if self.phase == Phase::Closed {
            return Ok(Step::Done);
        }
        let payload = match decode_record(record) {
            Ok(payload) => payload,
            Err(e) => {
                self.refuse(&e);
                return Err(e);
            },
        };
        let max: u64 = self.local_parameters.max_record_size.into_inner();
        let limit: usize = if max <= usize::MAX as u64 {
            max as usize
        } else {
            usize::MAX
        };
        let size: usize = payload.len();
        proof {
            lemma_started_valid(self@, octets(payload), size);
        }
        if size > limit {
            let e = Error::RecordTooLarge { size, limit };
            self.refuse(&e);
            return Err(e);
        }
        let frames = match decode_frames(payload) {
            Ok(frames) => frames,
            Err(e) => {
                self.refuse(&e);
                return Err(e);
            },
        };
        let ghost start = State { pending: frame_views(frames@), allocation_size: size, ..self@ };
        proof {
            lemma_run_valid(start);
        }
        self.allocation_size = size;
        self.enqueue_frames(frames);
        self.run()
    }

    /// Let the frames of a record wait to be processed.
    fn enqueue_frames(&mut self, frames: Vec<Frame>)
        requires
            old(self)@.pending.len() == 0,
        ensures
            final(self)@ == (State { pending: frame_views(frames@), ..old(self)@ }),
    {
        let queue: VecDeque<Frame> = queue_of(frames);
        self.pending = queue;
    }

    /// Take the answer of the stream state machine to the last call and go on.
    ///
    /// The answer is the violation that the machine found, or else the events that it reports
    /// after it did its work.
    pub fn resume(&mut self, answer: Result<Vec<StreamEvent>, TransportError>) -> (r: Result<
        Step,
        Error,
    >)
        requires
            valid(old(self)@),
        ensures
            final(self)@ == answered(old(self)@, given(answer)).0,
            is_outcome(r, answered(old(self)@, given(answer)).1),
            valid(final(self)@),
            !(r matches Ok(Step::Call(_))) ==> final(self)@.pending.len() == 0,
    {
        proof {
            law_receiving_keeps_valid(self@, Seq::empty(), given(answer));
        }
        match answer {
            Ok(events) => {
                self.report(&events);
                proof {
                    lemma_run_valid(self@);
                }
                self.run()
            },
            Err(e) => {
                let e = Error::Protocol(e);
                self.refuse(&e);
                Err(e)
            },
        }
    }

    /// Pass on events of the stream state machine.
    fn report(&mut self, events: &Vec<StreamEvent>)
        ensures
            final(self)@ == (State {
                events: old(self)@.events + events@.map_values(
                    |e: StreamEvent| Event::<Seq<u8>>::Stream(e),
                ),
                ..old(self)@
            }),
    {
        let ghost all = events@.map_values(|e: StreamEvent| Event::<Seq<u8>>::Stream(e));
        let mut i: usize = 0;
        assert(all.take(0) =~= Seq::empty());
        assert(self@.events + all.take(0) =~= self@.events);
        while i < events.len()
            invariant
                i <= events.len(),
                all == events@.map_values(|e: StreamEvent| Event::<Seq<u8>>::Stream(e)),
                self@ == (State { events: old(self)@.events + all.take(i as int), ..old(self)@ }),
            decreases events.len() - i,
        {
            let ghost before = self@.events;
            push_event(&mut self.events, Event::Stream(events[i]));
            assert(all.take(i + 1) =~= all.take(i as int).push(all[i as int]));
            assert(self@.events =~= old(self)@.events + all.take(i + 1));
            i += 1;
        }
        assert(all.take(i as int) =~= all);
    }
}

/// A queue of the items of a vector, in their order.
fn queue_of(items: Vec<Frame>) -> (q: VecDeque<Frame>)
    ensures
        q@ == items@,
{
    let ghost all = items@;
    let mut items = items;
    let mut q: VecDeque<Frame> = VecDeque::new();
    assert(items@ + q@ =~= all);
    while items.len() > 0
        invariant
            items@ + q@ == all,
        decreases items@.len(),
    {
        let ghost before = items@ + q@;
        if let Some(item) = items.pop() {
            q.push_front(item);
        }
        assert(items@ + q@ =~= before);
    }
    assert(q@ =~= all);
    q
}

impl Connection {
    fn record_limit(&self) -> (n: usize)
        ensures
            n == record_limit(self@),
            n < VARINT_BOUND,
    {
        let max: u64 = match self.peer_parameters {
            Some(params) => params.max_record_size.into_inner(),
            None => DEFAULT_MAX_RECORD_SIZE,
        };
        if max <= usize::MAX as u64 {
            max as usize
        } else {
            usize::MAX
        }
    }

    fn issue<T>(&mut self, payload: Bytes, streams: Option<T>, closes: bool) -> (r: Result<
        Transmit<T>,
        Error,
    >)
        requires
            old(self)@.next_transmit < u64::MAX,
        ensures
            final(self)@ == issued(old(self)@, octets(payload), closes).0,
            match issued(old(self)@, octets(payload), closes).1 {
                Ok(t) => r is Ok && r->Ok_0@ == t && r->Ok_0.token() == streams,
                Err(e) => r is Err && r->Err_0@ == e,
            },
    {
        let sequence: u64 = self.next_transmit;
        self.next_transmit = sequence + 1;
        match encode_record(payload) {
            Ok(bytes) => Ok(Transmit { bytes, connection: self.id, sequence, streams, closes }),
            Err(e) => Err(e),
        }
    }

    /// Build the next complete QMux record to write to the carrier.
    ///
    /// Where nothing urgent waits, the driver is asked for what the stream state machine has
    /// to send, and answers with [`Self::poll_transmit_streams`]. There must be a number left
    /// for the record.
    pub fn poll_transmit<T>(&mut self) -> (r: Result<Poll<Transmit<T>>, Error>)
        requires
            valid(old(self)@),
            old(self)@.next_transmit < u64::MAX,
        ensures
            final(self)@ == polled(old(self)@).0,
            match polled(old(self)@).1 {
                Ok(Poll::Idle) => r is Ok && r->Ok_0 is Idle,
                Ok(Poll::Record(t)) => r is Ok && (r->Ok_0 matches Poll::Record(transmit)
                    && transmit@ == t && transmit.token() is None),
                Ok(Poll::Streams { limit }) => r is Ok && (r->Ok_0 matches Poll::Streams {
                    limit: l,
                } && l == limit),
                Err(e) => r is Err && r->Err_0@ == e,
            },
            valid(final(self)@),
            r matches Ok(Poll::Streams { .. }) ==> final(self)@.phase == Phase::Open
                && final(self)@.urgent.len() == 0,
    {
        proof {
            law_sending_keeps_valid(self@, None);
        }
        if self.phase == Phase::Closed {
            return Ok(Poll::Idle);
        }
        let limit: usize = self.record_limit();
        let closes = self.urgent.len() > 0 && matches!(self.urgent[0], Control::Close(_));
        assert(self.urgent@.len() > 0 ==> controls(self.urgent@)[0] == self.urgent@[0]@);
        match encode_front(&self.urgent, limit) {
            Err(e) => Err(e),
            Ok(Some(payload)) => {
                let _sent = pop_control(&mut self.urgent);
                match self.issue::<T>(payload, None, closes) {
                    Ok(t) => Ok(Poll::Record(t)),
                    Err(e) => Err(e),
                }
            },
            Ok(None) => if self.phase == Phase::Closing {
                Ok(Poll::Idle)
            } else {
                Ok(Poll::Streams { limit })
            },
        }
    }

    /// Build the next record from what the stream state machine has to send, or else from the
    /// frames that wait behind it.
    pub fn poll_transmit_streams<T>(&mut self, payload: Option<(Bytes, T)>) -> (r: Result<
        Option<Transmit<T>>,
        Error,
    >)
        requires
            valid(old(self)@),
            old(self)@.next_transmit < u64::MAX,
            old(self)@.phase == Phase::Open,
            old(self)@.urgent.len() == 0,
        ensures
            final(self)@ == polled_streams(
                old(self)@,
                match payload {
                    Some((bytes, _)) => Some(octets(bytes)),
                    None => None,
                },
            ).0,
            match polled_streams(
                old(self)@,
                match payload {
                    Some((bytes, _)) => Some(octets(bytes)),
                    None => None,
                },
            ).1 {
                Ok(Some(t)) => r is Ok && r->Ok_0 is Some && r->Ok_0->0@ == t && r->Ok_0->0.token()
                    == (match payload {
                    Some((_, token)) => Some(token),
                    None => None,
                }),
                Ok(None) => r is Ok && r->Ok_0 is None,
                Err(e) => r is Err && r->Err_0@ == e,
            },
            valid(final(self)@),
    {
        proof {
            law_sending_keeps_valid(
                self@,
                match &payload {
                    Some(p) => Some(octets(p.0)),
                    None => None,
                },
            );
        }
        match payload {
            Some((bytes, token)) => match self.issue(bytes, Some(token), false) {
                Ok(t) => Ok(Some(t)),
                Err(e) => Err(e),
            },
            None => {
                let limit: usize = self.record_limit();
                match encode_front(&self.auxiliary, limit) {
                    Err(e) => Err(e),
                    Ok(Some(payload)) => {
                        let _sent = pop_control(&mut self.auxiliary);
                        match self.issue::<T>(payload, None, false) {
                            Ok(t) => Ok(Some(t)),
                            Err(e) => Err(e),
                        }
                    },
                    Ok(None) => Ok(None),
                }
            },
        }
    }

    /// Report successful ordered completion of a carrier write.
    ///
    /// What the stream state machine wants back is returned. There must be a number left for
    /// the completion.
    pub fn transmitted<T>(&mut self, transmit: Transmit<T>) -> (r: Result<Option<T>, Error>)
        requires
            valid(old(self)@),
            old(self)@.next_completion < u64::MAX,
        ensures
            final(self)@ == completed(old(self)@, transmit@).0,
            match completed(old(self)@, transmit@).1 {
                Ok(()) => r is Ok && r->Ok_0 == transmit.token(),
                Err(e) => r is Err && r->Err_0@ == e,
            },
            valid(final(self)@),
    {
        if transmit.connection != self.id {
            return Err(Error::WrongConnection);
        }
        if transmit.sequence != self.next_completion {
            return Err(Error::OutOfOrderTransmit);
        }
        self.next_completion = self.next_completion + 1;
        if transmit.closes {
            self.phase = Phase::Closed;
            clear_controls(&mut self.urgent);
            clear_controls(&mut self.auxiliary);
        }
        Ok(transmit.streams)
    }
}

/// Calls and events stand for themselves, field by field.
pub proof fn law_calls_and_events_as_made(
    call: StreamCall,
    limits: reliable::Parameters,
    event: Event,
    e: StreamEvent,
    p: Parameters,
    sequence: VarInt,
)
    ensures
        call@ == StreamCall::<Seq<u8>>::SetPeerParameters(limits) <==> call == StreamCall::<
            Bytes,
        >::SetPeerParameters(limits),
        call matches StreamCall::Frame { frame, allocation_size } ==> call@ == (StreamCall::Frame {
            frame: frame@,
            allocation_size,
        }),
        call@ is Frame ==> call is Frame,
        event@ == Event::<Seq<u8>>::Stream(e) <==> event == Event::<Bytes>::Stream(e),
        event@ == Event::<Seq<u8>>::PeerParameters(p) <==> event == Event::<
            Bytes,
        >::PeerParameters(p),
        event@ == Event::<Seq<u8>>::PingResponse(sequence) <==> event == Event::<
            Bytes,
        >::PingResponse(sequence),
        event matches Event::Datagram(data) ==> event@ == Event::Datagram(octets(data)),
        event@ is Datagram ==> event is Datagram,
        event matches Event::Closed(Close::Application(c)) ==> {
            &&& event@ matches Event::Closed(Close::Application(d))
            &&& d.error_code == c.error_code && d.reason == octets(c.reason)
        },
        event matches Event::Closed(Close::Transport(c)) ==> {
            &&& event@ matches Event::Closed(Close::Transport(d))
            &&& d.error_code == c.error_code && d.frame_type == c.frame_type && d.reason == octets(
                c.reason,
            )
        },
        event@ is Closed ==> event is Closed,
{
}

/// What is handed over is what is meant: processing comes to a call, to its end or to an error just
/// as its outcome says, a request succeeds or fails as stated, and answers count as they were given.
pub proof fn law_handed_over_exactly(
    r: Result<Step, Error>,
    outcome: Outcome,
    request: Result<(), Error>,
    stated: Result<(), Error<Seq<char>>>,
    answer: Result<Vec<StreamEvent>, TransportError>,
)
    ensures
        is_outcome(r, outcome) <==> match (r, outcome) {
            (Ok(Step::Done), Ok(Step::Done)) => true,
            (Ok(Step::Call(call)), Ok(Step::Call(asked))) => call@ == asked,
            (Err(e), Err(reason)) => e@ == reason,
            _ => false,
        },
        is_result(request, stated) <==> match (request, stated) {
            (Ok(()), Ok(())) => true,
            (Err(e), Err(reason)) => e@ == reason,
            _ => false,
        },
        answer matches Ok(events) ==> given(answer) == Ok::<
            Seq<StreamEvent>,
            TransportError<Seq<char>>,
        >(events@),
        answer matches Err(e) ==> {
            &&& given(answer) matches Err(f)
            &&& f.code == e.code && f.frame == e.frame && f.reason == e.reason@
        },
{
}

/// The default configuration takes a hundred streams of each direction, eight mebibytes of data on
/// the connection either way and one on each stream, and records of the default size; it announces
/// no timeout and takes no datagrams.
pub proof fn law_default_configuration()
    ensures
        ({
            let c = default_config();
            &&& c.max_remote_bidi.value() == 100
            &&& c.max_remote_uni.value() == 100
            &&& c.send_window == 8 * 1024 * 1024
            &&& c.receive_window.value() == 8 * 1024 * 1024
            &&& c.stream_receive_window.value() == 1024 * 1024
            &&& c.max_idle_timeout.value() == 0
            &&& c.max_record_size.value() == 16382
            &&& c.max_datagram_frame_size.value() == 0
        }),
{
}

} // verus!
