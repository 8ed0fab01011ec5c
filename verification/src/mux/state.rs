//! What a connection is and how it changes, as mathematics.

use crate::mux::codec::{fitting_reason, frames_in, payload_of, Frame};
use crate::mux::error::{close_for, Error};
use crate::mux::parameters::{invalid, parameter_table, stream_parameters, Parameters};
use crate::mux::DEFAULT_MAX_RECORD_SIZE;
use crate::proto::frame::{ping_frame, transport_parameters_frame};
use crate::proto::record::record;
use crate::stream_id::Side;
use crate::streams::event::StreamEvent;
use crate::streams::frame::{ApplicationClose, ConnectionClose};
use crate::streams::reliable;
use crate::streams::wire::{
    application_close_frame, connection_close_frame, datagram_frame, datagram_size,
};
use crate::transport_error::{transport_error, TransportError, PROTOCOL_VIOLATION};
use crate::transport_parameters::written;
use crate::varint::{VarInt, VarIntBoundsExceeded, VARINT_BOUND};
use bytes::Bytes;
use vstd::prelude::*;

verus! {

/// Reason the peer closed the QMux connection.
#[derive(Debug, Clone)]
#[non_exhaustive]
pub enum Close<B = Bytes> {
    /// Transport-level close, including the triggering frame when supplied.
    Transport(ConnectionClose<B>),
    /// Application-level close.
    Application(ApplicationClose<B>),
}

/// Application-visible QMux event.
#[derive(Debug)]
#[non_exhaustive]
pub enum Event<B = Bytes> {
    /// A stream became open, readable, writable, finished, or stopped.
    Stream(StreamEvent),
    /// The peer's QMux transport parameters were accepted.
    PeerParameters(Parameters),
    /// An unreliable datagram was received.
    Datagram(B),
    /// A valid response to a locally requested QX_PING was received.
    PingResponse(VarInt),
    /// The peer closed the connection.
    Closed(Close<B>),
}

/// How far a connection is on its way to its end.
#[derive(Debug, Copy, Clone, Eq, PartialEq, Structural)]
pub enum Phase {
    /// It is in use.
    Open,
    /// A close frame is to be sent.
    Closing,
    /// It ended.
    Closed,
}

/// A frame that is to be sent.
#[derive(Debug)]
pub enum Control<B = Bytes> {
    /// Our transport parameters.
    Parameters(Parameters),
    /// A ping.
    Ping {
        /// Sequence number.
        sequence: VarInt,
        /// Whether it answers a request.
        response: bool,
    },
    /// A datagram.
    Datagram(B),
    /// A close.
    Close(Close<B>),
}

/// Work that a received frame asks of the stream state machine.
#[derive(Debug)]
pub enum StreamCall<B = Bytes> {
    /// Apply the limits that the peer granted.
    SetPeerParameters(reliable::Parameters),
    /// Process a stream-related frame; it keeps a record of the given size alive.
    Frame {
        /// The frame.
        frame: reliable::Frame<B>,
        /// Size of the record.
        allocation_size: usize,
    },
}

/// How far a received record was processed.
#[derive(Debug)]
pub enum Step<B = Bytes> {
    /// To its end.
    Done,
    /// The stream state machine has to do something first.
    Call(StreamCall<B>),
}

/// What is to be written to the carrier.
#[derive(Debug)]
pub enum Poll<T> {
    /// Nothing.
    Idle,
    /// A record.
    Record(T),
    /// What the stream state machine has to send, in a record of at most `limit` octets.
    Streams {
        /// Most octets that the record may hold.
        limit: usize,
    },
}

/// A record and the token with which its completion is reported.
#[verifier::ext_equal]
pub struct Issued {
    /// The record.
    pub bytes: Seq<u8>,
    /// The connection that made it.
    pub connection: u64,
    /// Its place among the records of that connection.
    pub sequence: u64,
    /// Whether the connection ends with it.
    pub closes: bool,
}

/// The state of a connection.
#[verifier::ext_equal]
pub struct State {
    /// Number that tells connections apart.
    pub id: u64,
    /// Which endpoint this is.
    pub side: Side,
    /// What this endpoint announces.
    pub local: Parameters,
    /// What the peer announced, once it did.
    pub peer: Option<Parameters>,
    /// Frames to be sent before those of the stream state machine.
    pub urgent: Seq<Control<Seq<u8>>>,
    /// Frames to be sent after those of the stream state machine.
    pub auxiliary: Seq<Control<Seq<u8>>>,
    /// Events that the application has not taken yet.
    pub events: Seq<Event<Seq<u8>>>,
    /// Number of records issued.
    pub next_transmit: u64,
    /// Number of records completed.
    pub next_completion: u64,
    /// Sequence number of the last ping request sent.
    pub last_ping_sent: Option<VarInt>,
    /// Sequence number of the last ping request received.
    pub last_ping_received: Option<VarInt>,
    /// How far the connection is on its way to its end.
    pub phase: Phase,
    /// Frames of the current record that wait for the stream state machine.
    pub pending: Seq<Frame<Seq<u8>>>,
    /// Size of the current record.
    pub allocation_size: usize,
}

/// How processing a record went.
pub type Outcome = Result<Step<Seq<u8>>, Error<Seq<char>>>;

/// A new connection: its parameters are the first frame to be sent.
pub open spec fn initial_state(id: u64, side: Side, local: Parameters) -> State {
    State {
        id,
        side,
        local,
        peer: None,
        urgent: seq![Control::Parameters(local)],
        auxiliary: Seq::empty(),
        events: Seq::empty(),
        next_transmit: 0,
        next_completion: 0,
        last_ping_sent: None,
        last_ping_received: None,
        phase: Phase::Open,
        pending: Seq::empty(),
        allocation_size: 0,
    }
}

/// Whether a frame can be encoded.
pub open spec fn sendable(c: Control<Seq<u8>>) -> bool {
    c matches Control::Datagram(data) ==> data.len() < VARINT_BOUND
}

/// What every operation keeps: whatever waits to be sent can be encoded, the parameters of the
/// peer are valid, and until the first record was issued our parameters wait in front of
/// everything else, and not any more afterwards.
pub open spec fn valid(st: State) -> bool {
    &&& forall|i: int|
        0 <= i < st.urgent.len() ==> sendable(#[trigger] st.urgent[i]) && (st.urgent[i] is Parameters
            ==> i == 0 && st.next_transmit == 0)
    &&& forall|i: int|
        0 <= i < st.auxiliary.len() ==> sendable(#[trigger] st.auxiliary[i])
            && !(st.auxiliary[i] is Parameters)
    &&& st.next_transmit == 0 && st.phase != Phase::Closed ==> st.urgent.len() > 0 && st.urgent[0]
        == Control::<Seq<u8>>::Parameters(st.local)
    &&& st.peer matches Some(p) ==> invalid(p) is None && p.max_record_size.in_range()
    &&& forall|i: int|
        0 <= i < st.pending.len() ==> (#[trigger] st.pending[i] matches Frame::Parameters(p)
            ==> p.max_record_size.in_range())
}

/// The connection after it started to close. The parameters remain the first frame sent;
/// everything else that waits is superseded by the close.
pub open spec fn closing(st: State, close: Close<Seq<u8>>) -> State {
    if st.phase != Phase::Open {
        st
    } else {
        State {
            phase: Phase::Closing,
            auxiliary: Seq::empty(),
            urgent: if st.urgent.len() > 0 && st.urgent[0] is Parameters {
                seq![st.urgent[0], Control::Close(close)]
            } else {
                seq![Control::Close(close)]
            },
            ..st
        }
    }
}

/// The connection after the peer closed it.
pub open spec fn closed_by_peer(st: State, close: Close<Seq<u8>>) -> State {
    State {
        phase: Phase::Closed,
        urgent: Seq::empty(),
        auxiliary: Seq::empty(),
        events: st.events.push(Event::Closed(close)),
        pending: Seq::empty(),
        ..st
    }
}

/// The connection after a record was refused.
pub open spec fn refused(st: State, e: Error<Seq<char>>) -> State {
    closing(State { pending: Seq::empty(), ..st }, Close::Transport(close_for(e)))
}

/// The peer broke a rule of the protocol.
pub open spec fn violation(reason: Seq<char>) -> Error<Seq<char>> {
    Error::Protocol(transport_error(PROTOCOL_VIOLATION, reason))
}

/// What one frame does: the connection afterwards and what the stream state machine has to
/// do, or why the frame is refused.
pub open spec fn on_frame(st: State, frame: Frame<Seq<u8>>) -> Result<
    (State, Option<StreamCall<Seq<u8>>>),
    Error<Seq<char>>,
> {
    if st.peer is None && !(frame is Parameters) {
        Err(Error::ParametersNotFirst)
    } else {
        match frame {
            Frame::Padding => Ok((st, None)),
            Frame::Stream(frame) => Ok(
                (st, Some(StreamCall::Frame { frame, allocation_size: st.allocation_size })),
            ),
            Frame::Parameters(params) => if st.peer is Some {
                Err(Error::DuplicateParameters)
            } else {
                match invalid(params) {
                    Some(e) => Err(e),
                    None => Ok(
                        (
                            State {
                                peer: Some(params),
                                events: st.events.push(Event::PeerParameters(params)),
                                ..st
                            },
                            Some(StreamCall::SetPeerParameters(stream_parameters(params))),
                        ),
                    ),
                }
            },
            Frame::Ping { sequence, response } => if response {
                if st.last_ping_sent matches Some(last) && sequence.value() <= last.value() {
                    Ok((State { events: st.events.push(Event::PingResponse(sequence)), ..st }, None))
                } else {
                    Err(violation("QX_PING response sequence was not sent"@))
                }
            } else {
                if st.last_ping_received matches Some(previous) && sequence.value()
                    <= previous.value() {
                    Err(violation("QX_PING request sequence did not increase"@))
                } else {
                    Ok(
                        (
                            State {
                                last_ping_received: Some(sequence),
                                urgent: st.urgent.push(Control::Ping { sequence, response: true }),
                                ..st
                            },
                            None,
                        ),
                    )
                }
            },
            Frame::Datagram { data, frame_size } => {
                let limit = st.local.max_datagram_frame_size.value();
                if limit == 0 || frame_size > limit {
                    Err(Error::DatagramTooLarge { size: frame_size, limit })
                } else {
                    Ok((State { events: st.events.push(Event::Datagram(data)), ..st }, None))
                }
            },
            Frame::ConnectionClose(close) => Ok(
                (closed_by_peer(st, Close::Transport(close)), None),
            ),
            Frame::ApplicationClose(close) => Ok(
                (closed_by_peer(st, Close::Application(close)), None),
            ),
        }
    }
}

/// Process the frames that wait, up to the next call.
pub open spec fn run(st: State) -> (State, Outcome)
    decreases st.pending.len(),
{
    if st.pending.len() == 0 {
        (st, Ok(Step::Done))
    } else {
        let rest = State { pending: st.pending.skip(1), ..st };
        match on_frame(rest, st.pending[0]) {
            Err(e) => (refused(st, e), Err(e)),
            Ok((next, Some(call))) => (next, Ok(Step::Call(call))),
            Ok((next, None)) => if next.pending.len() < st.pending.len() {
                run(next)
            } else {
                (next, Ok(Step::Done))
            },
        }
    }
}

/// Largest record that this endpoint accepts.
pub open spec fn local_limit(st: State) -> usize {
    if st.local.max_record_size.value() <= usize::MAX {
        st.local.max_record_size.value() as usize
    } else {
        usize::MAX
    }
}

/// A record arrives.
pub open spec fn record_received(st: State, s: Seq<u8>) -> (State, Outcome) {
    if st.phase == Phase::Closed {
        (st, Ok(Step::Done))
    } else {
        match payload_of(s) {
            Err(e) => (refused(st, e), Err(e)),
            Ok(payload) => if payload.len() > local_limit(st) {
                let e = Error::RecordTooLarge {
                    size: payload.len() as usize,
                    limit: local_limit(st),
                };
                (refused(st, e), Err(e))
            } else {
                match frames_in(payload) {
                    Err(e) => (refused(st, e), Err(e)),
                    Ok(frames) => run(
                        State { pending: frames, allocation_size: payload.len() as usize, ..st },
                    ),
                }
            },
        }
    }
}

/// The stream state machine answers a call: it found a violation, or it did its work and
/// reports events.
pub open spec fn answered(
    st: State,
    answer: Result<Seq<StreamEvent>, TransportError<Seq<char>>>,
) -> (State, Outcome) {
    match answer {
        Err(e) => (refused(st, Error::Protocol(e)), Err(Error::Protocol(e))),
        Ok(events) => run(
            State {
                events: st.events + events.map_values(|e: StreamEvent| Event::Stream(e)),
                ..st
            },
        ),
    }
}

/// The application sends a ping request.
pub open spec fn pinged(st: State, sequence: VarInt) -> (State, Result<(), Error<Seq<char>>>) {
    if st.phase != Phase::Open {
        (st, Err(Error::ConnectionClosed))
    } else if st.last_ping_sent matches Some(previous) && sequence.value() <= previous.value() {
        (st, Err(Error::PingSequence))
    } else {
        (
            State {
                last_ping_sent: Some(sequence),
                auxiliary: st.auxiliary.push(Control::Ping { sequence, response: false }),
                ..st
            },
            Ok(()),
        )
    }
}

/// Largest datagram frame that the peer accepts in a record.
pub open spec fn datagram_limit(peer: Parameters) -> u64 {
    if peer.max_datagram_frame_size.value() <= peer.max_record_size.value() {
        peer.max_datagram_frame_size.value()
    } else {
        peer.max_record_size.value()
    }
}

/// The application sends a datagram.
pub open spec fn datagram_sent(st: State, data: Seq<u8>) -> (State, Result<(), Error<Seq<char>>>) {
    if st.phase != Phase::Open {
        (st, Err(Error::ConnectionClosed))
    } else {
        match st.peer {
            None => (st, Err(Error::DatagramsUnsupported)),
            Some(peer) => if data.len() >= VARINT_BOUND {
                (st, Err(Error::VarInt(VarIntBoundsExceeded)))
            } else if datagram_limit(peer) == 0 {
                (st, Err(Error::DatagramsUnsupported))
            } else if datagram_size(data.len()) > datagram_limit(peer) {
                (
                    st,
                    Err(
                        Error::DatagramTooLarge {
                            size: datagram_size(data.len()) as usize,
                            limit: datagram_limit(peer),
                        },
                    ),
                )
            } else {
                (State { auxiliary: st.auxiliary.push(Control::Datagram(data)), ..st }, Ok(()))
            },
        }
    }
}

/// Most octets that a record to the peer may hold.
pub open spec fn record_limit(st: State) -> usize {
    let max = match st.peer {
        Some(peer) => peer.max_record_size.value(),
        None => DEFAULT_MAX_RECORD_SIZE,
    };
    if max <= usize::MAX {
        max as usize
    } else {
        usize::MAX
    }
}

/// A frame in a record of at most `max_size` octets.
pub open spec fn encoded(c: Control<Seq<u8>>, max_size: usize) -> Seq<u8> {
    match c {
        Control::Parameters(params) => transport_parameters_frame(written(parameter_table(params))),
        Control::Ping { sequence, response } => ping_frame(response, sequence),
        Control::Datagram(data) => datagram_frame(data),
        Control::Close(Close::Transport(close)) => connection_close_frame(
            ConnectionClose { reason: fitting_reason(close.reason, max_size, 4), ..close },
        ),
        Control::Close(Close::Application(close)) => application_close_frame(
            close.error_code,
            fitting_reason(close.reason, max_size, 3),
        ),
    }
}

/// A record is issued.
pub open spec fn issued(st: State, payload: Seq<u8>, closes: bool) -> (
    State,
    Result<Issued, Error<Seq<char>>>,
) {
    (
        State { next_transmit: (st.next_transmit + 1) as u64, ..st },
        if payload.len() < VARINT_BOUND {
            Ok(
                Issued {
                    bytes: record(payload),
                    connection: st.id,
                    sequence: st.next_transmit,
                    closes,
                },
            )
        } else {
            Err(Error::VarInt(VarIntBoundsExceeded))
        },
    )
}

/// A frame that cannot fit a record.
pub open spec fn too_large(st: State, payload: Seq<u8>) -> Error<Seq<char>> {
    Error::FrameTooLarge { size: payload.len() as usize, limit: record_limit(st) }
}

/// The carrier asks for a record.
pub open spec fn polled(st: State) -> (State, Result<Poll<Issued>, Error<Seq<char>>>) {
    if st.phase == Phase::Closed {
        (st, Ok(Poll::Idle))
    } else if st.urgent.len() > 0 {
        let payload = encoded(st.urgent[0], record_limit(st));
        if payload.len() > record_limit(st) {
            (st, Err(too_large(st, payload)))
        } else {
            let (next, r) = issued(
                State { urgent: st.urgent.skip(1), ..st },
                payload,
                st.urgent[0] is Close,
            );
            (
                next,
                match r {
                    Ok(t) => Ok(Poll::Record(t)),
                    Err(e) => Err(e),
                },
            )
        }
    } else if st.phase == Phase::Closing {
        (st, Ok(Poll::Idle))
    } else {
        (st, Ok(Poll::Streams { limit: record_limit(st) }))
    }
}

/// The stream state machine hands over what it has to send, if anything.
pub open spec fn polled_streams(st: State, payload: Option<Seq<u8>>) -> (
    State,
    Result<Option<Issued>, Error<Seq<char>>>,
) {
    match payload {
        Some(payload) => {
            let (next, r) = issued(st, payload, false);
            (
                next,
                match r {
                    Ok(t) => Ok(Some(t)),
                    Err(e) => Err(e),
                },
            )
        },
        None => if st.auxiliary.len() == 0 {
            (st, Ok(None))
        } else {
            let payload = encoded(st.auxiliary[0], record_limit(st));
            if payload.len() > record_limit(st) {
                (st, Err(too_large(st, payload)))
            } else {
                let (next, r) = issued(
                    State { auxiliary: st.auxiliary.skip(1), ..st },
                    payload,
                    false,
                );
                (
                    next,
                    match r {
                        Ok(t) => Ok(Some(t)),
                        Err(e) => Err(e),
                    },
                )
            }
        },
    }
}

/// The carrier wrote a record.
pub open spec fn completed(st: State, t: Issued) -> (State, Result<(), Error<Seq<char>>>) {
    if t.connection != st.id {
        (st, Err(Error::WrongConnection))
    } else if t.sequence != st.next_completion {
        (st, Err(Error::OutOfOrderTransmit))
    } else {
        let next = State { next_completion: (st.next_completion + 1) as u64, ..st };
        if t.closes {
            (
                State {
                    phase: Phase::Closed,
                    urgent: Seq::empty(),
                    auxiliary: Seq::empty(),
                    ..next
                },
                Ok(()),
            )
        } else {
            (next, Ok(()))
        }
    }
}

} // verus!
