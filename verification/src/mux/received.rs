//! What a received frame comes to, from the octets of a record to what the stream state machine
//! is asked, what the application is told, and what the peer is answered.

use crate::buffer::lemma_take_varint;
use crate::mux::codec::{frame_at, frames_in, law_frame_progress, Frame};
use crate::mux::error::Error;
use crate::mux::laws::lemma_lone_frame;
use crate::mux::parameters::Parameters;
use crate::mux::state::{
    answered, initial_state, record_received, run, Close, Control, Event, Phase, State, Step, StreamCall,
};
use crate::stream_id::Side;
use crate::streams::event::StreamEvent;
use crate::streams::frame::{ApplicationClose, ConnectionClose};
use crate::streams::octets::{
    encodable_frame, frame_octets, law_frames_decoded, law_other_frames_decoded,
};
use crate::streams::reliable;
use crate::transport_error::TransportError;
use crate::varint::{encoding, group_varint, VarInt, VARINT_BOUND};
use vstd::prelude::*;

verus! {

broadcast use group_varint;

/// An open connection after its handshake with nothing received left to process.
pub open spec fn ready(st: State) -> bool {
    st.phase == Phase::Open && st.peer is Some && st.pending.len() == 0
}

/// Whether all of a connection is as before but for what tells how far a record was processed.
pub open spec fn otherwise_unchanged(st: State, after: State) -> bool {
    &&& after.id == st.id
    &&& after.side == st.side
    &&& after.local == st.local
    &&& after.peer == st.peer
    &&& after.urgent == st.urgent
    &&& after.auxiliary == st.auxiliary
    &&& after.events == st.events
    &&& after.next_transmit == st.next_transmit
    &&& after.next_completion == st.next_completion
    &&& after.last_ping_sent == st.last_ping_sent
    &&& after.last_ping_received == st.last_ping_received
    &&& after.phase == st.phase
}

/// Whether this endpoint takes records that hold as much as `payload`.
pub open spec fn takes(st: State, payload: Seq<u8>) -> bool {
    payload.len() <= st.local.max_record_size.value() && payload.len() <= usize::MAX
        && payload.len() < VARINT_BOUND
}

/// The record that holds the given frames: their size, then the frames.
pub open spec fn sized(payload: Seq<u8>) -> Seq<u8> {
    encoding(payload.len() as u64) + payload
}

/// Whether a record was refused under the given error code: the connection is about to close, the
/// peer is to be told the code, nothing else is sent any more but parameters that were not, and the
/// application learns nothing of the record.
pub open spec fn refused_with(
    st: State,
    after: State,
    outcome: Result<Step<Seq<u8>>, Error<Seq<char>>>,
    code: u64,
) -> bool {
    &&& outcome is Err
    &&& after.phase == Phase::Closing
    &&& after.urgent.len() > 0
    &&& after.urgent.last() matches Control::Close(Close::Transport(close))
    &&& close.error_code.value() == code
    &&& st.urgent.len() == 0 || !(st.urgent[0] is Parameters) ==> after.urgent.len() == 1
    &&& st.urgent.len() > 0 && st.urgent[0] is Parameters ==> after.urgent.len() == 2
        && after.urgent[0] == st.urgent[0]
    &&& after.auxiliary.len() == 0
    &&& after.pending.len() == 0
    &&& after.peer == st.peer
    &&& after.last_ping_received == st.last_ping_received
}

/// A record that holds a list of frames makes the connection process that list.
proof fn lemma_sized_record(st: State, payload: Seq<u8>)
    requires
        st.phase != Phase::Closed,
        takes(st, payload),
    ensures
        record_received(st, sized(payload)) == match frames_in(payload) {
            Ok(frames) => run(
                State { pending: frames, allocation_size: payload.len() as usize, ..st },
            ),
            Err(e) => (crate::mux::state::refused(st, e), Err(e)),
        },
{
    lemma_take_varint(payload.len() as u64, payload);
}

/// Stream and flow-control frames reach the stream state machine as they were sent: each frame of
/// a record is put to it unchanged, in the order of the frames and each when the one before was
/// answered, together with the size of the record. The events that an answer reports go to the
/// application in order, behind earlier ones, and nothing else changes.
pub proof fn law_frames_reach_streams(
    st: State,
    first: reliable::Frame<Seq<u8>>,
    second: reliable::Frame<Seq<u8>>,
    events: Seq<StreamEvent>,
)
    requires
        ready(st),
        encodable_frame(first),
        encodable_frame(second),
        takes(st, frame_octets(first) + frame_octets(second)),
    ensures
        ({
            let payload = frame_octets(first) + frame_octets(second);
            let (asked, one) = record_received(st, sized(payload));
            let (told, two) = answered(asked, Ok(events));
            let (after, done) = answered(told, Ok(Seq::empty()));
            &&& one == Ok::<_, Error<Seq<char>>>(
                Step::Call(
                    StreamCall::Frame { frame: first, allocation_size: payload.len() as usize },
                ),
            )
            &&& otherwise_unchanged(st, asked)
            &&& two == Ok::<_, Error<Seq<char>>>(
                Step::Call(
                    StreamCall::Frame { frame: second, allocation_size: payload.len() as usize },
                ),
            )
            &&& done == Ok::<Step<Seq<u8>>, Error<Seq<char>>>(Step::Done)
            &&& after.events.len() == st.events.len() + events.len()
            &&& after.events.take(st.events.len() as int) == st.events
            &&& forall|i: int|
                0 <= i < events.len() ==> #[trigger] after.events[st.events.len() + i]
                    == Event::<Seq<u8>>::Stream(events[i])
            &&& ready(after)
            &&& otherwise_unchanged(st, State { events: st.events, ..after })
        }),
{
    let payload = frame_octets(first) + frame_octets(second);
    law_frames_decoded(first, frame_octets(second));
    law_frames_decoded(second, Seq::empty());
    assert(frame_octets(second) + Seq::empty() =~= frame_octets(second));
    lemma_lone_frame(frame_octets(second), Frame::Stream(second));
    law_frame_progress(payload);
    let list = seq![Frame::Stream(first)] + seq![Frame::Stream(second)];
    assert(frames_in(payload) == Ok::<_, Error<Seq<char>>>(list));
    lemma_sized_record(st, payload);
    let asked = record_received(st, sized(payload)).0;
    assert(list[0] == Frame::Stream(first));
    assert(asked.pending =~= seq![Frame::Stream(second)]);
    let told = answered(asked, Ok(events)).0;
    assert(told.pending =~= Seq::empty());
    let after = answered(told, Ok(Seq::empty())).0;
    assert(after.events =~= told.events);
    assert(after.events.take(st.events.len() as int) =~= st.events);
}

/// A violation that the stream state machine finds closes the connection under its code, and the
/// frames behind are dropped.
pub proof fn law_stream_violation_closes(st: State, e: TransportError<Seq<char>>)
    requires
        st.phase == Phase::Open,
    ensures
        ({
            let (after, outcome) = answered(st, Err(e));
            &&& refused_with(st, after, outcome, e.code.value())
            &&& outcome == Err::<Step<Seq<u8>>, _>(Error::Protocol(e))
            &&& after.events == st.events
        }),
{
}

proof fn lemma_ping(sequence: VarInt, response: bool)
    requires
        sequence.in_range(),
    ensures
        frames_in(
            encoding(
                if response {
                    0x348c_6752_9ef8_c7be
                } else {
                    0x348c_6752_9ef8_c7bd
                },
            ) + encoding(sequence.value()),
        ) == Ok::<_, Error<Seq<char>>>(seq![Frame::<Seq<u8>>::Ping { sequence, response }]),
{
    let ty: u64 = if response {
        0x348c_6752_9ef8_c7be
    } else {
        0x348c_6752_9ef8_c7bd
    };
    lemma_take_varint(ty, encoding(sequence.value()));
    lemma_take_varint(sequence.value(), Seq::empty());
    assert(encoding(sequence.value()) + Seq::empty() =~= encoding(sequence.value()));
    lemma_lone_frame(
        encoding(ty) + encoding(sequence.value()),
        Frame::Ping { sequence, response },
    );
}

/// A ping request whose number exceeds those before is answered with that number, ahead of what
/// streams have to send but behind what already waits there; one whose number does not closes the
/// connection as a violation of the protocol.
pub proof fn law_ping_request_answered(st: State, sequence: VarInt)
    requires
        ready(st),
        sequence.in_range(),
        takes(st, encoding(0x348c_6752_9ef8_c7bd) + encoding(sequence.value())),
    ensures
        ({
            let payload = encoding(0x348c_6752_9ef8_c7bd) + encoding(sequence.value());
            let (after, outcome) = record_received(st, sized(payload));
            if st.last_ping_received matches Some(previous) && sequence.value() <= previous.value() {
                refused_with(st, after, outcome, 0x0a) && after.events == st.events
            } else {
                &&& outcome == Ok::<Step<Seq<u8>>, Error<Seq<char>>>(Step::Done)
                &&& after.urgent == st.urgent.push(Control::Ping { sequence, response: true })
                &&& after.last_ping_received == Some(sequence)
                &&& otherwise_unchanged(
                    st,
                    State {
                        urgent: st.urgent,
                        last_ping_received: st.last_ping_received,
                        ..after
                    },
                )
            }
        }),
{
    let payload = encoding(0x348c_6752_9ef8_c7bd) + encoding(sequence.value());
    lemma_ping(sequence, false);
    lemma_sized_record(st, payload);
    reveal_with_fuel(run, 2);
}

/// The answer to a ping request is reported with its number where such a request was sent; where
/// none was, the connection closes as a violation of the protocol.
pub proof fn law_ping_response_reported(st: State, sequence: VarInt)
    requires
        ready(st),
        sequence.in_range(),
        takes(st, encoding(0x348c_6752_9ef8_c7be) + encoding(sequence.value())),
    ensures
        ({
            let payload = encoding(0x348c_6752_9ef8_c7be) + encoding(sequence.value());
            let (after, outcome) = record_received(st, sized(payload));
            if st.last_ping_sent matches Some(last) && sequence.value() <= last.value() {
                &&& outcome == Ok::<Step<Seq<u8>>, Error<Seq<char>>>(Step::Done)
                &&& after.events == st.events.push(Event::PingResponse(sequence))
                &&& otherwise_unchanged(st, State { events: st.events, ..after })
            } else {
                refused_with(st, after, outcome, 0x0a) && after.events == st.events
            }
        }),
{
    let payload = encoding(0x348c_6752_9ef8_c7be) + encoding(sequence.value());
    lemma_ping(sequence, true);
    lemma_sized_record(st, payload);
    reveal_with_fuel(run, 2);
}

/// A datagram is reported to the application as it was sent where its frame keeps the limit that
/// this endpoint announced; where it does not, or none was announced, the connection closes.
pub proof fn law_datagram_reported(st: State, data: Seq<u8>)
    requires
        ready(st),
        takes(st, encoding(0x31) + (encoding(data.len() as u64) + data)),
    ensures
        ({
            let payload = encoding(0x31) + (encoding(data.len() as u64) + data);
            let (after, outcome) = record_received(st, sized(payload));
            let limit = st.local.max_datagram_frame_size.value();
            if 0 < limit && payload.len() <= limit {
                &&& outcome == Ok::<Step<Seq<u8>>, Error<Seq<char>>>(Step::Done)
                &&& after.events == st.events.push(Event::Datagram(data))
                &&& otherwise_unchanged(st, State { events: st.events, ..after })
            } else {
                &&& outcome matches Err(Error::DatagramTooLarge { size, limit: l })
                &&& size == payload.len() && l == limit
                &&& refused_with(st, after, outcome, 0x07)
                &&& after.events == st.events
            }
        }),
{
    let payload = encoding(0x31) + (encoding(data.len() as u64) + data);
    law_other_frames_decoded(data, VarInt::of(0), VarInt::of(0), Seq::empty());
    assert(encoding(data.len() as u64) + data + Seq::empty() =~= encoding(data.len() as u64)
        + data);
    lemma_lone_frame(payload, Frame::Datagram { data, frame_size: payload.len() as usize });
    lemma_sized_record(st, payload);
    reveal_with_fuel(run, 2);
}

/// A peer that closes the connection ends it at once, even while this endpoint closes it too: the application is told the code and the
/// reason, and whether the transport or the application of the peer gave them, and nothing that
/// waited is sent any more.
pub proof fn law_peer_closes(
    st: State,
    error_code: VarInt,
    frame_type: VarInt,
    reason: Seq<u8>,
)
    requires
        st.phase != Phase::Closed,
        st.peer is Some,
        error_code.in_range(),
        frame_type.in_range(),
        takes(
            st,
            encoding(0x1d) + (encoding(error_code.value()) + (encoding(reason.len() as u64)
                + reason)),
        ),
        takes(
            st,
            encoding(0x1c) + (encoding(error_code.value()) + (encoding(frame_type.value()) + (
            encoding(reason.len() as u64) + reason))),
        ),
    ensures
        ({
            let (after, outcome) = record_received(
                st,
                sized(
                    encoding(0x1d) + (encoding(error_code.value()) + (encoding(reason.len() as u64)
                        + reason)),
                ),
            );
            &&& outcome == Ok::<Step<Seq<u8>>, Error<Seq<char>>>(Step::Done)
            &&& after.phase == Phase::Closed
            &&& after.events == st.events.push(
                Event::Closed(Close::Application(ApplicationClose { error_code, reason })),
            )
            &&& after.urgent.len() == 0 && after.auxiliary.len() == 0 && after.pending.len() == 0
        }),
        ({
            let (after, outcome) = record_received(
                st,
                sized(
                    encoding(0x1c) + (encoding(error_code.value()) + (encoding(frame_type.value())
                        + (encoding(reason.len() as u64) + reason))),
                ),
            );
            &&& outcome == Ok::<Step<Seq<u8>>, Error<Seq<char>>>(Step::Done)
            &&& after.phase == Phase::Closed
            &&& after.events == st.events.push(
                Event::Closed(
                    Close::Transport(
                        ConnectionClose {
                            error_code,
                            frame_type: if frame_type.value() == 0 {
                                None
                            } else {
                                Some(frame_type)
                            },
                            reason,
                        },
                    ),
                ),
            )
            &&& after.urgent.len() == 0 && after.auxiliary.len() == 0 && after.pending.len() == 0
        }),
{
    let tail = encoding(reason.len() as u64) + reason;
    law_other_frames_decoded(reason, error_code, frame_type, Seq::empty());
    assert(tail + Seq::empty() =~= tail);
    let a = encoding(0x1d) + (encoding(error_code.value()) + tail);
    let b = encoding(0x1c) + (encoding(error_code.value()) + (encoding(frame_type.value()) + tail));
    lemma_lone_frame(a, Frame::ApplicationClose(ApplicationClose { error_code, reason }));
    lemma_lone_frame(
        b,
        Frame::ConnectionClose(
            ConnectionClose {
                error_code,
                frame_type: if frame_type.value() == 0 {
                    None
                } else {
                    Some(frame_type)
                },
                reason,
            },
        ),
    );
    lemma_sized_record(st, a);
    lemma_sized_record(st, b);
    reveal_with_fuel(run, 2);
}

/// Frames before the peer's parameters close the connection as a violation of the protocol.
pub proof fn law_parameters_come_first(st: State, frame: reliable::Frame<Seq<u8>>, sequence: VarInt)
    requires
        st.phase == Phase::Open,
        st.peer is None,
        encodable_frame(frame),
        sequence.in_range(),
        takes(st, frame_octets(frame)),
        takes(st, encoding(0x348c_6752_9ef8_c7bd) + encoding(sequence.value())),
    ensures
        ({
            let (after, outcome) = record_received(st, sized(frame_octets(frame)));
            &&& refused_with(st, after, outcome, 0x0a)
            &&& outcome matches Err(Error::ParametersNotFirst)
            &&& after.events == st.events
        }),
        ({
            let (after, outcome) = record_received(
                st,
                sized(encoding(0x348c_6752_9ef8_c7bd) + encoding(sequence.value())),
            );
            &&& refused_with(st, after, outcome, 0x0a)
            &&& outcome matches Err(Error::ParametersNotFirst)
            &&& after.events == st.events
        }),
{
    law_frames_decoded(frame, Seq::empty());
    assert(frame_octets(frame) + Seq::empty() =~= frame_octets(frame));
    lemma_lone_frame(frame_octets(frame), Frame::Stream(frame));
    lemma_sized_record(st, frame_octets(frame));
    let ping = encoding(0x348c_6752_9ef8_c7bd) + encoding(sequence.value());
    lemma_ping(sequence, false);
    lemma_sized_record(st, ping);
}

/// The parameters of the peer count once: another such frame closes the connection as a violation
/// of the protocol, whatever valid parameters it holds.
pub proof fn law_parameters_come_once(st: State, blob: Seq<u8>)
    requires
        ready(st),
        takes(st, encoding(0x3f51_5330_0d0a_0d0a) + (encoding(blob.len() as u64) + blob)),
        crate::mux::parameters::announced(blob) is Ok,
    ensures
        ({
            let (after, outcome) = record_received(
                st,
                sized(encoding(0x3f51_5330_0d0a_0d0a) + (encoding(blob.len() as u64) + blob)),
            );
            &&& refused_with(st, after, outcome, 0x0a)
            &&& outcome matches Err(Error::DuplicateParameters)
            &&& after.events == st.events
        }),
{
    let body = encoding(blob.len() as u64) + blob;
    let payload = encoding(0x3f51_5330_0d0a_0d0a) + body;
    lemma_take_varint(0x3f51_5330_0d0a_0d0a, body);
    lemma_take_varint(blob.len() as u64, blob);
    crate::buffer::lemma_take_octets(blob, Seq::empty());
    assert(blob + Seq::empty() =~= blob);
    let p = crate::mux::parameters::announced(blob)->Ok_0;
    lemma_lone_frame(payload, Frame::Parameters(p));
    lemma_sized_record(st, payload);
}

/// A record that is larger than this endpoint announced closes the connection as malformed.
pub proof fn law_oversized_record_closes(st: State, payload: Seq<u8>)
    requires
        st.phase == Phase::Open,
        payload.len() < VARINT_BOUND,
        payload.len() <= usize::MAX,
        payload.len() > st.local.max_record_size.value(),
    ensures
        ({
            let (after, outcome) = record_received(st, sized(payload));
            &&& refused_with(st, after, outcome, 0x07)
            &&& outcome matches Err(Error::RecordTooLarge { size, limit })
            &&& size == payload.len() && limit == st.local.max_record_size.value()
            &&& after.events == st.events
        }),
{
    lemma_take_varint(payload.len() as u64, payload);
}

/// A record whose size is not that of what it holds closes the connection as malformed.
pub proof fn law_mismatched_record_closes(st: State, size: u64, payload: Seq<u8>)
    requires
        st.phase == Phase::Open,
        size < VARINT_BOUND,
        size != payload.len(),
    ensures
        ({
            let (after, outcome) = record_received(st, encoding(size) + payload);
            &&& refused_with(st, after, outcome, 0x07)
            &&& outcome matches Err(Error::RecordSizeMismatch)
            &&& after.events == st.events
        }),
{
    lemma_take_varint(size, payload);
}

/// A frame that has no meaning closes the connection as malformed.
pub proof fn law_meaningless_frame_closes(st: State, ty: u64, body: Seq<u8>)
    requires
        st.phase == Phase::Open,
        ty < VARINT_BOUND,
        !meaningful(ty),
        takes(st, encoding(ty) + body),
    ensures
        ({
            let (after, outcome) = record_received(st, sized(encoding(ty) + body));
            &&& refused_with(st, after, outcome, 0x07)
            &&& outcome == Err::<Step<Seq<u8>>, Error<Seq<char>>>(Error::InvalidFrame(ty))
            &&& after.events == st.events
        }),
{
    lemma_sized_record(st, encoding(ty) + body);
    lemma_take_varint(ty, body);
    assert(frame_at(encoding(ty) + body) == Err::<(Frame<Seq<u8>>, Seq<u8>), Error<Seq<char>>>(
        Error::InvalidFrame(ty),
    ));
    assert(frames_in(encoding(ty) + body) == Err::<Seq<Frame<Seq<u8>>>, Error<Seq<char>>>(
        Error::InvalidFrame(ty),
    ));
}

/// The frame types that have a meaning.
pub open spec fn meaningful(ty: u64) -> bool {
    ||| ty == 0x00
    ||| ty == 0x04
    ||| ty == 0x05
    ||| 0x08 <= ty <= 0x17
    ||| ty == 0x1c
    ||| ty == 0x1d
    ||| ty == 0x30
    ||| ty == 0x31
    ||| ty == 0x3f51_5330_0d0a_0d0a
    ||| ty == 0x348c_6752_9ef8_c7bd
    ||| ty == 0x348c_6752_9ef8_c7be
}

/// Parameters that are not acceptable close the connection as a fault in transport parameters.
pub proof fn law_bad_parameters_close(st: State, blob: Seq<u8>)
    requires
        st.phase == Phase::Open,
        takes(st, encoding(0x3f51_5330_0d0a_0d0a) + (encoding(blob.len() as u64) + blob)),
        crate::mux::parameters::announced(blob) is Err,
    ensures
        ({
            let (after, outcome) = record_received(
                st,
                sized(encoding(0x3f51_5330_0d0a_0d0a) + (encoding(blob.len() as u64) + blob)),
            );
            &&& refused_with(st, after, outcome, 0x08)
            &&& after.events == st.events
        }),
{
    let body = encoding(blob.len() as u64) + blob;
    let payload = encoding(0x3f51_5330_0d0a_0d0a) + body;
    lemma_take_varint(0x3f51_5330_0d0a_0d0a, body);
    lemma_take_varint(blob.len() as u64, blob);
    crate::buffer::lemma_take_octets(blob, Seq::empty());
    assert(blob + Seq::empty() =~= blob);
    crate::mux::parameters::law_refused_parameters(blob);
    let e = crate::mux::parameters::announced(blob)->Err_0;
    assert(frame_at(payload) == Err::<(Frame<Seq<u8>>, Seq<u8>), Error<Seq<char>>>(e));
    assert(frames_in(payload) == Err::<Seq<Frame<Seq<u8>>>, Error<Seq<char>>>(e));
    lemma_sized_record(st, payload);
}

/// The limits that the stream state machine is given are those that the peer announces, each in
/// its place, and the connection keeps and reports what it announces.
pub proof fn law_announced_limits_granted(st: State, blob: Seq<u8>)
    requires
        st.phase == Phase::Open,
        st.peer is None,
        takes(st, encoding(0x3f51_5330_0d0a_0d0a) + (encoding(blob.len() as u64) + blob)),
        crate::mux::parameters::announced(blob) is Ok,
    ensures
        ({
            let (after, outcome) = record_received(
                st,
                sized(encoding(0x3f51_5330_0d0a_0d0a) + (encoding(blob.len() as u64) + blob)),
            );
            let p = crate::mux::parameters::announced(blob)->Ok_0;
            &&& outcome matches Ok(Step::Call(StreamCall::SetPeerParameters(granted)))
            &&& granted.initial_max_data == p.initial_max_data
            &&& granted.initial_max_stream_data_bidi_local == p.initial_max_stream_data_bidi_local
            &&& granted.initial_max_stream_data_bidi_remote == p.initial_max_stream_data_bidi_remote
            &&& granted.initial_max_stream_data_uni == p.initial_max_stream_data_uni
            &&& granted.initial_max_streams_bidi == p.initial_max_streams_bidi
            &&& granted.initial_max_streams_uni == p.initial_max_streams_uni
            &&& after.peer == Some(p)
            &&& after.events == st.events.push(Event::PeerParameters(p))
            &&& otherwise_unchanged(st, State { peer: st.peer, events: st.events, ..after })
        }),
{
    let body = encoding(blob.len() as u64) + blob;
    let payload = encoding(0x3f51_5330_0d0a_0d0a) + body;
    lemma_take_varint(0x3f51_5330_0d0a_0d0a, body);
    lemma_take_varint(blob.len() as u64, blob);
    crate::buffer::lemma_take_octets(blob, Seq::empty());
    assert(blob + Seq::empty() =~= blob);
    let p = crate::mux::parameters::announced(blob)->Ok_0;
    lemma_lone_frame(payload, Frame::Parameters(p));
    lemma_sized_record(st, payload);
}

/// A new connection has heard nothing, has nothing to report, and is open: it takes the first ping
/// of its peer whatever its number, sends its first ping whatever its number, and its parameters are
/// all that waits to be sent.
pub proof fn law_new_connection(id: u64, side: Side, local: Parameters)
    ensures
        ({
            let st = initial_state(id, side, local);
            &&& st.id == id
            &&& st.side == side
            &&& st.local == local
            &&& st.peer is None
            &&& st.urgent.len() == 1 && st.urgent[0] == Control::<Seq<u8>>::Parameters(local)
            &&& st.auxiliary.len() == 0 && st.events.len() == 0 && st.pending.len() == 0
            &&& st.next_transmit == 0 && st.next_completion == 0
            &&& st.last_ping_sent is None && st.last_ping_received is None
            &&& st.phase == Phase::Open
        }),
{
}

/// Processing goes on behind frames that ask nothing of the stream state machine: a ping in front
/// of a stream frame is taken note of, and the stream frame is still put.
pub proof fn law_frames_go_on(st: State, sequence: VarInt, frame: reliable::Frame<Seq<u8>>)
    requires
        ready(st),
        encodable_frame(frame),
        sequence.in_range(),
        st.last_ping_received matches Some(previous) ==> previous.value() < sequence.value(),
        takes(
            st,
            encoding(0x348c_6752_9ef8_c7bd) + (encoding(sequence.value()) + frame_octets(frame)),
        ),
    ensures
        ({
            let payload = encoding(0x348c_6752_9ef8_c7bd) + (encoding(sequence.value())
                + frame_octets(frame));
            let (after, outcome) = record_received(st, sized(payload));
            &&& outcome == Ok::<_, Error<Seq<char>>>(
                Step::Call(StreamCall::Frame { frame, allocation_size: payload.len() as usize }),
            )
            &&& after.urgent == st.urgent.push(Control::Ping { sequence, response: true })
            &&& after.pending.len() == 0
        }),
{
    let tail = frame_octets(frame);
    let payload = encoding(0x348c_6752_9ef8_c7bd) + (encoding(sequence.value()) + tail);
    let ping = Frame::<Seq<u8>>::Ping { sequence, response: false };
    lemma_take_varint(0x348c_6752_9ef8_c7bd, encoding(sequence.value()) + tail);
    lemma_take_varint(sequence.value(), tail);
    law_frames_decoded(frame, Seq::empty());
    assert(tail + Seq::empty() =~= tail);
    lemma_lone_frame(tail, Frame::Stream(frame));
    law_frame_progress(payload);
    let list = seq![ping] + seq![Frame::Stream(frame)];
    assert(frames_in(payload) == Ok::<_, Error<Seq<char>>>(list));
    lemma_sized_record(st, payload);
    assert(list[0] == ping);
    assert(list.skip(1) =~= seq![Frame::Stream(frame)]);
    assert(list.skip(1).skip(1) =~= Seq::empty());
    reveal_with_fuel(run, 3);
}

} // verus!
