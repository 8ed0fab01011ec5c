//! What a received frame comes to, from the octets on the wire to what the stream state machine
//! is asked, what the application is told, and what the peer is answered.

use crate::buffer::{lemma_take_varint, take_varint};
use crate::config::Config;
use crate::proto::event::{ConnectionError, Event, Reason};
use crate::proto::frame::{
    law_frame_progress, law_padding_skipped, lemma_frame, next_frame, ping_frame, Close, Frame,
};
use crate::proto::laws::{established, lemma_datagrams_appended};
use crate::proto::record::law_record_round_trip;
use crate::proto::state::{
    answered, fit_datagrams, fit_responses, initial_state, input_received, on_frame, pings, record_budget,
    record_received, run_frames, transmission, valid, State, Step, StreamCall, Transmission,
};
use crate::stream_id::{Dir, Side, StreamId};
use crate::streams::frame::{lemma_sized, ResetStream, StreamFrame};
use crate::streams::octets::{
    encodable_reset, encodable_stream, lemma_reset_fields, lemma_stream_fields, reset_fields,
    stream_fields, stream_octets, stream_type,
};
use crate::time::Instant;
use crate::transport_error::TransportError;
use crate::varint::{encoding, group_varint, VarInt, VARINT_BOUND};
use vstd::prelude::*;
use vstd::utf8::encode_utf8;

verus! {

broadcast use group_varint;

/// An established connection with nothing received left to process.
pub open spec fn ready(st: State) -> bool {
    &&& established(st)
    &&& st.record is None
    &&& st.input.len() == 0
    &&& !st.streaming
}

/// Whether all of a connection is as before but for what tells how far received octets were
/// processed, where streams go on, and the timers.
pub open spec fn otherwise_unchanged(st: State, after: State) -> bool {
    &&& after.side == st.side
    &&& after.config == st.config
    &&& after.params_sent == st.params_sent
    &&& after.peer_params == st.peer_params
    &&& after.next_ping_seq == st.next_ping_seq
    &&& after.greatest_ping_recv == st.greatest_ping_recv
    &&& after.ping_request_pending == st.ping_request_pending
    &&& after.ping_responses == st.ping_responses
    &&& after.max_data_pending == st.max_data_pending
    &&& after.datagram_send == st.datagram_send
    &&& after.datagram_recv == st.datagram_recv
    &&& after.close == st.close
    &&& after.close_sent == st.close_sent
    &&& after.error == st.error
    &&& after.events == st.events
}

/// The frame by which a peer raises a limit or wants a stream stopped: its type, then its
/// fields, each an integer.
pub open spec fn request(call: StreamCall<Seq<u8>>) -> Seq<u8> {
    match call {
        StreamCall::StopSending { id, error_code } => encoding(0x05) + (encoding(id.0.value())
            + encoding(error_code.value())),
        StreamCall::MaxData(max) => encoding(0x10) + encoding(max.value()),
        StreamCall::MaxStreamData { id, offset } => encoding(0x11) + (encoding(id.0.value())
            + encoding(offset)),
        StreamCall::MaxStreams { dir: Dir::Bi, count } => encoding(0x12) + encoding(count),
        StreamCall::MaxStreams { dir: Dir::Uni, count } => encoding(0x13) + encoding(count),
        _ => Seq::empty(),
    }
}

/// Whether `call` is one of those, with fields that can be encoded.
pub open spec fn requestable(call: StreamCall<Seq<u8>>) -> bool {
    match call {
        StreamCall::StopSending { id, error_code } => id.0.in_range() && error_code.in_range(),
        StreamCall::MaxData(max) => max.in_range(),
        StreamCall::MaxStreamData { id, offset } => id.0.in_range() && offset < VARINT_BOUND,
        StreamCall::MaxStreams { dir, count } => count < VARINT_BOUND,
        _ => false,
    }
}

/// A record in a stream of octets is processed like one that a transport delimits, up to the first
/// call.
proof fn lemma_in_stream(st: State, payload: Seq<u8>, more: Seq<u8>, now: Instant)
    requires
        ready(st),
        payload.len() <= st.config.max_record_size.value(),
        payload.len() < VARINT_BOUND,
        record_received(st, payload, now).1 matches Ok(Step::Call(_)),
    ensures
        input_received(st, encoding(payload.len() as u64) + payload + more, now) == (
            State { input: more, streaming: true, ..record_received(st, payload, now).0 },
            record_received(st, payload, now).1,
        ),
{
    let s = encoding(payload.len() as u64) + payload + more;
    law_record_round_trip(payload, more, st.config.max_record_size.value());
    assert(st.input + s =~= s);
    let a = State { idle: st.idle.rearmed(now), ..st };
    crate::proto::steps::lemma_frames_elsewhere(
        State { streaming: true, ..a },
        more,
        None,
        payload,
        payload.len() as usize,
        now,
    );
    lemma_streaming(a, payload, payload.len() as usize, now);
    crate::proto::record::lemma_next_record_shortens(s, st.config.max_record_size.value());
}

/// Frames are processed without regard to whether octets wait behind them.
#[verifier::rlimit(40)]
#[verifier::spinoff_prover]
proof fn lemma_streaming(st: State, s: Seq<u8>, len: usize, now: Instant)
    requires
        run_frames(st, s, len, now).1 matches Ok(Step::Call(_)),
    ensures
        run_frames(State { streaming: true, ..st }, s, len, now) == (
            State { streaming: true, ..run_frames(st, s, len, now).0 },
            run_frames(st, s, len, now).1,
        ),
    decreases s.len(),
{
    if let Ok(Some((frame, rest))) = next_frame(s) {
        if let Ok((next, call)) = on_frame(st, frame, len, now) {
            assert(on_frame(State { streaming: true, ..st }, frame, len, now) == Ok::<
                _,
                TransportError<Seq<char>>,
            >((State { streaming: true, ..next }, call)));
            if call is None && !(next.error is Some || rest.len() >= s.len()) {
                lemma_streaming(next, rest, len, now);
            }
        }
    }
}

/// The frame that [`request`] encodes.
spec fn requested(call: StreamCall<Seq<u8>>) -> Frame<Seq<u8>> {
    match call {
        StreamCall::StopSending { id, error_code } => Frame::StopSending { id, error_code },
        StreamCall::MaxData(max) => Frame::MaxData(max),
        StreamCall::MaxStreamData { id, offset } => Frame::MaxStreamData {
            id,
            offset: VarInt::of(offset),
        },
        StreamCall::MaxStreams { dir, count } => Frame::MaxStreams { dir, count: VarInt::of(count) },
        _ => Frame::Datagram(Seq::empty()),
    }
}

proof fn lemma_request(call: StreamCall<Seq<u8>>, rest: Seq<u8>)
    requires
        requestable(call),
    ensures
        next_frame(request(call) + rest) == Ok::<_, TransportError<Seq<char>>>(
            Some((requested(call), rest)),
        ),
{
    match call {
        StreamCall::StopSending { id, error_code } => {
            let body = encoding(id.0.value()) + (encoding(error_code.value()) + rest);
            assert(request(call) + rest =~= encoding(0x05) + body);
            lemma_frame(0x05, body);
            lemma_take_varint(id.0.value(), encoding(error_code.value()) + rest);
            lemma_take_varint(error_code.value(), rest);
        },
        StreamCall::MaxData(max) => {
            let body = encoding(max.value()) + rest;
            assert(request(call) + rest =~= encoding(0x10) + body);
            lemma_frame(0x10, body);
            lemma_take_varint(max.value(), rest);
        },
        StreamCall::MaxStreamData { id, offset } => {
            let body = encoding(id.0.value()) + (encoding(offset) + rest);
            assert(request(call) + rest =~= encoding(0x11) + body);
            lemma_frame(0x11, body);
            lemma_take_varint(id.0.value(), encoding(offset) + rest);
            lemma_take_varint(offset, rest);
        },
        StreamCall::MaxStreams { dir, count } => {
            let ty: u64 = if dir == Dir::Bi {
                0x12
            } else {
                0x13
            };
            let body = encoding(count) + rest;
            assert(request(call) + rest =~= encoding(ty) + body);
            lemma_frame(ty, body);
            lemma_take_varint(count, rest);
        },
        _ => {},
    }
}

/// Processing stops at a request, and nothing changes but that the frames behind it wait.
pub proof fn lemma_request_asked(
    st: State,
    call: StreamCall<Seq<u8>>,
    rest: Seq<u8>,
    len: usize,
    now: Instant,
)
    requires
        established(st),
        requestable(call),
    ensures
        run_frames(st, request(call) + rest, len, now) == (
            State { record: Some((rest, len)), ..st },
            Ok::<_, Reason>(Step::Call(call)),
        ),
{
    lemma_request(call, rest);
    law_frame_progress(request(call) + rest);
}

/// What a peer permits or wants stopped is what the stream state machine is asked: a record
/// that begins with a MAX_DATA, MAX_STREAM_DATA, MAX_STREAMS or STOP_SENDING frame makes an
/// established connection ask for exactly the limit, the code, the stream and the direction in
/// the frame, whichever transport the record arrives by and whatever follows, and changes
/// nothing else.
pub proof fn law_requests_reach_streams(
    st: State,
    call: StreamCall<Seq<u8>>,
    rest: Seq<u8>,
    more: Seq<u8>,
    now: Instant,
)
    requires
        ready(st),
        requestable(call),
        (request(call) + rest).len() <= st.config.max_record_size.value(),
        (request(call) + rest).len() < VARINT_BOUND,
    ensures
        ({
            let payload = request(call) + rest;
            let (after, outcome) = record_received(st, payload, now);
            &&& outcome == Ok::<_, Reason>(Step::Call(call))
            &&& otherwise_unchanged(st, after)
            &&& after.offsets == st.offsets
            &&& input_received(st, encoding(payload.len() as u64) + payload + more, now) == (
                State { input: more, streaming: true, ..after },
                outcome,
            )
        }),
{
    let payload = request(call) + rest;
    let started = State { idle: st.idle.rearmed(now), ..st };
    lemma_request_asked(started, call, rest, payload.len() as usize, now);
    lemma_in_stream(st, payload, more, now);
}

/// Requests in one record are put to the stream state machine one after the other, in the order
/// of the frames and each when the one before was answered; what the answers say about
/// connection-level credit is kept.
pub proof fn law_requests_in_turn(
    st: State,
    first: StreamCall<Seq<u8>>,
    second: StreamCall<Seq<u8>>,
    rest: Seq<u8>,
    credit: bool,
    now: Instant,
    later: Instant,
)
    requires
        ready(st),
        requestable(first),
        requestable(second),
    ensures
        ({
            let (asked, _) = record_received(st, request(first) + (request(second) + rest), now);
            let (after, outcome) = answered(asked, Ok(credit), later);
            &&& outcome == Ok::<_, Reason>(Step::Call(second))
            &&& after.max_data_pending == (st.max_data_pending || credit)
            &&& otherwise_unchanged(st, State { max_data_pending: st.max_data_pending, ..after })
            &&& after.offsets == st.offsets
        }),
{
    let behind = request(second) + rest;
    let len = (request(first) + behind).len() as usize;
    let started = State { idle: st.idle.rearmed(now), ..st };
    lemma_request_asked(started, first, behind, len, now);
    let asked = State { record: Some((behind, len)), ..started };
    lemma_request_asked(
        State { max_data_pending: st.max_data_pending || credit, ..asked },
        second,
        rest,
        len,
        later,
    );
}

/// When all frames of a record were processed the stream state machine is asked once to announce
/// stream limits, and after that answer the record is done with.
pub proof fn law_record_ends(
    st: State,
    call: StreamCall<Seq<u8>>,
    credit: bool,
    now: Instant,
    later: Instant,
)
    requires
        ready(st),
        requestable(call),
    ensures
        ({
            let (asked, _) = record_received(st, request(call), now);
            let (last, outcome) = answered(asked, Ok(credit), later);
            let (after, done) = answered(last, Ok(credit), later);
            &&& outcome == Ok::<_, Reason>(Step::Call(StreamCall::<Seq<u8>>::QueueMaxStreams))
            &&& done == Ok::<Step<Seq<u8>>, Reason>(Step::Done)
            &&& ready(after)
            &&& record_received(st, Seq::empty(), now).1 == outcome
        }),
{
    let started = State { idle: st.idle.rearmed(now), ..st };
    lemma_request_asked(started, call, Seq::empty(), request(call).len() as usize, now);
    assert(request(call) + Seq::empty() =~= request(call));
}

/// Whether a connection ended because the peer broke a rule, under the given error code: the
/// application is told, and the peer is to be told the same.
pub open spec fn ended_with(
    st: State,
    after: State,
    outcome: Result<Step<Seq<u8>>, Reason>,
    code: u64,
) -> bool {
    outcome matches Err(ConnectionError::TransportError(e)) && {
        &&& e.code.value() == code
        &&& after.error == Some(ConnectionError::<Seq<char>, Seq<u8>>::TransportError(e))
        &&& after.events == st.events.push(
            Event::ConnectionLost { reason: ConnectionError::TransportError(e) },
        )
        &&& after.close == Some(
            Close {
                is_application: false,
                error_code: e.code,
                frame_type: None,
                reason: encode_utf8(e.reason),
            },
        )
        &&& after.record is None
        &&& after.peer_params == st.peer_params
        &&& after.datagram_recv == st.datagram_recv
        &&& after.ping_responses == st.ping_responses
        &&& after.offsets == st.offsets
    }
}

/// A stream that the peer abandons is reset, with the code and the size that the peer names,
/// whether or not it also names how much of the stream counts: everything before was delivered.
/// The stream is forgotten, and nothing else changes. A part that exceeds the whole is malformed.
pub proof fn law_reset_reaches_streams(
    st: State,
    reset: ResetStream,
    reliable_size: u64,
    rest: Seq<u8>,
    now: Instant,
)
    requires
        ready(st),
        encodable_reset(reset),
        reliable_size < VARINT_BOUND,
    ensures
        ({
            let (after, outcome) = record_received(
                st,
                encoding(0x04) + (reset_fields(reset) + rest),
                now,
            );
            &&& outcome == Ok::<_, Reason>(Step::Call(StreamCall::<Seq<u8>>::Reset(reset)))
            &&& otherwise_unchanged(st, after)
            &&& after.offsets == st.offsets.remove(reset.id.0.value())
        }),
        ({
            let (after, outcome) = record_received(
                st,
                encoding(0x24) + (reset_fields(reset) + (encoding(reliable_size) + rest)),
                now,
            );
            if reliable_size <= reset.final_offset.value() {
                &&& outcome == Ok::<_, Reason>(Step::Call(StreamCall::<Seq<u8>>::Reset(reset)))
                &&& otherwise_unchanged(st, after)
                &&& after.offsets == st.offsets.remove(reset.id.0.value())
            } else {
                ended_with(st, after, outcome, 0x07)
            }
        }),
{
    let sized = encoding(reliable_size) + rest;
    lemma_frame(0x04, reset_fields(reset) + rest);
    lemma_reset_fields(reset, rest);
    lemma_frame(0x24, reset_fields(reset) + sized);
    lemma_reset_fields(reset, sized);
    lemma_take_varint(reliable_size, rest);
}

/// Stream data that continues where the stream stands reaches the stream state machine as it was
/// sent: the stream, the offset, the data and whether the stream ends, together with the size of
/// the record that the data keeps alive. The stream then stands behind the data, or is forgotten
/// with its end; no other stream moves, and nothing else changes. Data at any other offset ends
/// the connection as a violation of the protocol.
pub proof fn law_data_reaches_streams(
    st: State,
    f: StreamFrame<Seq<u8>>,
    with_offset: bool,
    with_length: bool,
    rest: Seq<u8>,
    now: Instant,
)
    requires
        ready(st),
        encodable_stream(f, with_offset, with_length, rest),
        (stream_octets(f, with_offset, with_length) + rest).len() <= usize::MAX,
    ensures
        ({
            let payload = stream_octets(f, with_offset, with_length) + rest;
            let (after, outcome) = record_received(st, payload, now);
            let id = f.id.0.value();
            let stands = if st.offsets.dom().contains(id) {
                st.offsets[id]
            } else {
                0
            };
            if f.offset == stands {
                &&& outcome matches Ok(Step::Call(StreamCall::Data { frame, allocation_size }))
                &&& frame == f
                &&& allocation_size == payload.len()
                &&& otherwise_unchanged(st, after)
                &&& after.offsets == (if f.fin {
                    st.offsets.remove(id)
                } else {
                    st.offsets.insert(id, (f.offset + f.data.len()) as u64)
                })
            } else {
                ended_with(st, after, outcome, 0x0a)
            }
        }),
{
    let ty = stream_type(with_offset, with_length, f.fin);
    let fields = stream_fields(f, with_offset, with_length);
    assert(stream_octets(f, with_offset, with_length) + rest =~= encoding(ty) + (fields + rest));
    lemma_stream_fields(f, with_offset, with_length, rest);
    lemma_frame(ty, fields + rest);
}

/// The frames by which a peer says that it is blocked: on the connection, on a stream, or by the
/// number of streams in either direction.
pub open spec fn blocked_frame(ty: u64, id: StreamId, limit: u64) -> Seq<u8> {
    encoding(ty) + (if ty == 0x15 {
        encoding(id.0.value())
    } else {
        Seq::empty()
    } + encoding(limit))
}

/// That a peer says it is blocked, and padding, change nothing: the frames behind are processed
/// as if these were not there.
pub proof fn law_blocked_and_padding_ignored(
    st: State,
    ty: u64,
    id: StreamId,
    limit: u64,
    rest: Seq<u8>,
    len: usize,
    now: Instant,
)
    requires
        established(st),
        0x14 <= ty <= 0x17,
        id.0.in_range(),
        limit < VARINT_BOUND,
    ensures
        run_frames(st, blocked_frame(ty, id, limit) + rest, len, now) == run_frames(
            st,
            rest,
            len,
            now,
        ),
        run_frames(st, seq![0u8] + rest, len, now) == run_frames(st, rest, len, now),
{
    let s1 = encoding(limit) + rest;
    let body = if ty == 0x15 {
        encoding(id.0.value()) + s1
    } else {
        s1
    };
    let s = blocked_frame(ty, id, limit) + rest;
    assert(s =~= encoding(ty) + body);
    lemma_frame(ty, body);
    lemma_take_varint(limit, rest);
    lemma_take_varint(id.0.value(), s1);
    law_frame_progress(s);
    law_padding_skipped(rest);
    law_frame_progress(rest);
    law_frame_progress(seq![0u8] + rest);
}

/// A peer that closes the connection ends it, for the code and the reason it gives: its
/// application by a frame of type 0x1d, its transport by one of type 0x1c that also names a frame
/// type. The application is told, the peer is told nothing back, and frames behind the close
/// are ignored.
pub proof fn law_peer_closes(
    st: State,
    error_code: VarInt,
    frame_type: VarInt,
    reason: Seq<u8>,
    rest: Seq<u8>,
    now: Instant,
)
    requires
        ready(st),
        error_code.in_range(),
        frame_type.in_range(),
        reason.len() < VARINT_BOUND,
    ensures
        ({
            let (after, outcome) = record_received(
                st,
                encoding(0x1d) + (encoding(error_code.value()) + (encoding(reason.len() as u64)
                    + reason + rest)),
                now,
            );
            let why = ConnectionError::<Seq<char>, Seq<u8>>::ApplicationClosed { error_code, reason };
            &&& outcome == Ok::<Step<Seq<u8>>, Reason>(Step::Done)
            &&& after.error == Some(why)
            &&& after.events == st.events.push(Event::ConnectionLost { reason: why })
            &&& after.close == st.close
        }),
        ({
            let (after, outcome) = record_received(
                st,
                encoding(0x1c) + (encoding(error_code.value()) + (encoding(frame_type.value()) + (
                encoding(reason.len() as u64) + reason + rest))),
                now,
            );
            let why = ConnectionError::<Seq<char>, Seq<u8>>::ConnectionClosed {
                error_code,
                frame_type: Some(frame_type),
                reason,
            };
            &&& outcome == Ok::<Step<Seq<u8>>, Reason>(Step::Done)
            &&& after.error == Some(why)
            &&& after.events == st.events.push(Event::ConnectionLost { reason: why })
            &&& after.close == st.close
        }),
{
    let tail = encoding(reason.len() as u64) + reason + rest;
    lemma_sized(reason, rest);
    lemma_frame(0x1d, encoding(error_code.value()) + tail);
    lemma_take_varint(error_code.value(), tail);
    let typed = encoding(frame_type.value()) + tail;
    lemma_frame(0x1c, encoding(error_code.value()) + typed);
    lemma_take_varint(error_code.value(), typed);
    lemma_take_varint(frame_type.value(), tail);
}

/// A queue of datagrams takes a new one at its end; where it holds as many as it may, the oldest
/// gives way.
pub open spec fn takes(
    before: Seq<Seq<u8>>,
    after: Seq<Seq<u8>>,
    capacity: usize,
    data: Seq<u8>,
) -> bool {
    &&& after.len() > 0 && after.last() == data
    &&& before.len() < capacity || before.len() == 0 ==> after.drop_last() == before
    &&& before.len() >= capacity && before.len() > 0 ==> after.drop_last() == before.skip(1)
}

/// A datagram within the limit that was announced is queued for the application, which is told;
/// one that exceeds the limit, or any where datagrams were not announced, ends the connection as
/// a violation of the protocol. With or without a length the frame means the same; what counts
/// is the size with one.
pub proof fn law_datagram_received(st: State, data: Seq<u8>, with_length: bool, now: Instant)
    requires
        ready(st),
        data.len() < VARINT_BOUND,
    ensures
        ({
            let payload = if with_length {
                encoding(0x31) + (encoding(data.len() as u64) + data)
            } else {
                encoding(0x30) + data
            };
            let (after, outcome) = record_received(st, payload, now);
            let size = 1 + encoding(data.len() as u64).len() + data.len();
            if st.config.max_datagram_frame_size matches Some(max) && size <= max.value() {
                &&& outcome == Ok::<_, Reason>(Step::Call(StreamCall::<Seq<u8>>::QueueMaxStreams))
                &&& takes(
                    st.datagram_recv,
                    after.datagram_recv,
                    st.config.datagram_recv_queue,
                    data,
                )
                &&& after.events == st.events.push(Event::DatagramReceived)
                &&& after.offsets == st.offsets
                &&& otherwise_unchanged(
                    st,
                    State { datagram_recv: st.datagram_recv, events: st.events, ..after },
                )
            } else {
                ended_with(st, after, outcome, 0x0a)
            }
        }),
{
    let payload = if with_length {
        encoding(0x31) + (encoding(data.len() as u64) + data)
    } else {
        encoding(0x30) + data
    };
    if with_length {
        lemma_frame(0x31, encoding(data.len() as u64) + data);
        lemma_sized(data, Seq::empty());
        assert(encoding(data.len() as u64) + data + Seq::empty() =~= encoding(data.len() as u64)
            + data);
    } else {
        lemma_frame(0x30, data);
    }
    law_frame_progress(payload);
    reveal_with_fuel(run_frames, 2);
    let after = record_received(st, payload, now).0;
    if st.config.max_datagram_frame_size matches Some(max) && 1 + encoding(data.len() as u64).len()
        + data.len() <= max.value() {
        if st.datagram_recv.len() >= st.config.datagram_recv_queue && st.datagram_recv.len() > 0 {
            assert(after.datagram_recv.drop_last() =~= st.datagram_recv.skip(1));
        } else {
            assert(after.datagram_recv.drop_last() =~= st.datagram_recv);
        }
    }
}

/// A ping request is answered, with its own number and in the next record, where its number
/// exceeds those of all requests before; where it does not, the connection ends as a violation
/// of the protocol.
pub proof fn law_ping_request_answered(st: State, seq: VarInt, now: Instant, later: Instant)
    requires
        ready(st),
        valid(st),
        st.params_sent,
        st.ping_responses.len() == 0,
        seq.in_range(),
    ensures
        ({
            let (after, outcome) = record_received(
                st,
                encoding(0x348c_6752_9ef8_c7bd) + encoding(seq.value()),
                now,
            );
            let response = encoding(0x348c_6752_9ef8_c7be) + encoding(seq.value());
            if st.greatest_ping_recv matches Some(greatest) && seq.value() <= greatest {
                ended_with(st, after, outcome, 0x0a)
            } else {
                &&& outcome == Ok::<_, Reason>(Step::Call(StreamCall::<Seq<u8>>::QueueMaxStreams))
                &&& after.greatest_ping_recv == Some(seq.value())
                &&& after.events == st.events
                &&& after.error is None
                &&& transmission(after, later).1 matches Transmission::Open { frames, .. }
                &&& frames.len() >= response.len()
                &&& frames.take(response.len() as int) == response
                &&& transmission(after, later).0.ping_responses.len() == 0
            }
        }),
{
    let payload = encoding(0x348c_6752_9ef8_c7bd) + encoding(seq.value());
    lemma_frame(0x348c_6752_9ef8_c7bd, encoding(seq.value()));
    lemma_take_varint(seq.value(), Seq::empty());
    assert(encoding(seq.value()) + Seq::empty() =~= encoding(seq.value()));
    law_frame_progress(payload);
    reveal_with_fuel(run_frames, 2);
    let after = record_received(st, payload, now).0;
    let response = ping_frame(true, seq);
    if !(st.greatest_ping_recv matches Some(greatest) && seq.value() <= greatest) {
        assert(after.ping_responses =~= seq![seq]);
        let budget = record_budget(after);
        let start = Seq::<u8>::empty();
        assert(start + response =~= response);
        reveal_with_fuel(fit_responses, 2);
        assert(fit_responses(start, after.ping_responses, budget) == (response, after.ping_responses.skip(1)));
        let b2 = if pings(after, response) {
            response + ping_frame(false, VarInt::of(after.next_ping_seq))
        } else {
            response
        };
        lemma_datagrams_appended(b2, after.datagram_send, budget);
        let b3 = fit_datagrams(b2, after.datagram_send, budget).0;
        let n = response.len() as int;
        assert(b3.take(b2.len() as int).take(n) =~= b3.take(n));
        assert(b2.take(n) =~= response);
    }
}

/// The answer to a ping request that was sent is taken; an answer to one that was never sent
/// ends the connection as a violation of the protocol.
pub proof fn law_ping_response_checked(st: State, seq: VarInt, now: Instant)
    requires
        ready(st),
        seq.in_range(),
    ensures
        ({
            let (after, outcome) = record_received(
                st,
                encoding(0x348c_6752_9ef8_c7be) + encoding(seq.value()),
                now,
            );
            if seq.value() < st.next_ping_seq {
                &&& outcome == Ok::<_, Reason>(Step::Call(StreamCall::<Seq<u8>>::QueueMaxStreams))
                &&& otherwise_unchanged(st, after)
                &&& after.offsets == st.offsets
            } else {
                ended_with(st, after, outcome, 0x0a)
            }
        }),
{
    let payload = encoding(0x348c_6752_9ef8_c7be) + encoding(seq.value());
    lemma_frame(0x348c_6752_9ef8_c7be, encoding(seq.value()));
    lemma_take_varint(seq.value(), Seq::empty());
    assert(encoding(seq.value()) + Seq::empty() =~= encoding(seq.value()));
    law_frame_progress(payload);
    reveal_with_fuel(run_frames, 2);
}

/// The peer's transport parameters come first and once: before them any other frame, and after
/// them another such frame, ends the connection as a violation of the protocol.
pub proof fn law_parameters_first_and_once(
    st: State,
    call: StreamCall<Seq<u8>>,
    seq: VarInt,
    blob: Seq<u8>,
    rest: Seq<u8>,
    now: Instant,
)
    requires
        st.error is None,
        st.record is None,
        requestable(call),
        seq.in_range(),
        blob.len() < VARINT_BOUND,
    ensures
        st.peer_params is None ==> {
            let (after, outcome) = record_received(st, request(call) + rest, now);
            ended_with(st, after, outcome, 0x0a)
        },
        st.peer_params is None ==> {
            let (after, outcome) = record_received(
                st,
                encoding(0x348c_6752_9ef8_c7bd) + (encoding(seq.value()) + rest),
                now,
            );
            ended_with(st, after, outcome, 0x0a)
        },
        st.peer_params is None ==> {
            let (after, outcome) = record_received(
                st,
                encoding(0x31) + (encoding(blob.len() as u64) + blob + rest),
                now,
            );
            ended_with(st, after, outcome, 0x0a)
        },
        st.peer_params is Some ==> {
            let (after, outcome) = record_received(
                st,
                encoding(0x3f51_5330_0d0a_0d0a) + (encoding(blob.len() as u64) + blob + rest),
                now,
            );
            ended_with(st, after, outcome, 0x0a)
        },
{
    lemma_request(call, rest);
    lemma_frame(0x348c_6752_9ef8_c7bd, encoding(seq.value()) + rest);
    lemma_take_varint(seq.value(), rest);
    lemma_sized(blob, rest);
    lemma_frame(0x31, encoding(blob.len() as u64) + blob + rest);
    lemma_frame(0x3f51_5330_0d0a_0d0a, encoding(blob.len() as u64) + blob + rest);
}

/// The frame types that have a meaning.
pub open spec fn meaningful(ty: u64) -> bool {
    ||| ty == 0x00
    ||| ty == 0x04
    ||| ty == 0x05
    ||| 0x08 <= ty <= 0x17
    ||| ty == 0x1c
    ||| ty == 0x1d
    ||| ty == 0x24
    ||| ty == 0x30
    ||| ty == 0x31
    ||| ty == 0x3f51_5330_0d0a_0d0a
    ||| ty == 0x348c_6752_9ef8_c7bd
    ||| ty == 0x348c_6752_9ef8_c7be
}

/// A frame of any other type ends the connection as malformed, and so does one that ends before
/// its first field does.
pub proof fn law_malformed_ends(st: State, ty: u64, body: Seq<u8>, now: Instant)
    requires
        st.error is None,
        st.record is None,
        ty < VARINT_BOUND,
    ensures
        !meaningful(ty) ==> {
            let (after, outcome) = record_received(st, encoding(ty) + body, now);
            ended_with(st, after, outcome, 0x07)
        },
        meaningful(ty) && ty != 0x00 && ty != 0x30 ==> {
            let (after, outcome) = record_received(st, encoding(ty), now);
            ended_with(st, after, outcome, 0x07)
        },
{
    if ty != 0 {
        lemma_frame(ty, body);
        lemma_frame(ty, Seq::empty());
        assert(encoding(ty) + Seq::empty() =~= encoding(ty));
        assert(take_varint(Seq::<u8>::empty()) is None) by {
            reveal(crate::varint::decoding);
        }
    }
}

/// A record whose announced size exceeds what this endpoint accepts ends the connection as a
/// violation of the protocol, before any of it arrived.
pub proof fn law_oversized_record_ends(st: State, size: u64, more: Seq<u8>, now: Instant)
    requires
        ready(st),
        st.config.max_record_size.value() < size < VARINT_BOUND,
    ensures
        ({
            let (after, outcome) = input_received(st, encoding(size) + more, now);
            ended_with(st, after, outcome, 0x0a)
        }),
{
    lemma_take_varint(size, more);
    assert(st.input + (encoding(size) + more) =~= encoding(size) + more);
}

/// A violation that the stream state machine finds ends the connection for exactly that.
pub proof fn law_stream_violation_ends(st: State, e: TransportError<Seq<char>>, now: Instant)
    requires
        st.error is None,
    ensures
        ({
            let (after, outcome) = answered(st, Err(e), now);
            &&& outcome == Err::<Step<Seq<u8>>, Reason>(ConnectionError::TransportError(e))
            &&& ended_with(st, after, outcome, e.code.value())
        }),
{
}

/// The limits that the stream state machine is given are those that the peer announces, each in
/// its place, and the connection keeps what it announces.
pub proof fn law_announced_limits_granted(
    st: State,
    blob: Seq<u8>,
    rest: Seq<u8>,
    now: Instant,
)
    requires
        st.error is None,
        st.record is None,
        st.peer_params is None,
        blob.len() < VARINT_BOUND,
        crate::proto::params::announced(blob) is Ok,
    ensures
        ({
            let (after, outcome) = record_received(
                st,
                encoding(0x3f51_5330_0d0a_0d0a) + (encoding(blob.len() as u64) + blob + rest),
                now,
            );
            let p = crate::proto::params::announced(blob)->Ok_0;
            &&& outcome matches Ok(Step::Call(StreamCall::SetParameters(tp)))
            &&& tp.initial_max_data == p.tp.initial_max_data
            &&& tp.initial_max_stream_data_bidi_local == p.tp.initial_max_stream_data_bidi_local
            &&& tp.initial_max_stream_data_bidi_remote == p.tp.initial_max_stream_data_bidi_remote
            &&& tp.initial_max_stream_data_uni == p.tp.initial_max_stream_data_uni
            &&& tp.initial_max_streams_bidi == p.tp.initial_max_streams_bidi
            &&& tp.initial_max_streams_uni == p.tp.initial_max_streams_uni
            &&& after.peer_params == Some(p)
            &&& after.error is None
            &&& after.offsets == st.offsets
            &&& after.datagram_send == st.datagram_send
            &&& after.datagram_recv == st.datagram_recv
            &&& after.ping_responses == st.ping_responses
            &&& after.close == st.close
        }),
{
    lemma_sized(blob, rest);
    lemma_frame(0x3f51_5330_0d0a_0d0a, encoding(blob.len() as u64) + blob + rest);
}

/// Parameters that are not acceptable end the connection as a fault in transport parameters.
pub proof fn law_bad_parameters_end(st: State, blob: Seq<u8>, rest: Seq<u8>, now: Instant)
    requires
        st.error is None,
        st.record is None,
        st.peer_params is None,
        blob.len() < VARINT_BOUND,
        crate::proto::params::announced(blob) is Err,
    ensures
        ({
            let (after, outcome) = record_received(
                st,
                encoding(0x3f51_5330_0d0a_0d0a) + (encoding(blob.len() as u64) + blob + rest),
                now,
            );
            ended_with(st, after, outcome, 0x08)
        }),
{
    lemma_sized(blob, rest);
    lemma_frame(0x3f51_5330_0d0a_0d0a, encoding(blob.len() as u64) + blob + rest);
    crate::proto::params::law_refused_parameters(blob);
}

/// While a record is not complete nothing comes of it: the octets wait, and nothing else changes.
pub proof fn law_incomplete_record_waits(st: State, size: u64, part: Seq<u8>, now: Instant)
    requires
        ready(st),
        size <= st.config.max_record_size.value(),
        part.len() < size < VARINT_BOUND,
    ensures
        input_received(st, encoding(size) + part, now) == (
            State { input: encoding(size) + part, ..st },
            Ok::<Step<Seq<u8>>, Reason>(Step::Done),
        ),
{
    lemma_take_varint(size, part);
    assert(st.input + (encoding(size) + part) =~= encoding(size) + part);
}

/// A new connection has heard nothing, has nothing to report or to answer, and has not ended: it
/// takes the first ping of its peer whatever its number, expects the data of every stream to begin
/// at its beginning, and numbers its own pings from zero.
pub proof fn law_new_connection(config: Config, side: Side, created: Instant, id: u64)
    ensures
        ({
            let st = initial_state(config, side, created);
            &&& st.side == side
            &&& st.config == config
            &&& !st.params_sent && !st.close_sent
            &&& st.peer_params is None && st.error is None && st.close is None
            &&& !st.offsets.dom().contains(id)
            &&& st.record is None && st.input.len() == 0 && !st.streaming
            &&& st.greatest_ping_recv is None && st.next_ping_seq == 0
            &&& !st.ping_request_pending && st.ping_responses.len() == 0
            &&& !st.max_data_pending
            &&& st.datagram_send.len() == 0 && st.datagram_recv.len() == 0
            &&& st.events.len() == 0
        }),
{
}

/// Records in a stream of octets are processed one after the other: when the first is done with,
/// the next is begun without further octets.
pub proof fn law_next_record_follows(
    st: State,
    first: StreamCall<Seq<u8>>,
    second: StreamCall<Seq<u8>>,
    more: Seq<u8>,
    credit: bool,
    now: Instant,
    later: Instant,
)
    requires
        ready(st),
        requestable(first),
        requestable(second),
        request(first).len() <= st.config.max_record_size.value(),
        request(first).len() < VARINT_BOUND,
        request(second).len() <= st.config.max_record_size.value(),
        request(second).len() < VARINT_BOUND,
    ensures
        ({
            let one = encoding(request(first).len() as u64) + request(first);
            let two = encoding(request(second).len() as u64) + request(second) + more;
            let (asked, begun) = input_received(st, one + two, now);
            let (ended, queue) = answered(asked, Ok(credit), later);
            let (after, outcome) = answered(ended, Ok(credit), later);
            &&& begun == Ok::<_, Reason>(Step::Call(first))
            &&& queue == Ok::<_, Reason>(Step::Call(StreamCall::<Seq<u8>>::QueueMaxStreams))
            &&& outcome == Ok::<_, Reason>(Step::Call(second))
            &&& after.input == more
            &&& after.max_data_pending == (st.max_data_pending || credit)
        }),
{
    let one = encoding(request(first).len() as u64) + request(first);
    let two = encoding(request(second).len() as u64) + request(second) + more;
    assert(request(first) + Seq::empty() =~= request(first));
    assert(request(second) + Seq::empty() =~= request(second));
    law_requests_reach_streams(st, first, Seq::empty(), two, now);
    let started = State { idle: st.idle.rearmed(now), ..st };
    let len = request(first).len() as usize;
    lemma_request_asked(started, first, Seq::empty(), len, now);
    let asked = State {
        record: Some((Seq::empty(), len)),
        input: two,
        streaming: true,
        ..started
    };
    assert(input_received(st, one + two, now).0 == asked);
    let credited = State { max_data_pending: st.max_data_pending || credit, ..asked };
    let ended = State { record: None, ..credited };
    assert(answered(asked, Ok(credit), later) == (
        ended,
        Ok::<_, Reason>(Step::Call(StreamCall::<Seq<u8>>::QueueMaxStreams)),
    ));
    law_record_round_trip(request(second), more, st.config.max_record_size.value());
    crate::proto::record::lemma_next_record_shortens(two, st.config.max_record_size.value());
    let again = State { input: more, idle: ended.idle.rearmed(later), ..ended };
    lemma_request_asked(again, second, Seq::empty(), request(second).len() as usize, later);
}

/// Processing goes on behind frames that ask nothing of the stream state machine: a ping in
/// front of a request is taken note of, and the request is still put.
pub proof fn law_frames_go_on(
    st: State,
    seq: VarInt,
    call: StreamCall<Seq<u8>>,
    rest: Seq<u8>,
    now: Instant,
)
    requires
        ready(st),
        requestable(call),
        seq.in_range(),
        st.greatest_ping_recv matches Some(greatest) ==> greatest < seq.value(),
    ensures
        ({
            let ping = encoding(0x348c_6752_9ef8_c7bd) + encoding(seq.value());
            let (after, outcome) = record_received(st, ping + (request(call) + rest), now);
            &&& outcome == Ok::<_, Reason>(Step::Call(call))
            &&& after.ping_responses == st.ping_responses.push(seq)
            &&& after.error is None
        }),
{
    let ping = encoding(0x348c_6752_9ef8_c7bd) + encoding(seq.value());
    let behind = request(call) + rest;
    let s = ping + behind;
    assert(s =~= encoding(0x348c_6752_9ef8_c7bd) + (encoding(seq.value()) + behind));
    lemma_frame(0x348c_6752_9ef8_c7bd, encoding(seq.value()) + behind);
    lemma_take_varint(seq.value(), behind);
    law_frame_progress(s);
    let started = State { idle: st.idle.rearmed(now), ..st };
    let next = State {
        greatest_ping_recv: Some(seq.value()),
        ping_responses: st.ping_responses.push(seq),
        ..started
    };
    lemma_request_asked(next, call, rest, s.len() as usize, now);
}

} // verus!
