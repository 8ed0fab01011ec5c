//! What holds of connections as a whole.

use crate::mux::codec::{
    fitting_reason, frame_at, frames_in, law_close_fits, law_datagram_round_trip,
    law_frame_progress, law_parameters_round_trip, law_ping_round_trip, law_record_round_trip,
    payload_of, Frame,
};
use crate::mux::connection::{local_parameters, Config};
use crate::mux::error::Error;
use crate::mux::parameters::{encodable, invalid, parameter_table, stream_parameters, Parameters};
use crate::mux::state::{
    closing, completed, datagram_sent, encoded, initial_state, issued, local_limit, pinged, polled,
    polled_streams, record_limit, record_received, run, Close, Control, Event, Issued, Phase, Poll,
    State, Step, StreamCall,
};
use crate::mux::DEFAULT_MAX_RECORD_SIZE;
use crate::proto::frame::ping_frame;
use crate::proto::record::record;
use crate::stream_id::Side;
use crate::streams::frame::{provoking_type, ApplicationClose, ConnectionClose};
use crate::streams::wire::{datagram_frame, datagram_size, named_type};
use crate::transport_parameters::lemma_written_len;
use crate::varint::{group_varint, VarInt, VARINT_BOUND};
use vstd::prelude::*;

verus! {

broadcast use group_varint;

/// A record of one frame holds that frame and nothing else.
pub proof fn lemma_lone_frame(payload: Seq<u8>, frame: Frame<Seq<u8>>)
    requires
        frame_at(payload) == Ok::<_, Error<Seq<char>>>((frame, Seq::<u8>::empty())),
    ensures
        frames_in(payload) == Ok::<_, Error<Seq<char>>>(seq![frame]),
{
    law_frame_progress(payload);
    assert(frames_in(Seq::<u8>::empty()) == Ok::<_, Error<Seq<char>>>(
        Seq::<Frame<Seq<u8>>>::empty(),
    ));
    assert(seq![frame] + Seq::<Frame<Seq<u8>>>::empty() =~= seq![frame]);
}

/// The parameters of an endpoint fit every record.
pub proof fn lemma_parameters_fit(p: Parameters, limit: usize)
    requires
        limit >= 200,
    ensures
        encoded(Control::<Seq<u8>>::Parameters(p), limit).len() <= limit,
        encoded(Control::<Seq<u8>>::Parameters(p), limit).len() <= 200,
{
    lemma_written_len(parameter_table(p));
}

/// The handshake succeeds: the first record of a new connection carries its parameters, and a
/// new peer that receives it learns exactly these, reports them, and grants streams their
/// limits.
pub proof fn law_handshake(id: u64, side: Side, p: Parameters, peer: State)
    requires
        encodable(p),
        invalid(p) is None,
        peer.phase != Phase::Closed,
        peer.peer is None,
        peer.pending.len() == 0,
        local_limit(peer) >= DEFAULT_MAX_RECORD_SIZE,
    ensures
        polled(initial_state(id, side, p)).1 matches Ok(Poll::Record(t)) && {
            let (after, outcome) = record_received(peer, t.bytes);
            &&& outcome == Ok::<_, Error<Seq<char>>>(
                Step::Call(StreamCall::<Seq<u8>>::SetPeerParameters(stream_parameters(p))),
            )
            &&& after.peer == Some(p)
            &&& after.events == peer.events.push(Event::PeerParameters(p))
            &&& after.pending.len() == 0
        },
{
    let st = initial_state(id, side, p);
    let payload = encoded(st.urgent[0], record_limit(st));
    lemma_parameters_fit(p, record_limit(st));
    law_record_round_trip(payload);
    law_parameters_round_trip(p, Seq::empty());
    assert(payload + Seq::empty() =~= payload);
    lemma_lone_frame(payload, Frame::Parameters(p));
}

/// Whether a configuration can be announced: every limit can be encoded, records of the default
/// size are accepted, and no more streams are permitted than can be numbered.
pub open spec fn announceable(c: Config) -> bool {
    &&& c.max_remote_bidi.value() <= 0x1000_0000_0000_0000
    &&& c.max_remote_uni.value() <= 0x1000_0000_0000_0000
    &&& c.receive_window.in_range()
    &&& c.stream_receive_window.in_range()
    &&& c.max_idle_timeout.in_range()
    &&& 16382 <= c.max_record_size.value()
    &&& c.max_record_size.in_range()
    &&& c.max_datagram_frame_size.in_range()
}

/// A peer is granted exactly what an endpoint is configured with: the first record of a new
/// connection makes the stream state machine of its peer start with the receive window as the data
/// that may be sent on the connection, with the stream receive window as the data that may be sent
/// on each kind of stream, and with as many streams of each direction as are permitted. The peer
/// also learns the timeout and the limits on records and datagrams, of which no frame exceeds a
/// record, and reports all of it to its application.
pub proof fn law_configuration_granted(id: u64, side: Side, config: Config, peer: State)
    requires
        announceable(config),
        peer.phase != Phase::Closed,
        peer.peer is None,
        peer.pending.len() == 0,
        local_limit(peer) >= DEFAULT_MAX_RECORD_SIZE,
    ensures
        polled(initial_state(id, side, local_parameters(config))).1 matches Ok(Poll::Record(t)) && {
            let (after, outcome) = record_received(peer, t.bytes);
            &&& outcome matches Ok(Step::Call(StreamCall::SetPeerParameters(granted)))
            &&& granted.initial_max_data == config.receive_window
            &&& granted.initial_max_stream_data_bidi_local == config.stream_receive_window
            &&& granted.initial_max_stream_data_bidi_remote == config.stream_receive_window
            &&& granted.initial_max_stream_data_uni == config.stream_receive_window
            &&& granted.initial_max_streams_bidi == config.max_remote_bidi
            &&& granted.initial_max_streams_uni == config.max_remote_uni
            &&& after.peer matches Some(p)
            &&& p.initial_max_data == config.receive_window
            &&& p.initial_max_stream_data_bidi_local == config.stream_receive_window
            &&& p.initial_max_stream_data_bidi_remote == config.stream_receive_window
            &&& p.initial_max_stream_data_uni == config.stream_receive_window
            &&& p.initial_max_streams_bidi == config.max_remote_bidi
            &&& p.initial_max_streams_uni == config.max_remote_uni
            &&& p.max_idle_timeout == config.max_idle_timeout
            &&& p.max_record_size == config.max_record_size
            &&& config.max_datagram_frame_size.value() <= config.max_record_size.value()
                ==> p.max_datagram_frame_size == config.max_datagram_frame_size
            &&& config.max_datagram_frame_size.value() > config.max_record_size.value()
                ==> p.max_datagram_frame_size == config.max_record_size
            &&& after.events == peer.events.push(Event::PeerParameters(p))
        },
{
    law_handshake(id, side, local_parameters(config), peer);
}

/// The parameters stay the first frame sent even where the connection is closed before its
/// first record; the close follows, and then nothing.
pub proof fn law_close_before_first_record(
    id: u64,
    side: Side,
    p: Parameters,
    close: Close<Seq<u8>>,
)
    ensures
        ({
            let st = closing(initial_state(id, side, p), close);
            let first = polled(st).0;
            let second = polled(first).0;
            &&& polled(st).1 matches Ok(Poll::Record(t))
            &&& t.bytes == record(encoded(Control::<Seq<u8>>::Parameters(p), record_limit(st)))
            &&& !t.closes
            &&& polled(first).1 matches Ok(Poll::Record(t2))
            &&& t2.bytes == record(encoded(Control::Close(close), record_limit(st)))
            &&& t2.closes
            &&& polled(second).1 matches Ok(Poll::Idle)
        }),
{
    let st = closing(initial_state(id, side, p), close);
    lemma_parameters_fit(p, record_limit(st));
    lemma_close_fits(close, record_limit(st));
    assert(polled(st).0.urgent =~= seq![Control::Close(close)]);
    assert(polled(polled(st).0).0.urgent =~= Seq::empty());
}

/// A close fits every record that a peer may ask for.
pub proof fn lemma_close_fits(close: Close<Seq<u8>>, limit: usize)
    requires
        limit >= 32,
    ensures
        encoded(Control::Close(close), limit).len() <= limit,
{
    match close {
        Close::Transport(c) => law_close_fits(c.error_code, c, limit),
        Close::Application(c) => law_close_fits(
            c.error_code,
            ConnectionClose { error_code: c.error_code, frame_type: None, reason: c.reason },
            limit,
        ),
    }
}

/// What a peer is told by a close, as it learns it: the reason may be cut, and type zero
/// stands for no type.
pub open spec fn told(close: Close<Seq<u8>>, limit: usize) -> Close<Seq<u8>> {
    match close {
        Close::Transport(c) => Close::Transport(
            ConnectionClose {
                error_code: c.error_code,
                frame_type: provoking_type(named_type(c.frame_type)),
                reason: fitting_reason(c.reason, limit, 4),
            },
        ),
        Close::Application(c) => Close::Application(
            ApplicationClose { error_code: c.error_code, reason: fitting_reason(c.reason, limit, 3) },
        ),
    }
}

/// A close reaches the peer: once the record with it arrives there, that connection is closed
/// and reports the close; and once it was written here, this connection is closed too.
pub proof fn law_close_reaches_peer(st: State, peer: State, close: Close<Seq<u8>>)
    requires
        st.phase == Phase::Closing,
        st.urgent == seq![Control::Close(close)],
        st.next_transmit < u64::MAX,
        st.next_completion == st.next_transmit,
        DEFAULT_MAX_RECORD_SIZE <= record_limit(st) < VARINT_BOUND,
        peer.phase != Phase::Closed,
        peer.peer is Some,
        peer.pending.len() == 0,
        local_limit(peer) >= record_limit(st),
        match close {
            Close::Transport(c) => c.error_code.value() < VARINT_BOUND && named_type(
                c.frame_type,
            ).value() < VARINT_BOUND,
            Close::Application(c) => c.error_code.value() < VARINT_BOUND,
        },
    ensures
        polled(st).1 matches Ok(Poll::Record(t)) && {
            let (after, outcome) = record_received(peer, t.bytes);
            let (done, r) = completed(polled(st).0, t);
            &&& outcome == Ok::<_, Error<Seq<char>>>(Step::<Seq<u8>>::Done)
            &&& after.phase == Phase::Closed
            &&& after.events == peer.events.push(Event::Closed(told(close, record_limit(st))))
            &&& r is Ok
            &&& done.phase == Phase::Closed
        },
{
    let limit = record_limit(st);
    let payload = encoded(Control::Close(close), limit);
    lemma_close_fits(close, limit);
    law_record_round_trip(payload);
    assert(payload + Seq::empty() =~= payload);
    reveal_with_fuel(run, 2);
    match close {
        Close::Transport(c) => {
            let cut = ConnectionClose { reason: fitting_reason(c.reason, limit, 4), ..c };
            crate::streams::wire::law_connection_close_round_trip(cut, Seq::empty());
            let frame = Frame::ConnectionClose(
                ConnectionClose { frame_type: provoking_type(named_type(c.frame_type)), ..cut },
            );
            lemma_lone_frame(payload, frame);
            assert(told(close, limit) == Close::Transport(
                ConnectionClose { frame_type: provoking_type(named_type(c.frame_type)), ..cut },
            ));
        },
        Close::Application(c) => {
            let reason = fitting_reason(c.reason, limit, 3);
            crate::streams::wire::law_application_close_round_trip(
                c.error_code,
                reason,
                Seq::empty(),
            );
            lemma_lone_frame(
                payload,
                Frame::ApplicationClose(ApplicationClose { error_code: c.error_code, reason }),
            );
        },
    }
}

/// A closed connection ignores records, has nothing to send and takes nothing to send.
pub proof fn law_closed_is_quiet(
    st: State,
    s: Seq<u8>,
    sequence: VarInt,
    close: Close<Seq<u8>>,
)
    requires
        st.phase == Phase::Closed,
    ensures
        record_received(st, s) == (st, Ok::<Step<Seq<u8>>, Error<Seq<char>>>(Step::Done)),
        polled(st) == (st, Ok::<Poll<Issued>, Error<Seq<char>>>(Poll::Idle)),
        pinged(st, sequence) == (st, Err::<(), Error<Seq<char>>>(Error::ConnectionClosed)),
        datagram_sent(st, s) == (st, Err::<(), Error<Seq<char>>>(Error::ConnectionClosed)),
        closing(st, close) == st,
{
}

/// Ping requests that are accepted for sending strictly increase, and all others are refused.
pub proof fn law_ping_increases(st: State, first: VarInt, second: VarInt)
    requires
        pinged(st, first).1 is Ok,
    ensures
        pinged(pinged(st, first).0, second).1 is Ok <==> second.value() > first.value(),
        second.value() <= first.value() ==> pinged(pinged(st, first).0, second).1 == Err::<
            (),
            Error<Seq<char>>,
        >(Error::PingSequence),
{
}

/// An open connection after its handshake that has nothing to send and nothing to process.
pub open spec fn idle(st: State) -> bool {
    &&& st.phase == Phase::Open
    &&& st.peer is Some
    &&& st.urgent.len() == 0
    &&& st.auxiliary.len() == 0
    &&& st.pending.len() == 0
    &&& st.next_transmit < u64::MAX
}

/// Each of two endpoints knows what the other announced, which is valid.
pub open spec fn connected(st: State, peer: State) -> bool {
    &&& st.peer == Some(peer.local)
    &&& peer.peer == Some(st.local)
    &&& invalid(st.local) is None
    &&& invalid(peer.local) is None
    &&& st.local.max_record_size.value() < VARINT_BOUND
    &&& peer.local.max_record_size.value() < VARINT_BOUND
}

/// A ping is answered: the record with the request makes a peer that saw only earlier requests
/// answer at once, and the record with the answer is accepted and reported here.
pub proof fn law_ping_answered(st: State, peer: State, sequence: VarInt)
    requires
        pinged(st, sequence).1 is Ok,
        idle(st),
        idle(peer),
        connected(st, peer),
        sequence.value() < VARINT_BOUND,
        peer.last_ping_received matches Some(previous) ==> previous.value() < sequence.value(),
    ensures
        ({
            let asked = pinged(st, sequence).0;
            let (sent, request) = polled_streams(asked, None);
            &&& polled(asked) == (
                asked,
                Ok::<Poll<Issued>, Error<Seq<char>>>(Poll::Streams { limit: record_limit(st) }),
            )
            &&& request matches Ok(Some(t))
            &&& record_received(peer, t.bytes).1 == Ok::<_, Error<Seq<char>>>(
                Step::<Seq<u8>>::Done,
            )
            &&& polled(record_received(peer, t.bytes).0).1 matches Ok(Poll::Record(answer))
            &&& record_received(sent, answer.bytes).1 == Ok::<_, Error<Seq<char>>>(
                Step::<Seq<u8>>::Done,
            )
            &&& record_received(sent, answer.bytes).0.events == st.events.push(
                Event::PingResponse(sequence),
            )
        }),
{
    let asked = pinged(st, sequence).0;
    let request = ping_frame(false, sequence);
    let answer = ping_frame(true, sequence);
    assert(asked.auxiliary =~= seq![Control::Ping { sequence, response: false }]);
    law_record_round_trip(request);
    law_record_round_trip(answer);
    law_ping_round_trip(sequence, false, Seq::empty());
    law_ping_round_trip(sequence, true, Seq::empty());
    assert(request + Seq::empty() =~= request);
    assert(answer + Seq::empty() =~= answer);
    lemma_lone_frame(request, Frame::Ping { sequence, response: false });
    lemma_lone_frame(answer, Frame::Ping { sequence, response: true });
    reveal_with_fuel(run, 2);
    let heard = record_received(peer, record(request)).0;
    assert(heard.urgent =~= seq![Control::Ping { sequence, response: true }]);
}

/// A datagram that is accepted for sending reaches the peer that announced the limits,
/// whatever the configuration of that peer: the record with it arrives there as one event.
pub proof fn law_datagram_reaches_peer(st: State, peer: State, config: Config, data: Seq<u8>)
    requires
        peer.local == local_parameters(config),
        datagram_sent(st, data).1 is Ok,
        idle(st),
        idle(peer),
        connected(st, peer),
        datagram_size(data.len()) <= usize::MAX,
    ensures
        ({
            let queued = datagram_sent(st, data).0;
            &&& polled_streams(queued, None).1 matches Ok(Some(t))
            &&& record_received(peer, t.bytes).1 == Ok::<_, Error<Seq<char>>>(
                Step::<Seq<u8>>::Done,
            )
            &&& record_received(peer, t.bytes).0.events == peer.events.push(Event::Datagram(data))
        }),
{
    let queued = datagram_sent(st, data).0;
    let payload = datagram_frame(data);
    assert(queued.auxiliary =~= seq![Control::Datagram(data)]);
    law_datagram_round_trip(data, Seq::empty());
    assert(payload + Seq::empty() =~= payload);
    law_record_round_trip(payload);
    lemma_lone_frame(
        payload,
        Frame::Datagram { data, frame_size: datagram_size(data.len()) as usize },
    );
    reveal_with_fuel(run, 2);
}

/// No endpoint announces datagram frames larger than its records.
pub proof fn law_datagram_size_capped(config: Config)
    ensures
        local_parameters(config).max_datagram_frame_size.value() <= local_parameters(
            config,
        ).max_record_size.value(),
{
}

/// The records of a connection are numbered in the order in which they are issued, and their
/// completions are accepted in that order only and by that connection only.
pub proof fn law_tokens_ordered(st: State, a: Seq<u8>, b: Seq<u8>, other: State)
    requires
        st.next_transmit < u64::MAX - 1,
        a.len() < VARINT_BOUND,
        b.len() < VARINT_BOUND,
        st.next_completion == st.next_transmit,
        other.id != st.id,
    ensures
        ({
            let (s1, r1) = issued(st, a, false);
            let (s2, r2) = issued(s1, b, false);
            &&& r1 matches Ok(first)
            &&& r2 matches Ok(second)
            &&& completed(s2, second) == (s2, Err::<(), Error<Seq<char>>>(Error::OutOfOrderTransmit))
            &&& completed(other, first) == (
                other,
                Err::<(), Error<Seq<char>>>(Error::WrongConnection),
            )
            &&& completed(s2, first).1 is Ok
            &&& completed(completed(s2, first).0, second).1 is Ok
        }),
{
}

/// A record with a malformed frame anywhere is refused as a whole: no event is reported and
/// the stream state machine is asked nothing.
pub proof fn law_malformed_record_has_no_effect(st: State, s: Seq<u8>, payload: Seq<u8>)
    requires
        st.phase != Phase::Closed,
        payload_of(s) == Ok::<Seq<u8>, Error<Seq<char>>>(payload),
        frames_in(payload) is Err,
    ensures
        record_received(st, s).1 is Err,
        record_received(st, s).0.events == st.events,
        record_received(st, s).0.peer == st.peer,
{
}

} // verus!
