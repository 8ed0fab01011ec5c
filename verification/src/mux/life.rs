//! What holds of a connection over its life, whatever is called on it and in whatever order.

use crate::mux::codec::{frames_in, payload_of};
use crate::mux::error::{close_for, Error};
use crate::mux::laws::{lemma_close_fits, lemma_parameters_fit};
use crate::mux::parameters::Parameters;
use crate::mux::state::{
    answered, closing, completed, datagram_sent, encoded, initial_state, on_frame, pinged, polled,
    polled_streams, record_limit, record_received, run, valid, Close, Control, Event, Issued,
    Phase, Poll, State,
};
use crate::mux::valid::{
    law_receiving_keeps_valid, law_sending_keeps_valid, lemma_closing_valid, lemma_rest_valid,
    lemma_started_valid,
};
use crate::mux::DEFAULT_MAX_RECORD_SIZE;
use crate::proto::record::record;
use crate::stream_id::Side;
use crate::streams::event::StreamEvent;
use crate::transport_error::TransportError;
use crate::varint::{group_varint, VarInt, VARINT_BOUND};
use vstd::prelude::*;

verus! {

broadcast use group_varint;

/// A call on a connection.
pub enum Operation {
    /// A record arrives.
    Received(Seq<u8>),
    /// The stream state machine answers a call.
    Resume(Result<Seq<StreamEvent>, TransportError<Seq<char>>>),
    /// The application sends a ping.
    Ping(VarInt),
    /// The application sends a datagram.
    SendDatagram(Seq<u8>),
    /// The application closes the connection.
    Close(Close<Seq<u8>>),
    /// A record is asked for; what the stream state machine has to send is given in case it is
    /// asked for that.
    PollTransmit(Option<Seq<u8>>),
    /// A record was written.
    Transmitted(Issued),
    /// The application takes an event.
    TakeEvent,
}

/// A record that was issued.
pub struct Sent {
    /// The record.
    pub record: Issued,
    /// The frame that makes up the record, unless it comes from the stream state machine.
    pub frame: Option<Control<Seq<u8>>>,
    /// Its payload.
    pub payload: Seq<u8>,
    /// Most octets that the record may hold.
    pub limit: usize,
    /// What the peer had announced by then.
    pub peer: Option<Parameters>,
}

/// Most octets that a peer accepts in a record, given what it announced, as far as they can be
/// addressed at all.
pub open spec fn accepted_size(peer: Option<Parameters>) -> int {
    let max = match peer {
        Some(p) => p.max_record_size.value(),
        None => DEFAULT_MAX_RECORD_SIZE,
    };
    if max <= usize::MAX {
        max as int
    } else {
        usize::MAX as int
    }
}

/// Whether a call may be made.
pub open spec fn permitted(st: State, op: Operation) -> bool {
    op is PollTransmit ==> st.next_transmit < u64::MAX
}

/// The connection after a call.
pub open spec fn performed(st: State, op: Operation) -> State {
    match op {
        Operation::Received(s) => record_received(st, s).0,
        Operation::Resume(answer) => answered(st, answer).0,
        Operation::Ping(sequence) => pinged(st, sequence).0,
        Operation::SendDatagram(data) => datagram_sent(st, data).0,
        Operation::Close(close) => closing(st, close),
        Operation::PollTransmit(streams) => if polled(st).1 matches Ok(Poll::Streams { .. }) {
            polled_streams(polled(st).0, streams).0
        } else {
            polled(st).0
        },
        Operation::Transmitted(t) => completed(st, t).0,
        Operation::TakeEvent => State {
            events: if st.events.len() > 0 {
                st.events.skip(1)
            } else {
                st.events
            },
            ..st
        },
    }
}

/// The record that a call issues, if it issues one.
pub open spec fn issued_by(st: State, op: Operation) -> Option<Sent> {
    match op {
        Operation::PollTransmit(streams) => match polled(st).1 {
            Ok(Poll::Record(t)) => Some(
                Sent {
                    record: t,
                    frame: Some(st.urgent[0]),
                    payload: encoded(st.urgent[0], record_limit(st)),
                    limit: record_limit(st),
                    peer: st.peer,
                },
            ),
            Ok(Poll::Streams { limit }) => match polled_streams(polled(st).0, streams).1 {
                Ok(Some(t)) => Some(
                    match streams {
                        Some(payload) => Sent {
                            record: t,
                            frame: None,
                            payload,
                            limit,
                            peer: st.peer,
                        },
                        None => Sent {
                            record: t,
                            frame: Some(st.auxiliary[0]),
                            payload: encoded(st.auxiliary[0], limit),
                            limit,
                            peer: st.peer,
                        },
                    },
                ),
                _ => None,
            },
            _ => None,
        },
        _ => None,
    }
}

/// The connection after the given calls, and what was issued by then.
pub open spec fn lived(st: State, ops: Seq<Operation>) -> (State, Seq<Sent>)
    decreases ops.len(),
{
    if ops.len() == 0 {
        (st, Seq::empty())
    } else {
        let (before, sent) = lived(st, ops.drop_last());
        (
            performed(before, ops.last()),
            match issued_by(before, ops.last()) {
                Some(s) => sent.push(s),
                None => sent,
            },
        )
    }
}

/// Whether each of the given calls may be made when its turn comes.
pub open spec fn all_permitted(st: State, ops: Seq<Operation>) -> bool
    decreases ops.len(),
{
    ops.len() == 0 || (all_permitted(st, ops.drop_last()) && permitted(
        lived(st, ops.drop_last()).0,
        ops.last(),
    ))
}

/// Whether a record is as it should be at place `i` of those issued by an endpoint that
/// announces `local`.
pub open spec fn well_issued(local: Parameters, sent: Sent, i: int) -> bool {
    &&& sent.record.bytes == record(sent.payload)
    &&& sent.payload.len() < VARINT_BOUND
    &&& sent.frame matches Some(c) ==> sent.payload == encoded(c, sent.limit) && sent.payload.len()
        <= sent.limit
    &&& i == 0 ==> sent.frame == Some(Control::<Seq<u8>>::Parameters(local))
    &&& i > 0 ==> !(sent.frame matches Some(Control::Parameters(_)))
}

proof fn lemma_run_issues_nothing(st: State)
    ensures
        run(st).0.next_transmit == st.next_transmit,
        run(st).0.local == st.local,
    decreases st.pending.len(),
{
    if st.pending.len() > 0 {
        let rest = State { pending: st.pending.skip(1), ..st };
        if let Ok((next, None)) = on_frame(rest, st.pending[0]) {
            if next.pending.len() < st.pending.len() {
                lemma_run_issues_nothing(next);
            }
        }
    }
}

proof fn lemma_receiving_issues_nothing(
    st: State,
    s: Seq<u8>,
    answer: Result<Seq<StreamEvent>, TransportError<Seq<char>>>,
)
    ensures
        record_received(st, s).0.next_transmit == st.next_transmit,
        record_received(st, s).0.local == st.local,
        answered(st, answer).0.next_transmit == st.next_transmit,
        answered(st, answer).0.local == st.local,
{
    if let Ok(payload) = payload_of(s) {
        if let Ok(frames) = frames_in(payload) {
            lemma_run_issues_nothing(
                State { pending: frames, allocation_size: payload.len() as usize, ..st },
            );
        }
    }
    if let Ok(events) = answer {
        lemma_run_issues_nothing(
            State {
                events: st.events + events.map_values(|e: StreamEvent| Event::Stream(e)),
                ..st
            },
        );
    }
}

/// A call keeps what is valid and what is announced, numbers records one by one, and issues
/// well-formed ones, the first of which holds the parameters.
proof fn lemma_performed(st: State, op: Operation)
    requires
        valid(st),
        permitted(st, op),
    ensures
        valid(performed(st, op)),
        performed(st, op).local == st.local,
        performed(st, op).next_transmit >= st.next_transmit,
        st.next_transmit == 0 && issued_by(st, op) is None ==> performed(st, op).next_transmit == 0,
        issued_by(st, op) matches Some(s) ==> performed(st, op).next_transmit > 0 && well_issued(
            st.local,
            s,
            st.next_transmit as int,
        ),
{
    match op {
        Operation::Received(s) => {
            law_receiving_keeps_valid(st, s, Ok(Seq::empty()));
            lemma_receiving_issues_nothing(st, s, Ok(Seq::empty()));
        },
        Operation::Resume(answer) => {
            law_receiving_keeps_valid(st, Seq::empty(), answer);
            lemma_receiving_issues_nothing(st, Seq::empty(), answer);
        },
        Operation::Close(close) => lemma_closing_valid(st, close),
        Operation::PollTransmit(streams) => {
            law_sending_keeps_valid(st, streams);
            lemma_parameters_fit(st.local, record_limit(st));
        },
        _ => {},
    }
}

proof fn lemma_lived(st: State, ops: Seq<Operation>)
    requires
        valid(st),
        st.next_transmit == 0,
        all_permitted(st, ops),
    ensures
        ({
            let (after, sent) = lived(st, ops);
            &&& valid(after)
            &&& after.local == st.local
            &&& after.next_transmit == 0 <==> sent.len() == 0
            &&& forall|i: int| 0 <= i < sent.len() ==> well_issued(st.local, #[trigger] sent[i], i)
        }),
    decreases ops.len(),
{
    if ops.len() > 0 {
        lemma_lived(st, ops.drop_last());
        let (before, sent) = lived(st, ops.drop_last());
        lemma_performed(before, ops.last());
    }
}

/// Over the life of a connection, whatever is called on it, the first record that it issues
/// holds exactly its parameters and no later one holds parameters; every record is a payload
/// prefixed with its size, and what does not come from the stream state machine takes no more
/// than the peer accepts.
pub proof fn law_records_of_a_life(id: u64, side: Side, local: Parameters, ops: Seq<Operation>)
    requires
        all_permitted(initial_state(id, side, local), ops),
    ensures
        valid(lived(initial_state(id, side, local), ops).0),
        forall|i: int|
            0 <= i < lived(initial_state(id, side, local), ops).1.len() ==> well_issued(
                local,
                #[trigger] lived(initial_state(id, side, local), ops).1[i],
                i,
            ),
{
    lemma_lived(initial_state(id, side, local), ops);
}

/// Whether the stream state machine keeps to the limit that it is asked with.
pub open spec fn disciplined(st: State, op: Operation) -> bool {
    op matches Operation::PollTransmit(Some(payload)) ==> (polled(st).1 matches Ok(
        Poll::Streams { limit },
    ) ==> payload.len() <= limit)
}

/// Whether the stream state machine keeps to its limit in each of the calls.
pub open spec fn all_disciplined(st: State, ops: Seq<Operation>) -> bool
    decreases ops.len(),
{
    ops.len() == 0 || (all_disciplined(st, ops.drop_last()) && disciplined(
        lived(st, ops.drop_last()).0,
        ops.last(),
    ))
}

proof fn lemma_lived_within(st: State, ops: Seq<Operation>)
    requires
        all_disciplined(st, ops),
    ensures
        forall|i: int|
            0 <= i < lived(st, ops).1.len() ==> (#[trigger] lived(st, ops).1[i]).payload.len()
                <= lived(st, ops).1[i].limit,
        forall|i: int|
            0 <= i < lived(st, ops).1.len() ==> (#[trigger] lived(st, ops).1[i]).limit
                == accepted_size(lived(st, ops).1[i].peer),
    decreases ops.len(),
{
    if ops.len() > 0 {
        lemma_lived_within(st, ops.drop_last());
    }
}

/// Where the stream state machine keeps to the limit that it is asked with, every record that a
/// connection issues over its life takes no more than the peer accepts: what it announced, and
/// the default until it did.
pub proof fn law_records_within_limit(id: u64, side: Side, local: Parameters, ops: Seq<Operation>)
    requires
        all_permitted(initial_state(id, side, local), ops),
        all_disciplined(initial_state(id, side, local), ops),
    ensures
        forall|i: int|
            0 <= i < lived(initial_state(id, side, local), ops).1.len() ==> {
                let sent = #[trigger] lived(initial_state(id, side, local), ops).1[i];
                &&& sent.record.bytes == record(sent.payload)
                &&& sent.payload.len() <= accepted_size(sent.peer)
            },
{
    lemma_lived_within(initial_state(id, side, local), ops);
    lemma_lived(initial_state(id, side, local), ops);
}

/// Whether polling issues a record of exactly the given frame.
pub open spec fn issues(st: State, frame: Control<Seq<u8>>) -> bool {
    polled(st).1 matches Ok(Poll::Record(t)) && t.bytes == record(encoded(frame, record_limit(st)))
        && t.closes == (frame is Close)
}

/// Whether a connection takes nothing to send any more.
pub open spec fn takes_nothing(st: State, sequence: VarInt, data: Seq<u8>) -> bool {
    &&& pinged(st, sequence) == (st, Err::<(), Error<Seq<char>>>(Error::ConnectionClosed))
    &&& datagram_sent(st, data) == (st, Err::<(), Error<Seq<char>>>(Error::ConnectionClosed))
}

/// Whether a connection is on its way to its end because of `e`: what it issues is its
/// parameters where they were not issued yet, one close that says why, and nothing after that,
/// and it takes nothing to send all the while.
pub open spec fn ends_with_close(
    st: State,
    e: Error<Seq<char>>,
    unsent: bool,
    sequence: VarInt,
    data: Seq<u8>,
) -> bool {
    let told = if unsent {
        polled(st).0
    } else {
        st
    };
    let silent = polled(told).0;
    &&& st.phase == Phase::Closing
    &&& unsent ==> issues(st, Control::Parameters(st.local))
    &&& issues(told, Control::Close(Close::Transport(close_for(e))))
    &&& polled(silent) == (silent, Ok::<Poll<Issued>, Error<Seq<char>>>(Poll::Idle))
    &&& takes_nothing(st, sequence, data)
    &&& takes_nothing(told, sequence, data)
    &&& takes_nothing(silent, sequence, data)
}

proof fn lemma_ends_with_close(
    st: State,
    e: Error<Seq<char>>,
    sequence: VarInt,
    data: Seq<u8>,
)
    requires
        valid(st),
        st.phase == Phase::Open,
    ensures
        ends_with_close(
            closing(State { pending: Seq::empty(), ..st }, Close::Transport(close_for(e))),
            e,
            st.next_transmit == 0,
            sequence,
            data,
        ),
{
    let close = Close::Transport(close_for(e));
    let after = closing(State { pending: Seq::empty(), ..st }, close);
    lemma_parameters_fit(st.local, record_limit(st));
    lemma_close_fits(close, record_limit(st));
    if st.next_transmit == 0 {
        assert(polled(after).0.urgent =~= seq![Control::Close(close)]);
        assert(polled(polled(after).0).0.urgent =~= Seq::empty());
    } else {
        assert(after.urgent =~= seq![Control::Close(close)]);
        assert(polled(after).0.urgent =~= Seq::empty());
    }
}

/// Where frames are refused, they are in a state that is as valid and open as the first.
proof fn lemma_run_refused(st: State, sequence: VarInt, data: Seq<u8>)
    requires
        valid(st),
        st.phase == Phase::Open,
    ensures
        run(st).1 matches Err(e) ==> ends_with_close(
            run(st).0,
            e,
            st.next_transmit == 0,
            sequence,
            data,
        ),
    decreases st.pending.len(),
{
    if st.pending.len() > 0 {
        let rest = State { pending: st.pending.skip(1), ..st };
        lemma_rest_valid(st);
        match on_frame(rest, st.pending[0]) {
            Err(e) => lemma_ends_with_close(st, e, sequence, data),
            Ok((next, None)) => {
                if next.pending.len() < st.pending.len() && next.phase == Phase::Open {
                    lemma_run_refused(next, sequence, data);
                }
            },
            _ => {},
        }
    }
}

/// Refusing a record, or what the stream state machine finds wrong with one, closes an open
/// connection: the peer is told why exactly once, behind the parameters where these were not
/// sent yet; nothing is sent after that, and nothing to send is taken from then on.
pub proof fn law_refusal_closes(
    st: State,
    s: Seq<u8>,
    answer: Result<Seq<StreamEvent>, TransportError<Seq<char>>>,
    sequence: VarInt,
    data: Seq<u8>,
)
    requires
        valid(st),
        st.phase == Phase::Open,
    ensures
        record_received(st, s).1 matches Err(e) ==> ends_with_close(
            record_received(st, s).0,
            e,
            st.next_transmit == 0,
            sequence,
            data,
        ),
        answered(st, answer).1 matches Err(e) ==> ends_with_close(
            answered(st, answer).0,
            e,
            st.next_transmit == 0,
            sequence,
            data,
        ),
{
    if let Err(e) = record_received(st, s).1 {
        lemma_ends_with_close(st, e, sequence, data);
    }
    if let Ok(payload) = payload_of(s) {
        lemma_started_valid(st, payload, payload.len() as usize);
        if let Ok(frames) = frames_in(payload) {
            lemma_run_refused(
                State { pending: frames, allocation_size: payload.len() as usize, ..st },
                sequence,
                data,
            );
        }
    }
    match answer {
        Ok(events) => lemma_run_refused(
            State {
                events: st.events + events.map_values(|e: StreamEvent| Event::Stream(e)),
                ..st
            },
            sequence,
            data,
        ),
        Err(e) => lemma_ends_with_close(st, Error::Protocol(e), sequence, data),
    }
}

} // verus!
