//! What holds of a connection over its life, whatever is called on it and in whatever order.

use crate::config::Config;
use crate::proto::event::{ConnectionError, Reason};
use crate::proto::frame::{
    close_frame, law_close_round_trip, law_datagram_round_trip, law_frame_progress,
    law_ping_round_trip, law_transport_parameters_round_trip, next_frame, ping_frame, Close, Frame,
};
use crate::proto::laws::{
    law_parameters_first, law_record_within_budget, law_violation_reported, lemma_control_frames,
    lemma_hello_len, violation_close,
};
use crate::proto::params::table;
use crate::proto::record::next_record;
use crate::proto::state::{
    answered, closed, completed, datagram_sent, encodable_close, fit_datagrams, fit_responses,
    hello, initial_state, input_received, local_params, lost, on_frame, pings, record_budget,
    record_received, run, run_frames, run_input, sendable, timeout_handled, transmission, valid,
    State, Step, Transmission,
};
use crate::proto::valid::{
    law_datagram_keeps_valid, law_receiving_keeps_valid, law_sending_keeps_valid,
};
use crate::stream_id::Side;
use crate::streams::wire::datagram_frame;
use crate::time::Instant;
use crate::transport_error::TransportError;
use crate::transport_parameters::{lemma_written_len, written};
use crate::varint::{group_varint, VarInt, VARINT_BOUND};
use vstd::prelude::*;

verus! {

broadcast use group_varint;

/// A call on a connection.
pub enum Operation {
    /// Octets arrive.
    Input {
        /// The octets.
        data: Seq<u8>,
        /// When they do.
        now: Instant,
    },
    /// A record arrives.
    Record {
        /// Its frames.
        payload: Seq<u8>,
        /// When it does.
        now: Instant,
    },
    /// The stream state machine answers a call.
    Resume {
        /// Its answer.
        answer: Result<bool, TransportError<Seq<char>>>,
        /// When it does.
        now: Instant,
    },
    /// The transport failed or reached its end.
    TransportClosed,
    /// The application closes the connection.
    Close {
        /// Its error code.
        error_code: VarInt,
        /// Its reason.
        reason: Seq<u8>,
    },
    /// A record is asked for.
    Transmit {
        /// What the stream state machine adds to a record that is open to it.
        streams: Seq<u8>,
        /// When it is.
        now: Instant,
    },
    /// The timeouts are looked at.
    Timeout {
        /// When they are.
        now: Instant,
    },
    /// The application sends a datagram.
    SendDatagram {
        /// The datagram.
        data: Seq<u8>,
    },
    /// The application takes an event.
    TakeEvent,
    /// The application takes a datagram.
    TakeDatagram,
}

/// The payload of a record that was sent.
pub struct Payload {
    /// What the connection itself put into it.
    pub own: Seq<u8>,
    /// What the stream state machine added.
    pub streams: Seq<u8>,
    /// Whether the connection had ended by then.
    pub ended: bool,
    /// Most octets that the peer takes in a record.
    pub budget: usize,
}

impl Payload {
    /// All of the payload.
    pub open spec fn whole(self) -> Seq<u8> {
        self.own + self.streams
    }
}

/// Whether a call may be made.
pub open spec fn permitted(st: State, op: Operation) -> bool {
    match op {
        Operation::Resume { answer, .. } => answer matches Err(e) ==> sendable(e),
        Operation::Close { error_code, reason } => error_code.in_range() && reason.len()
            < VARINT_BOUND,
        Operation::Transmit { .. } => st.ping_request_pending ==> st.next_ping_seq < VARINT_BOUND,
        _ => true,
    }
}

/// A transmission after the stream state machine added its frames where it may.
pub open spec fn filled(t: Transmission<Seq<u8>>, streams: Seq<u8>) -> Transmission<Seq<u8>> {
    match t {
        Transmission::Open { frames, budget, max_data } => Transmission::Open {
            frames: frames + streams,
            budget,
            max_data,
        },
        _ => t,
    }
}

/// The connection after a call.
pub open spec fn performed(st: State, op: Operation) -> State {
    match op {
        Operation::Input { data, now } => input_received(st, data, now).0,
        Operation::Record { payload, now } => record_received(st, payload, now).0,
        Operation::Resume { answer, now } => answered(st, answer, now).0,
        Operation::TransportClosed => lost(st, ConnectionError::TransportClosed),
        Operation::Close { error_code, reason } => closed(st, error_code, reason),
        Operation::Transmit { streams, now } => {
            let (next, t) = transmission(st, now);
            completed(next, filled(t, streams), now).0
        },
        Operation::Timeout { now } => timeout_handled(st, now),
        Operation::SendDatagram { data } => datagram_sent(st, data).0,
        Operation::TakeEvent => State {
            events: if st.events.len() > 0 {
                st.events.skip(1)
            } else {
                st.events
            },
            ..st
        },
        Operation::TakeDatagram => State {
            datagram_recv: if st.datagram_recv.len() > 0 {
                st.datagram_recv.skip(1)
            } else {
                st.datagram_recv
            },
            ..st
        },
    }
}

/// The payload that a call sends, if it sends one.
pub open spec fn payload(st: State, op: Operation) -> Option<Payload> {
    match op {
        Operation::Transmit { streams, now } => match transmission(st, now).1 {
            Transmission::Nothing => None,
            Transmission::Record(frames) => Some(
                Payload {
                    own: frames,
                    streams: Seq::empty(),
                    ended: true,
                    budget: record_budget(st),
                },
            ),
            Transmission::Open { frames, budget, .. } => if (frames + streams).len() == 0 {
                None
            } else {
                Some(Payload { own: frames, streams, ended: false, budget })
            },
        },
        _ => None,
    }
}

/// The connection after the given calls, and what was sent by then.
pub open spec fn lived(st: State, ops: Seq<Operation>) -> (State, Seq<Payload>)
    decreases ops.len(),
{
    if ops.len() == 0 {
        (st, Seq::empty())
    } else {
        let (before, sent) = lived(st, ops.drop_last());
        (
            performed(before, ops.last()),
            match payload(before, ops.last()) {
                Some(p) => sent.push(p),
                None => sent,
            },
        )
    }
}

/// Whether each of the given calls may be made when its turn comes.
pub open spec fn all_permitted(st: State, ops: Seq<Operation>) -> bool
    decreases ops.len(),
{
    ops.len() == 0 || (all_permitted(st, ops.drop_last()) && permitted(
        lived(st, ops.drop_last()).0,
        ops.last(),
    ))
}

/// Whether a QX_TRANSPORT_PARAMETERS frame is among the frames in `s`.
pub open spec fn holds_parameters(s: Seq<u8>) -> bool
    decreases s.len(),
{
    match next_frame(s) {
        Ok(Some((frame, rest))) => frame is TransportParameters || (rest.len() < s.len()
            && holds_parameters(rest)),
        _ => false,
    }
}

/// Frames that are no transport parameters, whatever follows them.
spec fn free(s: Seq<u8>) -> bool {
    forall|rest: Seq<u8>| #[trigger] holds_parameters(s + rest) == holds_parameters(rest)
}

proof fn lemma_free_empty()
    ensures
        free(Seq::empty()),
{
    assert forall|rest: Seq<u8>| #[trigger] holds_parameters(Seq::<u8>::empty() + rest)
        == holds_parameters(rest) by {
        assert(Seq::<u8>::empty() + rest =~= rest);
    }
}

proof fn lemma_free_append(a: Seq<u8>, b: Seq<u8>)
    requires
        free(a),
        free(b),
    ensures
        free(a + b),
{
    assert forall|rest: Seq<u8>| #[trigger] holds_parameters((a + b) + rest) == holds_parameters(
        rest,
    ) by {
        assert((a + b) + rest =~= a + (b + rest));
        assert(holds_parameters(a + (b + rest)) == holds_parameters(b + rest));
    }
}

/// Whether what follows the first `n` octets is free of transport parameters.
spec fn free_after(n: int, s: Seq<u8>) -> bool {
    0 <= n <= s.len() && free(s.skip(n))
}

proof fn lemma_free_after_append(n: int, a: Seq<u8>, b: Seq<u8>)
    requires
        free_after(n, a),
        free(b),
    ensures
        free_after(n, a + b),
{
    lemma_free_append(a.skip(n), b);
    assert((a + b).skip(n) =~= a.skip(n) + b);
}

proof fn lemma_free(s: Seq<u8>)
    requires
        free(s),
    ensures
        !holds_parameters(s),
{
    assert(s + Seq::empty() =~= s);
    assert(holds_parameters(s + Seq::empty()) == holds_parameters(Seq::empty()));
}

proof fn lemma_free_ping(response: bool, seq: VarInt)
    requires
        seq.in_range(),
    ensures
        free(ping_frame(response, seq)),
{
    let f = ping_frame(response, seq);
    assert forall|rest: Seq<u8>| #[trigger] holds_parameters(f + rest) == holds_parameters(rest) by {
        law_ping_round_trip(response, seq, rest);
        law_frame_progress(f + rest);
    }
}

proof fn lemma_free_datagram(data: Seq<u8>)
    requires
        data.len() < VARINT_BOUND,
    ensures
        free(datagram_frame(data)),
{
    let f = datagram_frame(data);
    assert forall|rest: Seq<u8>| #[trigger] holds_parameters(f + rest) == holds_parameters(rest) by {
        law_datagram_round_trip(data, rest);
        law_frame_progress(f + rest);
    }
}

proof fn lemma_free_close(close: Close<Seq<u8>>)
    requires
        encodable_close(close),
    ensures
        free(close_frame(close)),
{
    let f = close_frame(close);
    assert forall|rest: Seq<u8>| #[trigger] holds_parameters(f + rest) == holds_parameters(rest) by {
        law_close_round_trip(close, rest);
        law_frame_progress(f + rest);
    }
}

proof fn lemma_free_responses(n: int, buf: Seq<u8>, queue: Seq<VarInt>, budget: usize)
    requires
        free_after(n, buf),
        forall|i: int| 0 <= i < queue.len() ==> (#[trigger] queue[i]).in_range(),
    ensures
        free_after(n, fit_responses(buf, queue, budget).0),
    decreases queue.len(),
{
    if queue.len() > 0 {
        let f = ping_frame(true, queue[0]);
        lemma_free_ping(true, queue[0]);
        lemma_free_after_append(n, buf, f);
        assert forall|i: int| 0 <= i < queue.skip(1).len() implies (#[trigger] queue.skip(
            1,
        )[i]).in_range() by {
            assert(queue.skip(1)[i] == queue[i + 1]);
        }
        if buf.len() + f.len() <= budget {
            lemma_free_responses(n, buf + f, queue.skip(1), budget);
        }
    }
}

proof fn lemma_free_datagrams(n: int, buf: Seq<u8>, queue: Seq<Seq<u8>>, budget: usize)
    requires
        free_after(n, buf),
        forall|i: int| 0 <= i < queue.len() ==> (#[trigger] queue[i]).len() < VARINT_BOUND,
    ensures
        free_after(n, fit_datagrams(buf, queue, budget).0),
    decreases queue.len(),
{
    if queue.len() > 0 {
        let f = datagram_frame(queue[0]);
        lemma_free_datagram(queue[0]);
        lemma_free_after_append(n, buf, f);
        assert forall|i: int| 0 <= i < queue.skip(1).len() implies (#[trigger] queue.skip(
            1,
        )[i]).len() < VARINT_BOUND by {
            assert(queue.skip(1)[i] == queue[i + 1]);
        }
        if buf.len() + f.len() <= budget {
            lemma_free_datagrams(n, buf + f, queue.skip(1), budget);
        }
    }
}

/// What our transport parameters take at the front of the next record.
pub open spec fn hello_len(st: State) -> int {
    if st.params_sent {
        0
    } else {
        hello(st.config).len() as int
    }
}

/// The frames that an endpoint itself puts into a record, but for its transport parameters at
/// the front where they were not sent yet, are no transport parameters.
proof fn lemma_own_frames_free(st: State, now: Instant)
    requires
        valid(st),
        st.ping_request_pending ==> st.next_ping_seq < VARINT_BOUND,
    ensures
        match transmission(st, now).1 {
            Transmission::Nothing => true,
            Transmission::Record(frames) => free_after(hello_len(st), frames),
            Transmission::Open { frames, .. } => free_after(hello_len(st), frames),
        },
{
    let start = if st.params_sent {
        Seq::empty()
    } else {
        hello(st.config)
    };
    let n = hello_len(st);
    lemma_free_empty();
    assert(start.skip(n) =~= Seq::empty());
    if st.close_sent {
    } else if st.error is Some {
        if let Some(close) = st.close {
            lemma_free_close(close);
            lemma_free_after_append(n, start, close_frame(close));
        }
    } else {
        let budget = record_budget(st);
        lemma_free_responses(n, start, st.ping_responses, budget);
        let b1 = fit_responses(start, st.ping_responses, budget).0;
        let request = ping_frame(false, VarInt::of(st.next_ping_seq));
        let b2 = if pings(st, b1) {
            b1 + request
        } else {
            b1
        };
        if pings(st, b1) {
            lemma_free_ping(false, VarInt::of(st.next_ping_seq));
            lemma_free_after_append(n, b1, request);
        }
        lemma_free_datagrams(n, b2, st.datagram_send, budget);
    }
}

/// Once the transport parameters were sent, an endpoint puts none into a record any more.
pub proof fn law_parameters_once(st: State, now: Instant)
    requires
        valid(st),
        st.params_sent,
        st.ping_request_pending ==> st.next_ping_seq < VARINT_BOUND,
    ensures
        match transmission(st, now).1 {
            Transmission::Nothing => true,
            Transmission::Record(frames) => !holds_parameters(frames),
            Transmission::Open { frames, .. } => !holds_parameters(frames),
        },
        transmission(st, now).0.params_sent,
{
    lemma_own_frames_free(st, now);
    match transmission(st, now).1 {
        Transmission::Nothing => {},
        Transmission::Record(frames) | Transmission::Open { frames, .. } => {
            assert(frames.skip(0) =~= frames);
            lemma_free(frames);
        },
    }
}

/// A payload is what is returned for a record that was asked for.
pub proof fn law_payload_returned(st: State, streams: Seq<u8>, now: Instant)
    ensures
        ({
            let (next, t) = transmission(st, now);
            completed(next, filled(t, streams), now).1 == match payload(
                st,
                Operation::Transmit { streams, now },
            ) {
                Some(p) => Some(p.whole()),
                None => None,
            }
        }),
{
    if let Transmission::Record(frames) = transmission(st, now).1 {
        assert(frames + Seq::empty() =~= frames);
    }
}

proof fn lemma_frames_send_nothing(st: State, s: Seq<u8>, len: usize, now: Instant)
    ensures
        run_frames(st, s, len, now).0.params_sent == st.params_sent,
        run_frames(st, s, len, now).0.config == st.config,
    decreases s.len(),
{
    if let Ok(Some((frame, rest))) = next_frame(s) {
        if let Ok((next, None)) = on_frame(st, frame, len, now) {
            if !(next.error is Some || rest.len() >= s.len()) {
                lemma_frames_send_nothing(next, rest, len, now);
            }
        }
    }
}

proof fn lemma_input_sends_nothing(st: State, s: Seq<u8>, now: Instant)
    ensures
        run_input(st, s, now).0.params_sent == st.params_sent,
        run_input(st, s, now).0.config == st.config,
    decreases s.len(),
{
    if let Ok(Some((payload, rest))) = next_record(s, st.config.max_record_size.value()) {
        if rest.len() < s.len() {
            if st.error is Some {
                lemma_input_sends_nothing(st, rest, now);
            } else {
                let started = State { input: rest, idle: st.idle.rearmed(now), ..st };
                lemma_frames_send_nothing(started, payload, payload.len() as usize, now);
                let next = run_frames(started, payload, payload.len() as usize, now).0;
                lemma_input_sends_nothing(next, rest, now);
            }
        }
    }
}

proof fn lemma_run_sends_nothing(st: State, now: Instant)
    ensures
        run(st, now).0.params_sent == st.params_sent,
        run(st, now).0.config == st.config,
{
    match st.record {
        Some((rest, len)) => {
            lemma_frames_send_nothing(st, rest, len, now);
            let next = run_frames(st, rest, len, now).0;
            lemma_input_sends_nothing(next, next.input, now);
        },
        None => lemma_input_sends_nothing(st, st.input, now),
    }
}

/// Receiving sends nothing.
proof fn lemma_receiving_sends_nothing(
    st: State,
    data: Seq<u8>,
    answer: Result<bool, TransportError<Seq<char>>>,
    now: Instant,
)
    ensures
        input_received(st, data, now).0.params_sent == st.params_sent,
        input_received(st, data, now).0.config == st.config,
        record_received(st, data, now).0.params_sent == st.params_sent,
        record_received(st, data, now).0.config == st.config,
        answered(st, answer, now).0.params_sent == st.params_sent,
        answered(st, answer, now).0.config == st.config,
{
    lemma_run_sends_nothing(State { input: st.input + data, streaming: true, ..st }, now);
    lemma_frames_send_nothing(
        State { idle: st.idle.rearmed(now), ..st },
        data,
        data.len() as usize,
        now,
    );
    if let Ok(b) = answer {
        lemma_run_sends_nothing(State { max_data_pending: st.max_data_pending || b, ..st }, now);
    }
}

/// A call keeps what is valid and the configuration, and only one that sends a payload makes
/// that the transport parameters were sent.
proof fn lemma_performed(st: State, op: Operation)
    requires
        valid(st),
        permitted(st, op),
    ensures
        valid(performed(st, op)),
        performed(st, op).config == st.config,
        performed(st, op).params_sent == (st.params_sent || payload(st, op) is Some),
{
    match op {
        Operation::Input { data, now } => {
            law_receiving_keeps_valid(st, data, Ok(false), now);
            lemma_receiving_sends_nothing(st, data, Ok(false), now);
        },
        Operation::Record { payload, now } => {
            law_receiving_keeps_valid(st, payload, Ok(false), now);
            lemma_receiving_sends_nothing(st, payload, Ok(false), now);
        },
        Operation::Resume { answer, now } => {
            law_receiving_keeps_valid(st, Seq::empty(), answer, now);
            lemma_receiving_sends_nothing(st, Seq::empty(), answer, now);
        },
        Operation::Transmit { streams, now } => {
            law_sending_keeps_valid(st, VarInt::of(0), Seq::empty(), now);
            lemma_hello_len(st.config);
            if !st.params_sent && st.error is None {
                lemma_control_frames(st, hello(st.config));
            }
        },
        Operation::SendDatagram { data } => law_datagram_keeps_valid(st, data),
        _ => {},
    }
}

/// What every payload that a connection sends keeps.
pub open spec fn orderly(config: Config, sent: Seq<Payload>) -> bool {
    forall|i: int|
        #![trigger sent[i]]
        0 <= i < sent.len() ==> {
            &&& (sent[i].own + sent[i].streams).len() > 0
            &&& !sent[i].ended ==> sent[i].own.len() <= sent[i].budget
            &&& i == 0 ==> starts_with_parameters(config, sent[i].own)
            &&& i > 0 ==> !holds_parameters(sent[i].own)
        }
}

/// Whether the first of the frames is the QX_TRANSPORT_PARAMETERS frame with what an endpoint
/// of the given configuration announces.
pub open spec fn starts_with_parameters(config: Config, frames: Seq<u8>) -> bool {
    &&& hello(config).is_prefix_of(frames)
    &&& next_frame(frames) == Ok::<_, TransportError<Seq<char>>>(
        Some(
            (
                Frame::TransportParameters(written(table(local_params(config)))),
                frames.skip(hello(config).len() as int),
            ),
        ),
    )
}

proof fn lemma_first_payload(st: State, op: Operation)
    requires
        valid(st),
        permitted(st, op),
        !st.params_sent,
    ensures
        payload(st, op) matches Some(p) ==> starts_with_parameters(st.config, p.own),
{
    if let Operation::Transmit { streams, now } = op {
        law_parameters_first(st, now);
        lemma_hello_len(st.config);
        lemma_control_frames(st, hello(st.config));
        if let Some(p) = payload(st, op) {
            let n = hello(st.config).len() as int;
            assert(p.own.take(n) =~= hello(st.config));
            assert(p.own.subrange(0, n) =~= hello(st.config));
        }
    }
}

proof fn lemma_lived(st: State, ops: Seq<Operation>)
    requires
        valid(st),
        !st.params_sent,
        all_permitted(st, ops),
    ensures
        ({
            let (after, sent) = lived(st, ops);
            &&& valid(after)
            &&& after.config == st.config
            &&& after.params_sent <==> sent.len() > 0
            &&& orderly(st.config, sent)
        }),
    decreases ops.len(),
{
    if ops.len() > 0 {
        lemma_lived(st, ops.drop_last());
        let (before, sent) = lived(st, ops.drop_last());
        let op = ops.last();
        lemma_performed(before, op);
        if let Some(p) = payload(before, op) {
            if let Operation::Transmit { streams, now } = op {
                if before.params_sent {
                    law_parameters_once(before, now);
                } else {
                    lemma_first_payload(before, op);
                    lemma_hello_len(before.config);
                }
                if before.error is None {
                    law_record_within_budget(before, now);
                }
            }
            let all = sent.push(p);
            assert forall|i: int|
                #![trigger all[i]]
                0 <= i < all.len() implies {
                &&& (all[i].own + all[i].streams).len() > 0
                &&& !all[i].ended ==> all[i].own.len() <= all[i].budget
                &&& i == 0 ==> starts_with_parameters(st.config, all[i].own)
                &&& i > 0 ==> !holds_parameters(all[i].own)
            } by {
                if i < sent.len() {
                    assert(all[i] == sent[i]);
                }
            }
        }
    }
}

/// Over the life of a connection, whatever is called on it, the first payload that it sends
/// begins with its transport parameters and no later one holds any, none is empty, and before
/// the connection ends it puts no more into a payload than the peer takes in a record.
pub proof fn law_payloads_of_a_life(
    config: Config,
    side: Side,
    created: Instant,
    ops: Seq<Operation>,
)
    requires
        all_permitted(initial_state(config, side, created), ops),
    ensures
        valid(lived(initial_state(config, side, created), ops).0),
        orderly(config, lived(initial_state(config, side, created), ops).1),
{
    lemma_lived(initial_state(config, side, created), ops);
}

/// Whether the stream state machine keeps to what it is given: what it adds to a record fits
/// beside what is there, and holds no transport parameters.
pub open spec fn disciplined(st: State, op: Operation) -> bool {
    op matches Operation::Transmit { streams, now } ==> (transmission(st, now).1
        matches Transmission::Open { frames, budget, .. } ==> {
        &&& frames.len() + streams.len() <= budget
        &&& !holds_parameters(streams)
    })
}

/// Whether the stream state machine keeps to what it is given in each of the calls.
pub open spec fn all_disciplined(st: State, ops: Seq<Operation>) -> bool
    decreases ops.len(),
{
    ops.len() == 0 || (all_disciplined(st, ops.drop_last()) && disciplined(
        lived(st, ops.drop_last()).0,
        ops.last(),
    ))
}

/// Whether a whole payload is as it should be at place `i` of those sent by an endpoint with
/// the given configuration: the first begins with its transport parameters, which occur nowhere
/// else, and before the connection ends a payload takes no more than the peer accepts.
pub open spec fn well_sent(config: Config, p: Payload, i: int) -> bool {
    &&& p.whole().len() > 0
    &&& !p.ended ==> p.whole().len() <= p.budget
    &&& i == 0 ==> starts_with_parameters(config, p.whole()) && !holds_parameters(
        p.whole().skip(hello(config).len() as int),
    )
    &&& i > 0 ==> !holds_parameters(p.whole())
}

/// One payload, if there is one, is as it should be.
proof fn lemma_well_sent(st: State, op: Operation)
    requires
        valid(st),
        permitted(st, op),
        disciplined(st, op),
    ensures
        payload(st, op) matches Some(p) ==> well_sent(
            st.config,
            p,
            if st.params_sent {
                1
            } else {
                0
            },
        ),
{
    if let Operation::Transmit { streams, now } = op {
        lemma_hello_len(st.config);
        lemma_own_frames_free(st, now);
        if let Some(p) = payload(st, op) {
            let n = hello_len(st);
            let rest = p.own.skip(n);
            assert(p.whole().skip(n) =~= rest + p.streams);
            assert(holds_parameters(rest + p.streams) == holds_parameters(p.streams));
            assert(!holds_parameters(Seq::empty()));
            if st.params_sent {
                assert(p.whole().skip(0) =~= p.whole());
            } else {
                lemma_first_payload(st, op);
                let params = written(table(local_params(st.config)));
                lemma_written_len(table(local_params(st.config)));
                assert(p.whole() =~= hello(st.config) + (rest + p.streams)) by {
                    assert(p.own =~= hello(st.config) + rest);
                }
                law_transport_parameters_round_trip(params, rest + p.streams);
                assert(hello(st.config).is_prefix_of(p.whole()));
            }
        }
    }
}

proof fn lemma_lived_well(st: State, ops: Seq<Operation>)
    requires
        valid(st),
        !st.params_sent,
        all_permitted(st, ops),
        all_disciplined(st, ops),
    ensures
        forall|i: int|
            0 <= i < lived(st, ops).1.len() ==> well_sent(
                st.config,
                #[trigger] lived(st, ops).1[i],
                i,
            ),
    decreases ops.len(),
{
    if ops.len() > 0 {
        lemma_lived_well(st, ops.drop_last());
        lemma_lived(st, ops.drop_last());
        lemma_well_sent(lived(st, ops.drop_last()).0, ops.last());
    }
}

/// Where the stream state machine keeps to what it is given, what holds of the frames of the
/// connection itself holds of whole payloads: over its life, whatever is called on it, the
/// first payload begins with its transport parameters, these occur nowhere else in any payload,
/// none is empty, and before the connection ends none takes more than the peer accepts in a
/// record.
pub proof fn law_whole_payloads_of_a_life(
    config: Config,
    side: Side,
    created: Instant,
    ops: Seq<Operation>,
)
    requires
        all_permitted(initial_state(config, side, created), ops),
        all_disciplined(initial_state(config, side, created), ops),
    ensures
        forall|i: int|
            0 <= i < lived(initial_state(config, side, created), ops).1.len() ==> well_sent(
                config,
                #[trigger] lived(initial_state(config, side, created), ops).1[i],
                i,
            ),
{
    lemma_lived_well(initial_state(config, side, created), ops);
}

/// Whether a connection ended for the violation `e` and behaves like that: the next record
/// ends with one close frame that says so, preceded only by our transport parameters where
/// these were not sent yet; nothing is sent after it, and input is ignored before and after.
pub open spec fn ended_by_violation(
    st: State,
    e: TransportError<Seq<char>>,
    unsent: bool,
    more: Seq<u8>,
    sent: Instant,
    later: Instant,
) -> bool {
    let (silent, t) = transmission(st, sent);
    let ignored = Ok::<Step<Seq<u8>>, Reason>(Step::Done);
    let last = (if unsent {
        hello(st.config)
    } else {
        Seq::empty()
    }) + close_frame(violation_close(e));
    &&& st.error == Some(ConnectionError::<Seq<char>, Seq<u8>>::TransportError(e))
    &&& t == Transmission::Record(last)
    &&& completed(silent, t, sent) == (silent, Some(last))
    &&& transmission(silent, later) == (silent, Transmission::<Seq<u8>>::Nothing)
    &&& input_received(st, more, later) == (st, ignored)
    &&& record_received(st, more, later) == (st, ignored)
    &&& input_received(silent, more, later) == (silent, ignored)
    &&& record_received(silent, more, later) == (silent, ignored)
}

/// Whether the peer closed the connection.
pub open spec fn closed_by_peer(st: State) -> bool {
    ||| st.error matches Some(ConnectionError::ConnectionClosed { .. })
    ||| st.error matches Some(ConnectionError::ApplicationClosed { .. })
}

/// A violation found in what was received, or by the stream state machine, ends the connection:
/// it is the reason from then on, the peer is told once, and then the connection is silent and
/// deaf. The exception is a violation behind a close of the peer.
pub proof fn law_violation_ends(
    st: State,
    data: Seq<u8>,
    answer: Result<bool, TransportError<Seq<char>>>,
    now: Instant,
    more: Seq<u8>,
    sent: Instant,
    later: Instant,
)
    requires
        valid(st),
        st.error is None,
        answer matches Err(e) ==> sendable(e),
    ensures
        input_received(st, data, now).1 matches Err(reason) ==> closed_by_peer(
            input_received(st, data, now).0,
        ) || (reason matches ConnectionError::TransportError(e) && ended_by_violation(
            input_received(st, data, now).0,
            e,
            !st.params_sent,
            more,
            sent,
            later,
        )),
        record_received(st, data, now).1 matches Err(reason) ==> closed_by_peer(
            record_received(st, data, now).0,
        ) || (reason matches ConnectionError::TransportError(e) && ended_by_violation(
            record_received(st, data, now).0,
            e,
            !st.params_sent,
            more,
            sent,
            later,
        )),
        answered(st, answer, now).1 matches Err(reason) ==> closed_by_peer(
            answered(st, answer, now).0,
        ) || (reason matches ConnectionError::TransportError(e) && ended_by_violation(
            answered(st, answer, now).0,
            e,
            !st.params_sent,
            more,
            sent,
            later,
        )),
{
    law_violation_reported(st, data, answer, now);
    law_receiving_keeps_valid(st, data, answer, now);
    lemma_receiving_sends_nothing(st, data, answer, now);
}

} // verus!
