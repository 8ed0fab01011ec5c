//! What holds of connections as a whole.

use crate::config::Config;
use crate::proto::event::{ConnectionError, Event, Reason, SendDatagramError};
use crate::proto::frame::{
    close_frame, law_close_round_trip, law_datagram_round_trip, law_frame_progress,
    law_transport_parameters_round_trip, next_frame, ping_frame, Close, Frame,
};
use crate::proto::params::{acceptable, law_round_trip, table};
use crate::proto::record::{law_record_prefix, lemma_next_record_shortens, next_record};
use crate::proto::state::{
    answered, closed, datagram_limit, datagram_sent, enqueued, failed,
    fit_datagrams, fit_responses, hello, initial_state, input_received, is_largest_datagram, local_params, lost,
    negotiated_timer, on_frame, pings, record_budget, record_received, run, run_frames, run_input,
    stream_limits, timeout_handled, transmission, valid, State, Step, StreamCall, Transmission,
};
use crate::proto::steps::{
    lemma_any_input, lemma_frames_elsewhere, lemma_frames_keep, lemma_input_at_rest,
};
use crate::proto::timer::{law_next_timeout_is_earliest, IdleTimer};
use crate::stream_id::Side;
use crate::streams::wire::{datagram_frame, datagram_size};
use crate::time::{group_time, Duration, Instant};
use crate::transport_error::TransportError;
use crate::transport_parameters::{lemma_written_len, written};
use crate::varint::{group_varint, VarInt, VARINT_BOUND};
use vstd::prelude::*;
use vstd::utf8::encode_utf8;

verus! {

broadcast use {group_varint, group_time};

/// The frames of a transmission so far.
pub open spec fn frames_of(t: Transmission<Seq<u8>>) -> Option<Seq<u8>> {
    match t {
        Transmission::Nothing => None,
        Transmission::Record(frames) => Some(frames),
        Transmission::Open { frames, .. } => Some(frames),
    }
}

/// Ping responses are appended.
proof fn lemma_responses_appended(buf: Seq<u8>, queue: Seq<VarInt>, budget: usize)
    ensures
        fit_responses(buf, queue, budget).0.len() >= buf.len(),
        fit_responses(buf, queue, budget).0.take(buf.len() as int) == buf,
        buf.len() <= budget ==> fit_responses(buf, queue, budget).0.len() <= budget,
    decreases queue.len(),
{
    let f = ping_frame(true, queue[0]);
    if queue.len() == 0 || buf.len() + f.len() > budget {
        assert(buf.take(buf.len() as int) =~= buf);
    } else {
        lemma_responses_appended(buf + f, queue.skip(1), budget);
        let out = fit_responses(buf + f, queue.skip(1), budget).0;
        assert(out.take((buf + f).len() as int).take(buf.len() as int) =~= out.take(
            buf.len() as int,
        ));
        assert((buf + f).take(buf.len() as int) =~= buf);
    }
}

/// Datagrams are appended.
pub proof fn lemma_datagrams_appended(buf: Seq<u8>, queue: Seq<Seq<u8>>, budget: usize)
    ensures
        fit_datagrams(buf, queue, budget).0.len() >= buf.len(),
        fit_datagrams(buf, queue, budget).0.take(buf.len() as int) == buf,
        buf.len() <= budget ==> fit_datagrams(buf, queue, budget).0.len() <= budget,
    decreases queue.len(),
{
    let f = datagram_frame(queue[0]);
    if queue.len() == 0 || buf.len() + f.len() > budget {
        assert(buf.take(buf.len() as int) =~= buf);
    } else {
        lemma_datagrams_appended(buf + f, queue.skip(1), budget);
        let out = fit_datagrams(buf + f, queue.skip(1), budget).0;
        assert(out.take((buf + f).len() as int).take(buf.len() as int) =~= out.take(
            buf.len() as int,
        ));
        assert((buf + f).take(buf.len() as int) =~= buf);
    }
}

/// The control frames of a record start with `start` and keep the budget where it does.
pub proof fn lemma_control_frames(st: State, start: Seq<u8>)
    ensures
        ({
            let budget = record_budget(st);
            let b1 = fit_responses(start, st.ping_responses, budget).0;
            let b2 = if pings(st, b1) {
                b1 + ping_frame(false, VarInt::of(st.next_ping_seq))
            } else {
                b1
            };
            let b3 = fit_datagrams(b2, st.datagram_send, budget).0;
            &&& b3.len() >= start.len()
            &&& b3.take(start.len() as int) == start
            &&& start.len() <= budget ==> b3.len() <= budget
        }),
{
    let budget = record_budget(st);
    let n = start.len() as int;
    let b1 = fit_responses(start, st.ping_responses, budget).0;
    let b2 = if pings(st, b1) {
        b1 + ping_frame(false, VarInt::of(st.next_ping_seq))
    } else {
        b1
    };
    let b3 = fit_datagrams(b2, st.datagram_send, budget).0;
    lemma_responses_appended(start, st.ping_responses, budget);
    lemma_datagrams_appended(b2, st.datagram_send, budget);
    assert(b2.take(n) =~= b1.take(n));
    assert(b3.take(b2.len() as int).take(n) =~= b3.take(n));
}

/// Our transport parameters take few octets.
pub proof fn lemma_hello_len(config: Config)
    ensures
        hello(config).len() <= 200,
        0 < hello(config).len(),
{
    lemma_written_len(table(local_params(config)));
}

/// The transport parameters are the very first frame an endpoint sends, whatever else it has
/// to send and whether or not it was closed before.
pub proof fn law_parameters_first(st: State, now: Instant)
    requires
        !st.params_sent,
        !st.close_sent,
    ensures
        frames_of(transmission(st, now).1) matches Some(frames) && {
            &&& next_frame(frames) == Ok::<_, TransportError<Seq<char>>>(
                Some(
                    (
                        Frame::TransportParameters(written(table(local_params(st.config)))),
                        frames.skip(hello(st.config).len() as int),
                    ),
                ),
            )
            &&& transmission(st, now).0.params_sent
        },
{
    let blob = written(table(local_params(st.config)));
    lemma_written_len(table(local_params(st.config)));
    lemma_hello_len(st.config);
    lemma_control_frames(st, hello(st.config));
    let frames = frames_of(transmission(st, now).1).unwrap();
    let n = hello(st.config).len() as int;
    assert(frames.take(n) =~= hello(st.config));
    assert(frames =~= hello(st.config) + frames.skip(n));
    law_transport_parameters_round_trip(blob, frames.skip(n));
}

/// The handshake succeeds: an endpoint that receives the first record of a peer whose
/// configuration may be announced learns exactly that configuration, reports the connection
/// as its first event, and grants streams the limits of the peer.
pub proof fn law_handshake(
    peer: State,
    config: Config,
    side: Side,
    more: Seq<u8>,
    sent: Instant,
    now: Instant,
)
    requires
        !peer.params_sent,
        !peer.close_sent,
        acceptable(local_params(peer.config)),
    ensures
        ({
            let frames = frames_of(transmission(peer, sent).1).unwrap() + more;
            let (st, outcome) = record_received(initial_state(config, side, now), frames, now);
            &&& outcome == Ok::<_, Reason>(
                Step::Call(
                    StreamCall::<Seq<u8>>::SetParameters(stream_limits(local_params(peer.config).tp)),
                ),
            )
            &&& st.peer_params == Some(local_params(peer.config))
            &&& st.events.len() == 3
            &&& st.events[0] == Event::<Seq<char>, Seq<u8>>::Connected
            &&& st.error is None
        }),
{
    let p = local_params(peer.config);
    let blob = written(table(p));
    lemma_written_len(table(p));
    law_parameters_first(peer, sent);
    let first = frames_of(transmission(peer, sent).1).unwrap();
    let frames = first + more;
    let n = hello(peer.config).len() as int;
    lemma_hello_len(peer.config);
    lemma_control_frames(peer, hello(peer.config));
    assert(first.take(n) =~= hello(peer.config));
    assert(frames =~= hello(peer.config) + (first.skip(n) + more));
    law_transport_parameters_round_trip(blob, first.skip(n) + more);
    law_round_trip(p);
}

/// A connection that ended sends at most one more record and then nothing.
pub proof fn law_quiet_after_end(st: State, now: Instant, later: Instant)
    requires
        st.error is Some,
    ensures
        ({
            let after = transmission(st, now).0;
            &&& transmission(after, later) == (after, Transmission::<Seq<u8>>::Nothing)
            &&& !(transmission(st, now).1 is Open)
        }),
{
}

/// A connection that ended ignores input, timeouts and further attempts to end it.
pub proof fn law_ended_ignores(
    st: State,
    data: Seq<u8>,
    error_code: VarInt,
    reason: Reason,
    e: TransportError<Seq<char>>,
    now: Instant,
)
    requires
        st.error is Some,
    ensures
        input_received(st, data, now) == (st, Ok::<Step<Seq<u8>>, Reason>(Step::Done)),
        record_received(st, data, now) == (st, Ok::<Step<Seq<u8>>, Reason>(Step::Done)),
        timeout_handled(st, now) == st,
        closed(st, error_code, data) == st,
        lost(st, reason) == st,
        failed(st, e) == st,
{
}

proof fn lemma_frames_keep_reason(st: State, s: Seq<u8>, len: usize, now: Instant)
    requires
        st.error is Some,
    ensures
        run_frames(st, s, len, now).0.error == st.error,
        run_frames(st, s, len, now).0.close == st.close,
    decreases s.len(),
{
    if let Ok(Some((frame, rest))) = next_frame(s) {
        if let Ok((next, None)) = on_frame(st, frame, len, now) {
            if !(next.error is Some || rest.len() >= s.len()) {
                lemma_frames_keep_reason(next, rest, len, now);
            }
        }
    }
}

proof fn lemma_input_keeps_reason(st: State, s: Seq<u8>, now: Instant)
    requires
        st.error is Some,
    ensures
        run_input(st, s, now).0.error == st.error,
        run_input(st, s, now).0.close == st.close,
    decreases s.len(),
{
    if let Ok(Some((payload, rest))) = next_record(s, st.config.max_record_size.value()) {
        if rest.len() < s.len() {
            lemma_input_keeps_reason(st, rest, now);
        }
    }
}

/// The first reason for which a connection ends is final, even where the stream state machine
/// answers only afterwards.
pub proof fn law_first_reason_final(
    st: State,
    answer: Result<bool, TransportError<Seq<char>>>,
    now: Instant,
)
    requires
        st.error is Some,
    ensures
        answered(st, answer, now).0.error == st.error,
        answered(st, answer, now).0.close == st.close,
{
    if let Ok(b) = answer {
        let s0 = State { max_data_pending: st.max_data_pending || b, ..st };
        match st.record {
            Some((rest, len)) => {
                lemma_frames_keep_reason(s0, rest, len, now);
                let next = run_frames(s0, rest, len, now).0;
                lemma_input_keeps_reason(next, next.input, now);
            },
            None => lemma_input_keeps_reason(s0, s0.input, now),
        }
    }
}

/// The close frame that tells the peer about a violation.
pub open spec fn violation_close(e: TransportError<Seq<char>>) -> Close<Seq<u8>> {
    Close {
        is_application: false,
        error_code: e.code,
        frame_type: None,
        reason: encode_utf8(e.reason),
    }
}

/// Whether a failed attempt to process input ended the connection: for that very reason, with
/// a close frame to say so, unless the peer had closed the connection just before.
pub open spec fn failure_reported(st: State, reason: Reason) -> bool {
    reason matches ConnectionError::TransportError(e) && {
        ||| st.error == Some(reason) && st.close == Some(violation_close(e))
        ||| st.error matches Some(ConnectionError::ConnectionClosed { .. })
        ||| st.error matches Some(ConnectionError::ApplicationClosed { .. })
    }
}

/// Whether the connection goes on or was closed by the peer.
spec fn open_or_closed_by_peer(st: State) -> bool {
    ||| st.error is None
    ||| st.error matches Some(ConnectionError::ConnectionClosed { .. })
    ||| st.error matches Some(ConnectionError::ApplicationClosed { .. })
}

proof fn lemma_frames_report(st: State, s: Seq<u8>, len: usize, now: Instant)
    requires
        open_or_closed_by_peer(st),
    ensures
        match run_frames(st, s, len, now).1 {
            Err(reason) => failure_reported(run_frames(st, s, len, now).0, reason),
            Ok(_) => open_or_closed_by_peer(run_frames(st, s, len, now).0),
        },
    decreases s.len(),
{
    if let Ok(Some((frame, rest))) = next_frame(s) {
        if let Ok((next, None)) = on_frame(st, frame, len, now) {
            if !(next.error is Some || rest.len() >= s.len()) {
                lemma_frames_report(next, rest, len, now);
            }
        }
    }
}

proof fn lemma_input_report(st: State, s: Seq<u8>, now: Instant)
    requires
        open_or_closed_by_peer(st),
    ensures
        match run_input(st, s, now).1 {
            Err(reason) => failure_reported(run_input(st, s, now).0, reason),
            Ok(_) => open_or_closed_by_peer(run_input(st, s, now).0),
        },
    decreases s.len(),
{
    if let Ok(Some((payload, rest))) = next_record(s, st.config.max_record_size.value()) {
        if rest.len() < s.len() {
            if st.error is Some {
                lemma_input_report(st, rest, now);
            } else {
                let started = State { input: rest, idle: st.idle.rearmed(now), ..st };
                lemma_frames_report(started, payload, payload.len() as usize, now);
                let next = run_frames(started, payload, payload.len() as usize, now).0;
                if run_frames(started, payload, payload.len() as usize, now).1 is Ok {
                    lemma_input_report(next, rest, now);
                }
            }
        }
    }
}

proof fn lemma_run_report(st: State, now: Instant)
    requires
        open_or_closed_by_peer(st),
    ensures
        run(st, now).1 matches Err(reason) ==> failure_reported(run(st, now).0, reason),
{
    match st.record {
        Some((rest, len)) => {
            lemma_frames_report(st, rest, len, now);
            let next = run_frames(st, rest, len, now).0;
            if run_frames(st, rest, len, now).1 is Ok {
                lemma_input_report(next, next.input, now);
            }
        },
        None => lemma_input_report(st, st.input, now),
    }
}

/// A violation of the protocol ends the connection and leaves a close frame with its code and
/// message to be sent.
pub proof fn law_violation_reported(
    st: State,
    data: Seq<u8>,
    answer: Result<bool, TransportError<Seq<char>>>,
    now: Instant,
)
    requires
        st.error is None,
    ensures
        input_received(st, data, now).1 matches Err(reason) ==> failure_reported(
            input_received(st, data, now).0,
            reason,
        ),
        record_received(st, data, now).1 matches Err(reason) ==> failure_reported(
            record_received(st, data, now).0,
            reason,
        ),
        answered(st, answer, now).1 matches Err(reason) ==> failure_reported(
            answered(st, answer, now).0,
            reason,
        ),
{
    lemma_run_report(State { input: st.input + data, streaming: true, ..st }, now);
    lemma_frames_report(
        State { idle: st.idle.rearmed(now), ..st },
        data,
        data.len() as usize,
        now,
    );
    if let Ok(b) = answer {
        lemma_run_report(State { max_data_pending: st.max_data_pending || b, ..st }, now);
    }
}

/// An endpoint that completed the handshake and has not ended.
pub open spec fn established(st: State) -> bool {
    st.peer_params is Some && st.error is None
}

/// Closing reaches the peer: the next record of an endpoint that sent its parameters carries
/// the error code and the reason, and with it the connection of the peer ends for exactly
/// these.
pub proof fn law_close_reaches_peer(
    st: State,
    peer: State,
    error_code: VarInt,
    reason: Seq<u8>,
    sent: Instant,
    now: Instant,
)
    requires
        valid(st),
        st.error is None,
        st.params_sent,
        established(peer),
        error_code.value() < VARINT_BOUND,
        reason.len() < VARINT_BOUND,
    ensures
        transmission(closed(st, error_code, reason), sent).1 matches Transmission::Record(frames)
            && {
            let (after, outcome) = record_received(peer, frames, now);
            &&& outcome == Ok::<Step<Seq<u8>>, Reason>(Step::Done)
            &&& after.error == Some(
                ConnectionError::<Seq<char>, Seq<u8>>::ApplicationClosed { error_code, reason },
            )
        },
{
    let close = Close { is_application: true, error_code, frame_type: None, reason };
    law_close_round_trip(close, Seq::empty());
    assert(close_frame(close) + Seq::empty() =~= close_frame(close));
    assert(Seq::<u8>::empty() + close_frame(close) =~= close_frame(close));
}

/// A violation reaches the peer that committed it: the next record carries its code and
/// message.
pub proof fn law_violation_reaches_peer(
    st: State,
    peer: State,
    e: TransportError<Seq<char>>,
    sent: Instant,
    now: Instant,
)
    requires
        valid(st),
        st.error is None,
        st.params_sent,
        established(peer),
        e.code.value() < VARINT_BOUND,
        encode_utf8(e.reason).len() < VARINT_BOUND,
    ensures
        transmission(failed(st, e), sent).1 matches Transmission::Record(frames) && {
            let (after, outcome) = record_received(peer, frames, now);
            &&& outcome == Ok::<Step<Seq<u8>>, Reason>(Step::Done)
            &&& after.error == Some(
                ConnectionError::<Seq<char>, Seq<u8>>::ConnectionClosed {
                    error_code: e.code,
                    frame_type: Some(VarInt::of(0)),
                    reason: encode_utf8(e.reason),
                },
            )
        },
{
    let close = violation_close(e);
    law_close_round_trip(close, Seq::empty());
    assert(close_frame(close) + Seq::empty() =~= close_frame(close));
    assert(Seq::<u8>::empty() + close_frame(close) =~= close_frame(close));
}

/// An idle timeout or a failure of the transport sends nothing once the parameters were sent.
pub proof fn law_timeout_silent(st: State, reason: Reason, now: Instant)
    requires
        valid(st),
        st.error is None,
        st.params_sent,
    ensures
        st.idle.spec_expired(now) ==> timeout_handled(st, now).error == Some(
            ConnectionError::<Seq<char>, Seq<u8>>::TimedOut,
        ) && transmission(timeout_handled(st, now), now).1 == Transmission::<Seq<u8>>::Nothing,
        transmission(lost(st, reason), now).1 == Transmission::<Seq<u8>>::Nothing,
{
}

/// What an endpoint puts into a record by itself fits what the peer accepts.
pub proof fn law_record_within_budget(st: State, now: Instant)
    requires
        valid(st),
        st.error is None,
    ensures
        transmission(st, now).1 matches Transmission::Open { frames, budget, .. } && frames.len()
            <= budget && budget == record_budget(st),
{
    lemma_hello_len(st.config);
    lemma_control_frames(st, hello(st.config));
    lemma_control_frames(st, Seq::empty());
}

/// Ping requests carry strictly increasing sequence numbers; a peer that saw only earlier ones
/// accepts the next and queues its answer, and the answer is accepted in turn.
pub proof fn law_ping_answered(st: State, peer: State, buf: Seq<u8>, len: usize, now: Instant)
    requires
        st.error is None,
        !st.close_sent,
        st.peer_params is Some,
        pings(
            st,
            fit_responses(
                if st.params_sent {
                    Seq::empty()
                } else {
                    hello(st.config)
                },
                st.ping_responses,
                record_budget(st),
            ).0,
        ),
        st.next_ping_seq < VARINT_BOUND,
        peer.peer_params is Some,
        peer.greatest_ping_recv matches Some(greatest) ==> greatest < st.next_ping_seq,
    ensures
        ({
            let seq = VarInt::of(st.next_ping_seq);
            let after = transmission(st, now).0;
            &&& after.next_ping_seq == st.next_ping_seq + 1
            &&& on_frame(peer, Frame::PingRequest(seq), len, now) matches Ok((p, None))
            &&& p.ping_responses == peer.ping_responses.push(seq)
            &&& p.greatest_ping_recv == Some(st.next_ping_seq)
            &&& on_frame(after, Frame::PingResponse(seq), len, now) == Ok::<
                _,
                TransportError<Seq<char>>,
            >((after, None::<StreamCall<Seq<u8>>>))
        }),
{
}

/// A datagram that is accepted for sending is accepted by the peer that announced the limits.
pub proof fn law_datagram_accepted(
    st: State,
    peer: State,
    data: Seq<u8>,
    len: usize,
    now: Instant,
)
    requires
        st.peer_params == Some(local_params(peer.config)),
        peer.peer_params is Some,
        datagram_sent(st, data).1 is Ok,
    ensures
        on_frame(peer, Frame::Datagram(data), len, now) matches Ok((after, None))
            && after.datagram_recv == enqueued(
            peer.datagram_recv,
            peer.config.datagram_recv_queue,
            data,
        ),
{
}

/// The size announced for datagrams is exact: what is no larger is accepted for sending, and
/// what is larger is refused. A limit that not even the frame of an empty datagram keeps
/// refuses every datagram.
pub proof fn law_max_datagram_size(st: State, max_frame: VarInt, n: usize, data: Seq<u8>)
    requires
        st.peer_params matches Some(peer) && peer.tp.max_datagram_frame_size == Some(max_frame)
            && is_largest_datagram(n, datagram_limit(max_frame, peer)),
        data.len() <= usize::MAX,
    ensures
        ({
            let limit = datagram_limit(max_frame, st.peer_params.unwrap());
            let r = datagram_sent(st, data).1;
            &&& limit >= 2 ==> (r is Ok <==> data.len() <= n)
            &&& limit >= 2 && data.len() > n ==> r == Err::<(), _>(SendDatagramError::TooLarge)
            &&& limit < 2 ==> r == Err::<(), _>(SendDatagramError::TooLarge)
        }),
{
}

/// The frames that carry the given datagrams.
pub open spec fn datagram_frames(list: Seq<Seq<u8>>) -> Seq<u8>
    decreases list.len(),
{
    if list.len() == 0 {
        Seq::empty()
    } else {
        datagram_frame(list[0]) + datagram_frames(list.skip(1))
    }
}

/// A queue after the given datagrams were appended one by one.
pub open spec fn all_enqueued(
    queue: Seq<Seq<u8>>,
    capacity: usize,
    list: Seq<Seq<u8>>,
) -> Seq<Seq<u8>>
    decreases list.len(),
{
    if list.len() == 0 {
        queue
    } else {
        all_enqueued(enqueued(queue, capacity, list[0]), capacity, list.skip(1))
    }
}

/// Datagrams go out in the order in which they were queued, and none is lost: some leave the
/// front of the queue and are appended to the record, the others stay.
pub proof fn law_datagrams_leave_in_order(buf: Seq<u8>, queue: Seq<Seq<u8>>, budget: usize)
    ensures
        exists|k: int|
            0 <= k <= queue.len() && fit_datagrams(buf, queue, budget) == (
                buf + #[trigger] datagram_frames(queue.take(k)),
                queue.skip(k),
            ),
    decreases queue.len(),
{
    let f = datagram_frame(queue[0]);
    if queue.len() == 0 || buf.len() + f.len() > budget {
        assert(queue.take(0) =~= Seq::empty());
        assert(buf + datagram_frames(queue.take(0)) =~= buf);
        assert(queue.skip(0) =~= queue);
        assert(fit_datagrams(buf, queue, budget) == (
            buf + datagram_frames(queue.take(0)),
            queue.skip(0),
        ));
    } else {
        let rest = queue.skip(1);
        law_datagrams_leave_in_order(buf + f, rest, budget);
        let k = choose|k: int|
            0 <= k <= rest.len() && fit_datagrams(buf + f, rest, budget) == (
                buf + f + #[trigger] datagram_frames(rest.take(k)),
                rest.skip(k),
            );
        assert(queue.take(k + 1).skip(1) =~= rest.take(k));
        assert(queue.take(k + 1)[0] == queue[0]);
        assert(buf + datagram_frames(queue.take(k + 1)) =~= buf + f + datagram_frames(
            rest.take(k),
        ));
        assert(rest.skip(k) =~= queue.skip(k + 1));
        assert(fit_datagrams(buf, queue, budget) == (
            buf + datagram_frames(queue.take(k + 1)),
            queue.skip(k + 1),
        ));
    }
}

/// Datagrams arrive in the order in which they were sent: frames that carry datagrams within
/// the limits of the receiver end up in its queue one after the other.
pub proof fn law_datagrams_arrive_in_order(
    st: State,
    list: Seq<Seq<u8>>,
    max: VarInt,
    len: usize,
    now: Instant,
)
    requires
        established(st),
        st.config.max_datagram_frame_size == Some(max),
        max.value() < VARINT_BOUND,
        forall|i: int| 0 <= i < list.len() ==> datagram_size((#[trigger] list[i]).len())
            <= max.value(),
    ensures
        ({
            let (after, outcome) = run_frames(st, datagram_frames(list), len, now);
            &&& outcome == Ok::<_, Reason>(Step::Call(StreamCall::<Seq<u8>>::QueueMaxStreams))
            &&& after.datagram_recv == all_enqueued(
                st.datagram_recv,
                st.config.datagram_recv_queue,
                list,
            )
            &&& after.error is None
        }),
    decreases list.len(),
{
    if list.len() > 0 {
        let rest = datagram_frames(list.skip(1));
        assert(datagram_size(list[0].len()) <= max.value());
        law_datagram_round_trip(list[0], rest);
        law_frame_progress(datagram_frames(list));
        let next = on_frame(st, Frame::Datagram(list[0]), len, now)->Ok_0.0;
        assert forall|i: int| 0 <= i < list.skip(1).len() implies datagram_size(
            (#[trigger] list.skip(1)[i]).len(),
        ) <= max.value() by {
            assert(list.skip(1)[i] == list[i + 1]);
        }
        law_datagrams_arrive_in_order(next, list.skip(1), max, len, now);
    }
}

/// Keep-alives are sent at the configured interval, and otherwise at a third of the negotiated
/// timeout, before it expires.
pub proof fn law_keepalive_within_timeout(
    config: Config,
    idle: IdleTimer,
    peer: VarInt,
    timeout: Duration,
    now: Instant,
)
    requires
        now.in_range(),
        timeout.spec_nanos() < crate::time::SPAN_BOUND,
        config.keep_alive_interval matches Some(d) ==> d.spec_nanos() < crate::time::SPAN_BOUND,
        crate::proto::timer::negotiated(idle.local, Some(peer)) == Some(timeout),
    ensures
        negotiated_timer(config, idle, peer, now).keepalive_at matches Some(at) && at.nanos
            == now.nanos + (match config.keep_alive_interval {
            Some(interval) => interval.spec_nanos() as int,
            None => timeout.spec_nanos() as int / 3,
        }),
        negotiated_timer(config, idle, peer, now).deadline matches Some(at) && at.nanos
            == now.nanos + timeout.spec_nanos(),
{
}

/// Looking at the timeouts earlier than asked for does nothing, and at the instant asked for
/// something is done: the connection ends or a keep-alive is to be sent. Nothing is asked for
/// exactly where the connection ended or nothing is armed.
pub proof fn law_timeout_when_due(st: State, now: Instant)
    requires
        valid(st),
        st.error is None,
    ensures
        match st.idle.earliest() {
            None => timeout_handled(st, now) == st,
            Some(at) => {
                &&& now.nanos < at.nanos ==> timeout_handled(st, now) == st
                &&& now.nanos == at.nanos ==> {
                    ||| timeout_handled(st, now).error == Some(
                        ConnectionError::<Seq<char>, Seq<u8>>::TimedOut,
                    )
                    ||| timeout_handled(st, now).error is None && timeout_handled(
                        st,
                        now,
                    ).ping_request_pending
                }
            },
        },
{
    law_next_timeout_is_earliest(st.idle, now);
}

/// When a keep-alive is due on a connection that has not expired, a ping request is to be
/// sent.
pub proof fn law_keepalive_pings(st: State, now: Instant)
    requires
        st.error is None,
        !st.idle.spec_expired(now),
        st.idle.keepalive_due(now),
    ensures
        timeout_handled(st, now).ping_request_pending,
        timeout_handled(st, now).error is None,
{
}

/// Octets that arrive later do not change what is done with those that arrived before.
spec fn extends(st: State, s: Seq<u8>, more: Seq<u8>, now: Instant) -> bool {
    let (a, outcome) = run_input(st, s, now);
    if outcome matches Ok(Step::Done) {
        a.error is None ==> run_input(st, s + more, now) == run_input(
            State { streaming: true, ..a },
            a.input + more,
            now,
        )
    } else {
        run_input(st, s + more, now) == (State { input: a.input + more, ..a }, outcome)
    }
}

/// The connection when it starts to process a record that leaves `rest`.
spec fn started(st: State, rest: Seq<u8>, now: Instant) -> State {
    State { input: rest, idle: st.idle.rearmed(now), ..st }
}

/// One record is taken off.
proof fn lemma_input_step(st: State, s: Seq<u8>, payload: Seq<u8>, rest: Seq<u8>, now: Instant)
    requires
        next_record(s, st.config.max_record_size.value()) == Ok::<_, TransportError<Seq<char>>>(
            Some((payload, rest)),
        ),
        rest.len() < s.len(),
        st.error is None,
    ensures
        ({
            let (next, outcome) = run_frames(
                started(st, rest, now),
                payload,
                payload.len() as usize,
                now,
            );
            run_input(st, s, now) == if outcome matches Ok(Step::Done) {
                run_input(next, rest, now)
            } else {
                (next, outcome)
            }
        }),
{
}

#[verifier::rlimit(40)]
#[verifier::spinoff_prover]
proof fn lemma_record_extends(
    st: State,
    s: Seq<u8>,
    payload: Seq<u8>,
    rest: Seq<u8>,
    more: Seq<u8>,
    now: Instant,
)
    requires
        next_record(s, st.config.max_record_size.value()) == Ok::<_, TransportError<Seq<char>>>(
            Some((payload, rest)),
        ),
        next_record(s + more, st.config.max_record_size.value()) == Ok::<
            _,
            TransportError<Seq<char>>,
        >(Some((payload, rest + more))),
        rest.len() < s.len(),
        st.error is None,
        run_frames(started(st, rest, now), payload, payload.len() as usize, now).1 matches Ok(
            Step::Done,
        ) ==> extends(
            run_frames(started(st, rest, now), payload, payload.len() as usize, now).0,
            rest,
            more,
            now,
        ),
    ensures
        extends(st, s, more, now),
{
    let len = payload.len() as usize;
    let (next, outcome) = run_frames(started(st, rest, now), payload, len, now);
    lemma_input_step(st, s, payload, rest, now);
    lemma_input_step(st, s + more, payload, rest + more, now);
    lemma_frames_elsewhere(
        started(st, rest, now),
        rest + more,
        st.record,
        payload,
        len,
        now,
    );
    lemma_frames_keep(started(st, rest, now), payload, len, now);
    assert(started(st, rest + more, now) == State { input: rest + more, ..started(st, rest, now) });
    assert(run_frames(started(st, rest + more, now), payload, len, now) == (
        State { input: rest + more, ..next },
        outcome,
    ));
    if outcome matches Ok(Step::Done) {
        lemma_any_input(State { input: rest + more, ..next }, next, rest + more, now);
        assert(run_input(st, s + more, now) == run_input(next, rest + more, now));
        assert(run_input(st, s, now) == run_input(next, rest, now));
    } else {
        assert(next.input == rest);
    }
}

proof fn lemma_input_extends(st: State, s: Seq<u8>, more: Seq<u8>, now: Instant)
    requires
        st.streaming,
        st.record is None,
    ensures
        extends(st, s, more, now),
    decreases s.len(),
{
    let max = st.config.max_record_size.value();
    law_record_prefix(s, more, max);
    lemma_next_record_shortens(s, max);
    lemma_next_record_shortens(s + more, max);
    match next_record(s, max) {
        Ok(None) => {
            let a = run_input(st, s, now).0;
            lemma_any_input(State { streaming: true, ..a }, st, s + more, now);
        },
        Ok(Some((payload, rest))) => {
            if st.error is Some {
                lemma_input_extends(st, rest, more, now);
                lemma_input_keeps_reason(st, rest, now);
            } else {
                let len = payload.len() as usize;
                lemma_frames_keep(started(st, rest, now), payload, len, now);
                if run_frames(started(st, rest, now), payload, len, now).1 matches Ok(Step::Done) {
                    let next = run_frames(started(st, rest, now), payload, len, now).0;
                    lemma_input_extends(next, rest, more, now);
                }
                lemma_record_extends(st, s, payload, rest, more, now);
            }
        },
        Err(e) => {},
    }
}

/// Octets may arrive in arbitrary pieces: what one piece leaves is taken up by the next as if
/// both had arrived at once, unless the connection ended in between; and where the first piece
/// stops at a call or at a violation, the second only waits behind it.
pub proof fn law_any_chunking(st: State, first: Seq<u8>, second: Seq<u8>, now: Instant)
    requires
        st.error is None,
        st.record is None,
    ensures
        ({
            let (a, outcome) = input_received(st, first, now);
            if outcome matches Ok(Step::Done) {
                a.error is None ==> input_received(st, first + second, now) == input_received(
                    a,
                    second,
                    now,
                )
            } else {
                input_received(st, first + second, now) == (
                    State { input: a.input + second, ..a },
                    outcome,
                )
            }
        }),
{
    let whole = st.input + (first + second);
    assert(whole =~= st.input + first + second);
    let one = State { input: st.input + first, streaming: true, ..st };
    let both = State { input: whole, streaming: true, ..st };
    lemma_input_extends(one, one.input, second, now);
    lemma_any_input(both, one, whole, now);
    let a = run_input(one, one.input, now).0;
    lemma_input_at_rest(one, one.input, now);
    lemma_any_input(
        State { input: a.input + second, streaming: true, ..a },
        State { streaming: true, ..a },
        a.input + second,
        now,
    );
}

} // verus!
