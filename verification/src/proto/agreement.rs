//! What two endpoints agree on: the limits that each grants the other, and how long they bear
//! silence.

use crate::config::Config;
use crate::proto::event::{ConnectionError, Event, Reason};
use crate::proto::frame::law_transport_parameters_round_trip;
use crate::proto::laws::{
    frames_of, law_parameters_first, lemma_control_frames, lemma_hello_len,
};
use crate::proto::params::{acceptable, law_round_trip, table};
use crate::proto::received::{law_requests_reach_streams, ready, request, requestable};
use crate::proto::state::{
    completed, hello, initial_state, local_params, record_received, timeout_handled,
    transmission, State, Step, StreamCall, Transmission,
};
use crate::proto::timer::IdleTimer;
use crate::stream_id::{Dir, Side};
use crate::streams::event::StreamEvent;
use crate::time::{group_time, Duration, Instant, SPAN_BOUND};
use crate::transport_parameters::{lemma_written_len, written};
use crate::varint::{group_varint, VARINT_BOUND};
use vstd::prelude::*;

verus! {

broadcast use {group_varint, group_time};

/// Whether a configuration can be announced: every limit can be encoded, records of the default
/// size are accepted, and no more streams are permitted than can be numbered.
pub open spec fn announceable(c: Config) -> bool {
    &&& c.receive_window.in_range()
    &&& c.stream_receive_window.in_range()
    &&& c.max_concurrent_bidi_streams.value() <= 0x1000_0000_0000_0000
    &&& c.max_concurrent_uni_streams.value() <= 0x1000_0000_0000_0000
    &&& 16382 <= c.max_record_size.value()
    &&& c.max_record_size.in_range()
    &&& c.max_datagram_frame_size matches Some(max) ==> max.in_range()
}

/// A connection that has not heard of its peer.
pub open spec fn unacquainted(st: State) -> bool {
    st.peer_params is None && st.error is None && st.record is None
}

/// A connection that has yet to send its first record.
pub open spec fn unsent(st: State) -> bool {
    !st.params_sent && !st.close_sent
}

/// What an endpoint receives when the first record of its peer arrives, with `more` behind it.
pub open spec fn first_record(peer: State, sent: Instant, more: Seq<u8>) -> Seq<u8> {
    frames_of(transmission(peer, sent).1).unwrap() + more
}

/// The whole milliseconds of a configured timeout; zero where there is none.
pub open spec fn whole_millis(timeout: Option<Duration>) -> nat {
    match timeout {
        Some(d) => d.spec_nanos() / 1_000_000,
        None => 0,
    }
}

/// The frame at the front of a first record is read back as what the peer announces.
proof fn lemma_introduced(st: State, peer: State, more: Seq<u8>, sent: Instant, now: Instant)
    requires
        unacquainted(st),
        unsent(peer),
        announceable(peer.config),
    ensures
        frames_of(transmission(peer, sent).1) is Some,
        record_received(st, first_record(peer, sent, more), now).0.peer_params == Some(
            local_params(peer.config),
        ),
        record_received(st, first_record(peer, sent, more), now).1 == Ok::<_, Reason>(
            Step::Call(
                StreamCall::<Seq<u8>>::SetParameters(
                    crate::proto::state::stream_limits(local_params(peer.config).tp),
                ),
            ),
        ),
        record_received(st, first_record(peer, sent, more), now).0.idle
            == crate::proto::state::negotiated_timer(
            st.config,
            st.idle.rearmed(now),
            local_params(peer.config).tp.max_idle_timeout,
            now,
        ),
        record_received(st, first_record(peer, sent, more), now).0.error is None,
        record_received(st, first_record(peer, sent, more), now).0.events == st.events.push(
            Event::Connected,
        ).push(Event::Stream(StreamEvent::Available { dir: Dir::Bi })).push(
            Event::Stream(StreamEvent::Available { dir: Dir::Uni }),
        ),
        record_received(st, first_record(peer, sent, more), now).0.close_sent == st.close_sent,
        record_received(st, first_record(peer, sent, more), now).0.config == st.config,
{
    let p = local_params(peer.config);
    assert(acceptable(p));
    let blob = written(table(p));
    lemma_written_len(table(p));
    law_parameters_first(peer, sent);
    let first = frames_of(transmission(peer, sent).1).unwrap();
    let n = hello(peer.config).len() as int;
    lemma_hello_len(peer.config);
    lemma_control_frames(peer, hello(peer.config));
    assert(first.take(n) =~= hello(peer.config));
    assert(first + more =~= hello(peer.config) + (first.skip(n) + more));
    law_transport_parameters_round_trip(blob, first.skip(n) + more);
    law_round_trip(p);
}

/// The limits that the stream state machine is given are those that the peer's configuration
/// grants: once the first record of the peer arrives, the data that may be sent on the connection
/// is its receive window, the data that may be sent on each kind of stream its stream receive
/// window, and the numbers of streams that may be opened are those it takes concurrently. Datagrams
/// and records are limited as it configured, from the next record on. The application learns that
/// the connection is established and that streams of both directions may be opened, in that order.
pub proof fn law_limits_granted(
    st: State,
    peer: State,
    more: Seq<u8>,
    sent: Instant,
    now: Instant,
    later: Instant,
)
    requires
        unacquainted(st),
        unsent(peer),
        announceable(peer.config),
    ensures
        ({
            let granted = peer.config;
            let (after, outcome) = record_received(st, first_record(peer, sent, more), now);
            &&& outcome matches Ok(Step::Call(StreamCall::SetParameters(tp)))
            &&& tp.initial_max_data == granted.receive_window
            &&& tp.initial_max_stream_data_bidi_local == granted.stream_receive_window
            &&& tp.initial_max_stream_data_bidi_remote == granted.stream_receive_window
            &&& tp.initial_max_stream_data_uni == granted.stream_receive_window
            &&& tp.initial_max_streams_bidi == granted.max_concurrent_bidi_streams
            &&& tp.initial_max_streams_uni == granted.max_concurrent_uni_streams
            &&& after.peer_params matches Some(p)
            &&& p.max_record_size == granted.max_record_size
            &&& p.tp.max_datagram_frame_size == granted.max_datagram_frame_size
            &&& after.error is None
            &&& after.events.len() == st.events.len() + 3
            &&& after.events.take(st.events.len() as int) == st.events
            &&& after.events[st.events.len() as int] == Event::<Seq<char>, Seq<u8>>::Connected
            &&& after.events[st.events.len() as int + 1] == Event::<Seq<char>, Seq<u8>>::Stream(
                StreamEvent::Available { dir: Dir::Bi },
            )
            &&& after.events[st.events.len() as int + 2] == Event::<Seq<char>, Seq<u8>>::Stream(
                StreamEvent::Available { dir: Dir::Uni },
            )
            &&& !st.close_sent ==> (transmission(after, later).1 matches Transmission::Open {
                budget,
                ..
            } && budget == (if granted.max_record_size.value() <= usize::MAX {
                granted.max_record_size.value() as int
            } else {
                usize::MAX as int
            }))
        }),
{
    lemma_introduced(st, peer, more, sent, now);
    let after = record_received(st, first_record(peer, sent, more), now).0;
    assert(after.events.take(st.events.len() as int) =~= st.events);
}

/// The timeout that a peer announces is the one it is configured with, in whole milliseconds;
/// only what cannot be encoded is announced as the largest number that can.
pub proof fn law_timeout_announced(
    st: State,
    peer: State,
    more: Seq<u8>,
    sent: Instant,
    now: Instant,
)
    requires
        unacquainted(st),
        unsent(peer),
        announceable(peer.config),
    ensures
        ({
            let (after, outcome) = record_received(st, first_record(peer, sent, more), now);
            let millis = whole_millis(peer.config.max_idle_timeout);
            &&& after.peer_params matches Some(p)
            &&& p.tp.max_idle_timeout.value() == (if millis < 0x4000_0000_0000_0000 {
                millis as int
            } else {
                0x3fff_ffff_ffff_ffffint
            })
        }),
{
    lemma_introduced(st, peer, more, sent, now);
}

/// The shorter of two timeouts, where zero stands for none.
pub open spec fn shorter(a: nat, b: nat) -> nat {
    if a == 0 || (0 < b < a) {
        b
    } else {
        a
    }
}

/// Whether the timers run as two endpoints agreed that bear `millis` of silence: they end the
/// connection exactly that long after `at`, or never where it is zero, and a sign of life is due
/// after the configured interval, or else after a third of that time.
pub open spec fn runs_from(idle: IdleTimer, interval: Option<Duration>, millis: nat, at: Instant) -> bool {
    &&& millis == 0 ==> idle.deadline is None
    &&& millis > 0 ==> (idle.deadline matches Some(end) && end.nanos == at.nanos + millis
        * 1_000_000)
    &&& match interval {
        Some(d) => idle.keepalive_at matches Some(due) && due.nanos == at.nanos + d.spec_nanos(),
        None => if millis == 0 {
            idle.keepalive_at is None
        } else {
            idle.keepalive_at matches Some(due) && due.nanos == at.nanos + millis * 1_000_000 / 3
        },
    }
}

proof fn lemma_millis(m: nat)
    requires
        m < VARINT_BOUND,
    ensures
        m * 1_000_000 < SPAN_BOUND,
        m * 1_000_000 / 3 < SPAN_BOUND,
{
}

/// Two endpoints bear silence for the shorter of the times they are configured with: when the
/// first record of the peer arrives the timers start anew with exactly that time. Until then an
/// endpoint goes by its own.
pub proof fn law_timeout_agreed(
    config: Config,
    side: Side,
    created: Instant,
    peer: State,
    more: Seq<u8>,
    sent: Instant,
    now: Instant,
)
    requires
        unsent(peer),
        announceable(peer.config),
        created.in_range(),
        now.in_range(),
        whole_millis(config.max_idle_timeout) < VARINT_BOUND,
        whole_millis(peer.config.max_idle_timeout) < VARINT_BOUND,
        config.keep_alive_interval matches Some(d) ==> d.spec_nanos() < SPAN_BOUND,
    ensures
        ({
            let st = initial_state(config, side, created);
            let (after, outcome) = record_received(st, first_record(peer, sent, more), now);
            let own = whole_millis(config.max_idle_timeout);
            let other = whole_millis(peer.config.max_idle_timeout);
            &&& runs_from(st.idle, config.keep_alive_interval, own, created)
            &&& runs_from(after.idle, config.keep_alive_interval, shorter(own, other), now)
        }),
{
    let st = initial_state(config, side, created);
    lemma_introduced(st, peer, more, sent, now);
    lemma_millis(whole_millis(config.max_idle_timeout));
    lemma_millis(whole_millis(peer.config.max_idle_timeout));
}

/// The connection ends exactly the agreed time after the last record of the peer arrived: after
/// the handshake, and likewise whenever a later record arrives, the timers start anew; looked at
/// before that time has passed they do not end the connection, and looked at from then on they do.
/// While the connection lives a ping is to be sent from when a sign of life is due, and the next
/// sign of life is then due after the same interval once more.
pub proof fn law_silence_ends(
    config: Config,
    side: Side,
    created: Instant,
    peer: State,
    more: Seq<u8>,
    sent: Instant,
    now: Instant,
    st: State,
    call: StreamCall<Seq<u8>>,
    later: Instant,
    at: Instant,
)
    requires
        unsent(peer),
        announceable(peer.config),
        created.in_range(),
        now.in_range(),
        later.in_range(),
        at.in_range(),
        whole_millis(config.max_idle_timeout) < VARINT_BOUND,
        whole_millis(peer.config.max_idle_timeout) < VARINT_BOUND,
        config.keep_alive_interval matches Some(d) ==> d.spec_nanos() < SPAN_BOUND,
        ready(st),
        st.idle == record_received(
            initial_state(config, side, created),
            first_record(peer, sent, more),
            now,
        ).0.idle,
        requestable(call),
        request(call).len() <= st.config.max_record_size.value(),
        request(call).len() < VARINT_BOUND,
    ensures
        ({
            let millis = shorter(
                whole_millis(config.max_idle_timeout),
                whole_millis(peer.config.max_idle_timeout),
            );
            let interval = match config.keep_alive_interval {
                Some(d) => Some(d.spec_nanos()),
                None => if millis == 0 {
                    None
                } else {
                    Some(millis * 1_000_000 / 3)
                },
            };
            let looked = timeout_handled(st, at);
            let over = millis > 0 && at.nanos >= now.nanos + millis * 1_000_000;
            &&& runs_from(
                record_received(st, request(call), later).0.idle,
                config.keep_alive_interval,
                millis,
                later,
            )
            &&& over ==> looked.error == Some(ConnectionError::<Seq<char>, Seq<u8>>::TimedOut)
                && looked.events == st.events.push(
                Event::ConnectionLost { reason: ConnectionError::TimedOut },
            ) && looked.close == st.close
            &&& !over ==> looked.error is None && looked.idle.deadline == st.idle.deadline
            &&& !over ==> match interval {
                Some(n) => if at.nanos >= now.nanos + n {
                    &&& looked.ping_request_pending
                    &&& looked.idle.keepalive_at matches Some(due) && due.nanos == at.nanos + n
                } else {
                    looked == st
                },
                None => looked == st,
            }
        }),
{
    lemma_introduced(initial_state(config, side, created), peer, more, sent, now);
    lemma_millis(whole_millis(config.max_idle_timeout));
    lemma_millis(whole_millis(peer.config.max_idle_timeout));
    law_requests_reach_streams(st, call, Seq::empty(), Seq::empty(), later);
    assert(request(call) + Seq::empty() =~= request(call));
    lemma_restarted(st, call, later);
}

proof fn lemma_restarted(st: State, call: StreamCall<Seq<u8>>, now: Instant)
    requires
        ready(st),
        requestable(call),
    ensures
        record_received(st, request(call), now).0.idle == st.idle.rearmed(now),
{
    let started = State { idle: st.idle.rearmed(now), ..st };
    crate::proto::received::lemma_request_asked(
        started,
        call,
        Seq::empty(),
        request(call).len() as usize,
        now,
    );
    assert(request(call) + Seq::empty() =~= request(call));
}

/// The first record sent after one was received puts the end off to the whole timeout after it,
/// and further ones do not put it off again; a record that holds nothing is not sent and puts off
/// nothing.
pub proof fn law_sending_puts_end_off(
    st: State,
    frames: Seq<u8>,
    budget: usize,
    max_data: bool,
    timeout: Duration,
    received: Instant,
    sent: Instant,
    again: Instant,
)
    requires
        st.idle.effective == Some(timeout),
        timeout.spec_nanos() < SPAN_BOUND,
        received.in_range(),
        sent.in_range(),
        again.in_range(),
        received.nanos <= sent.nanos,
    ensures
        ({
            let t = Transmission::Open { frames, budget, max_data };
            let heard = State { idle: st.idle.rearmed(received), ..st };
            let (once, payload) = completed(heard, t, sent);
            let (twice, _) = completed(once, t, again);
            if frames.len() == 0 {
                payload is None && once == heard
            } else {
                &&& payload == Some(frames)
                &&& once.idle.deadline matches Some(end) && end.nanos == sent.nanos
                    + timeout.spec_nanos()
                &&& twice.idle.deadline == once.idle.deadline
                &&& once.idle.keepalive_at == heard.idle.keepalive_at
            }
        }),
{
}

} // verus!
