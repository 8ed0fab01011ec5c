//! What an endpoint sends, down to the octets on the wire.

use crate::proto::agreement::announceable;
use crate::proto::event::{ConnectionError, Event, SendDatagramError};
use crate::proto::frame::ping_frame;
use crate::proto::laws::{frames_of, lemma_control_frames, lemma_hello_len};
use crate::proto::params::{acceptable, announced, law_round_trip, table};
use crate::proto::received::takes;
use crate::proto::state::{
    closed, datagram_sent, failed, fit_datagrams, fit_responses, hello, local_params, lost, pings,
    record_budget, transmission, State, Transmission,
};
use crate::streams::frame::{lemma_sized, take_sized};
use crate::streams::wire::datagram_frame;
use crate::time::Instant;
use crate::transport_error::TransportError;
use crate::transport_parameters::{lemma_written_len, written};
use crate::varint::{encoding, group_varint, VarInt, VARINT_BOUND};
use vstd::prelude::*;
use vstd::utf8::encode_utf8;

verus! {

broadcast use group_varint;

/// The frames that answer ping requests.
pub open spec fn answers(list: Seq<VarInt>) -> Seq<u8>
    decreases list.len(),
{
    if list.len() == 0 {
        Seq::empty()
    } else {
        encoding(0x348c_6752_9ef8_c7be) + encoding(list[0].value()) + answers(list.skip(1))
    }
}

/// The frames that carry datagrams.
pub open spec fn datagrams(list: Seq<Seq<u8>>) -> Seq<u8>
    decreases list.len(),
{
    if list.len() == 0 {
        Seq::empty()
    } else {
        encoding(0x31) + (encoding(list[0].len() as u64) + list[0]) + datagrams(list.skip(1))
    }
}

/// The frame that asks for a sign of life.
pub open spec fn question(st: State) -> Seq<u8> {
    if st.ping_request_pending {
        encoding(0x348c_6752_9ef8_c7bd) + encoding(st.next_ping_seq)
    } else {
        Seq::empty()
    }
}

/// The frame with the parameters of an endpoint that has not sent them.
pub open spec fn introduction(st: State) -> Seq<u8> {
    if st.params_sent {
        Seq::empty()
    } else {
        hello(st.config)
    }
}

proof fn lemma_answers(buf: Seq<u8>, queue: Seq<VarInt>, budget: usize)
    requires
        buf.len() + answers(queue).len() <= budget,
    ensures
        fit_responses(buf, queue, budget) == (buf + answers(queue), Seq::<VarInt>::empty()),
    decreases queue.len(),
{
    if queue.len() == 0 {
        assert(buf + answers(queue) =~= buf);
        assert(queue =~= Seq::empty());
    } else {
        let f = ping_frame(true, queue[0]);
        lemma_answers(buf + f, queue.skip(1), budget);
        assert(buf + f + answers(queue.skip(1)) =~= buf + answers(queue));
    }
}

proof fn lemma_datagrams(buf: Seq<u8>, queue: Seq<Seq<u8>>, budget: usize)
    requires
        buf.len() + datagrams(queue).len() <= budget,
    ensures
        fit_datagrams(buf, queue, budget) == (buf + datagrams(queue), Seq::<Seq<u8>>::empty()),
    decreases queue.len(),
{
    if queue.len() == 0 {
        assert(buf + datagrams(queue) =~= buf);
        assert(queue =~= Seq::empty());
    } else {
        let f = datagram_frame(queue[0]);
        lemma_datagrams(buf + f, queue.skip(1), budget);
        assert(buf + f + datagrams(queue.skip(1)) =~= buf + datagrams(queue));
    }
}

/// What fits a record is sent: where everything that waits keeps the limit of the peer, the next
/// record introduces the endpoint if none before did, answers all ping requests in the order they
/// came in, asks for a sign of life where one is
/// due, and carries all datagrams in the order they were sent, in that order; nothing of it is left
/// afterwards. Whether connection-level credit is to be announced is said once. The limit is what
/// the peer announced, and the default until it did.
pub proof fn law_everything_leaves(st: State, peer_limit: int, now: Instant)
    requires
        st.error is None,
        !st.close_sent,
        peer_limit == (match st.peer_params {
            Some(p) => p.max_record_size.value() as int,
            None => 16382int,
        }),
        peer_limit <= usize::MAX,
        introduction(st).len() + answers(st.ping_responses).len() + question(st).len() + datagrams(
            st.datagram_send,
        ).len() <= peer_limit,
        st.next_ping_seq < VARINT_BOUND,
    ensures
        ({
            let (after, t) = transmission(st, now);
            &&& t matches Transmission::Open { frames, budget, max_data }
            &&& frames == introduction(st) + answers(st.ping_responses) + question(st) + datagrams(
                st.datagram_send,
            )
            &&& budget == peer_limit
            &&& max_data == st.max_data_pending
            &&& !after.max_data_pending
            &&& after.ping_responses.len() == 0
            &&& !after.ping_request_pending
            &&& after.next_ping_seq == st.next_ping_seq + (if st.ping_request_pending {
                1int
            } else {
                0
            })
            &&& after.datagram_send.len() == 0
            &&& after == (State {
                params_sent: true,
                max_data_pending: false,
                ping_responses: Seq::empty(),
                ping_request_pending: false,
                next_ping_seq: after.next_ping_seq,
                datagram_send: Seq::empty(),
                ..st
            })
        }),
{
    let start = introduction(st);
    let budget = record_budget(st);
    lemma_answers(start, st.ping_responses, budget);
    let b1 = start + answers(st.ping_responses);
    let b2 = if pings(st, b1) {
        b1 + ping_frame(false, VarInt::of(st.next_ping_seq))
    } else {
        b1
    };
    assert(b2 =~= b1 + question(st));
    lemma_datagrams(b2, st.datagram_send, budget);
}

/// The first record of every connection begins with the eight octets by which QMux is told from
/// other protocols, followed by the parameters and their length.
pub proof fn law_first_octets(st: State, now: Instant)
    requires
        !st.params_sent,
        !st.close_sent,
    ensures
        frames_of(transmission(st, now).1) matches Some(frames) && {
            &&& frames.len() > 8
            &&& frames.take(8) == seq![0xffu8, 0x51, 0x53, 0x30, 0x0d, 0x0a, 0x0d, 0x0a]
            &&& take_sized(frames.skip(8)) matches Some((blob, rest))
            &&& announced(blob) is Ok || !announceable(st.config)
        },
{
    let p = local_params(st.config);
    let blob = written(table(p));
    lemma_written_len(table(p));
    lemma_hello_len(st.config);
    lemma_control_frames(st, hello(st.config));
    let frames = frames_of(transmission(st, now).1).unwrap();
    let n = hello(st.config).len() as int;
    let rest = frames.skip(n);
    assert(frames.take(n) =~= hello(st.config));
    assert(frames =~= hello(st.config) + rest);
    let magic = encoding(0x3f51_5330_0d0a_0d0a);
    assert(magic =~= seq![0xffu8, 0x51, 0x53, 0x30, 0x0d, 0x0a, 0x0d, 0x0a]) by {
        reveal(encoding);
    }
    assert(frames.take(8) =~= magic);
    assert(frames.skip(8) =~= encoding(blob.len() as u64) + blob + rest);
    lemma_sized(blob, rest);
    if announceable(st.config) {
        assert(acceptable(p));
        law_round_trip(p);
    }
}

/// A datagram is taken for sending exactly where its frame, with a length, is no larger than the
/// datagram frames and the records that the peer accepts; it then waits behind earlier ones, of
/// which the oldest gives way where as many wait as may. Otherwise it is refused, for what stands
/// against it, and nothing changes.
pub proof fn law_datagram_taken(st: State, data: Seq<u8>)
    requires
        data.len() < VARINT_BOUND,
    ensures
        ({
            let (after, r) = datagram_sent(st, data);
            let size = 1 + encoding(data.len() as u64).len() + data.len();
            match st.peer_params {
                None => r == Err::<(), _>(SendDatagramError::NotYetReady) && after == st,
                Some(p) => match p.tp.max_datagram_frame_size {
                    None => r == Err::<(), _>(SendDatagramError::UnsupportedByPeer) && after == st,
                    Some(max) => if size <= max.value() && size <= p.max_record_size.value() {
                        &&& r is Ok
                        &&& takes(
                            st.datagram_send,
                            after.datagram_send,
                            st.config.datagram_send_queue,
                            data,
                        )
                        &&& after == (State { datagram_send: after.datagram_send, ..st })
                    } else {
                        r == Err::<(), _>(SendDatagramError::TooLarge) && after == st
                    },
                },
            }
        }),
{
    let after = datagram_sent(st, data).0;
    if st.datagram_send.len() >= st.config.datagram_send_queue && st.datagram_send.len() > 0 {
        assert(st.datagram_send.skip(1).push(data).drop_last() =~= st.datagram_send.skip(1));
    } else {
        assert(st.datagram_send.push(data).drop_last() =~= st.datagram_send);
    }
}

/// Closing a connection ends it for the application at once, as closed by itself, and the next
/// record tells the peer the code and the reason in a frame of the application, behind the
/// parameters where these were not sent yet. It is the last record.
pub proof fn law_close_told(
    st: State,
    error_code: VarInt,
    reason: Seq<u8>,
    now: Instant,
    later: Instant,
)
    requires
        st.error is None,
        !st.close_sent,
    ensures
        ({
            let ended = closed(st, error_code, reason);
            let (after, t) = transmission(ended, now);
            let frame = encoding(0x1d) + (encoding(error_code.value()) + (encoding(
                reason.len() as u64,
            ) + reason));
            &&& ended.error == Some(ConnectionError::<Seq<char>, Seq<u8>>::LocallyClosed)
            &&& ended.events == st.events.push(
                Event::ConnectionLost { reason: ConnectionError::LocallyClosed },
            )
            &&& t matches Transmission::Record(frames)
            &&& st.params_sent ==> frames == frame
            &&& !st.params_sent ==> frames == hello(st.config) + frame
            &&& after.error == ended.error
            &&& transmission(after, later).1 == Transmission::<Seq<u8>>::Nothing
        }),
{
    let frame = encoding(0x1d) + (encoding(error_code.value()) + (encoding(reason.len() as u64)
        + reason));
    let t = transmission(closed(st, error_code, reason), now).1;
    if let Transmission::Record(frames) = t {
        if st.params_sent {
            assert(frames =~= frame);
        } else {
            assert(frames =~= hello(st.config) + frame);
        }
    }
}

/// A violation ends the connection, and the next record tells the peer its code and message in a
/// frame of the transport that names no frame type; other ends are not told.
pub proof fn law_violation_told(
    st: State,
    e: TransportError<Seq<char>>,
    now: Instant,
    later: Instant,
)
    requires
        st.error is None,
        !st.close_sent,
        st.close is None,
        st.params_sent,
    ensures
        ({
            let ended = failed(st, e);
            let (after, t) = transmission(ended, now);
            let reason = encode_utf8(e.reason);
            &&& ended.error == Some(ConnectionError::<Seq<char>, Seq<u8>>::TransportError(e))
            &&& ended.events == st.events.push(
                Event::ConnectionLost { reason: ConnectionError::TransportError(e) },
            )
            &&& t matches Transmission::Record(frames)
            &&& frames == encoding(0x1c) + (encoding(e.code.value()) + (encoding(0) + (encoding(
                reason.len() as u64,
            ) + reason)))
            &&& transmission(after, later).1 == Transmission::<Seq<u8>>::Nothing
        }),
        ({
            let ended = lost(st, ConnectionError::TransportClosed);
            &&& ended.error == Some(ConnectionError::<Seq<char>, Seq<u8>>::TransportClosed)
            &&& ended.events == st.events.push(
                Event::ConnectionLost { reason: ConnectionError::TransportClosed },
            )
            &&& transmission(ended, now).1 == Transmission::<Seq<u8>>::Nothing
        }),
{
    let reason = encode_utf8(e.reason);
    let frame = encoding(0x1c) + (encoding(e.code.value()) + (encoding(0) + (encoding(
        reason.len() as u64,
    ) + reason)));
    if let Transmission::Record(frames) = transmission(failed(st, e), now).1 {
        assert(frames =~= frame);
    }
}

/// What waits stays behind only for want of room: the first answer or datagram that does not leave
/// would exceed the limit, and those behind it wait with it in their order.
pub proof fn law_stays_only_when_full(
    buf: Seq<u8>,
    responses: Seq<VarInt>,
    queue: Seq<Seq<u8>>,
    budget: usize,
)
    ensures
        ({
            let (frames, left) = fit_responses(buf, responses, budget);
            &&& left.len() <= responses.len()
            &&& left == responses.skip(responses.len() - left.len())
            &&& left.len() > 0 ==> frames.len() + encoding(0x348c_6752_9ef8_c7be).len() + encoding(
                left[0].value(),
            ).len() > budget
        }),
        ({
            let (frames, left) = fit_datagrams(buf, queue, budget);
            &&& left.len() <= queue.len()
            &&& left == queue.skip(queue.len() - left.len())
            &&& left.len() > 0 ==> frames.len() + 1 + encoding(left[0].len() as u64).len()
                + left[0].len() > budget
        }),
{
    lemma_responses_stay(buf, responses, budget);
    lemma_datagrams_stay(buf, queue, budget);
}

proof fn lemma_responses_stay(buf: Seq<u8>, queue: Seq<VarInt>, budget: usize)
    ensures
        ({
            let (frames, left) = fit_responses(buf, queue, budget);
            &&& left.len() <= queue.len()
            &&& left == queue.skip(queue.len() - left.len())
            &&& left.len() > 0 ==> frames.len() + encoding(0x348c_6752_9ef8_c7be).len() + encoding(
                left[0].value(),
            ).len() > budget
        }),
    decreases queue.len(),
{
    if queue.len() == 0 || buf.len() + ping_frame(true, queue[0]).len() > budget {
        assert(queue.skip(0) =~= queue);
    } else {
        let rest = queue.skip(1);
        lemma_responses_stay(buf + ping_frame(true, queue[0]), rest, budget);
        let left = fit_responses(buf, queue, budget).1;
        assert(rest.skip(rest.len() - left.len()) =~= queue.skip(queue.len() - left.len()));
    }
}

proof fn lemma_datagrams_stay(buf: Seq<u8>, queue: Seq<Seq<u8>>, budget: usize)
    ensures
        ({
            let (frames, left) = fit_datagrams(buf, queue, budget);
            &&& left.len() <= queue.len()
            &&& left == queue.skip(queue.len() - left.len())
            &&& left.len() > 0 ==> frames.len() + 1 + encoding(left[0].len() as u64).len()
                + left[0].len() > budget
        }),
    decreases queue.len(),
{
    if queue.len() == 0 || buf.len() + datagram_frame(queue[0]).len() > budget {
        assert(queue.skip(0) =~= queue);
    } else {
        let rest = queue.skip(1);
        lemma_datagrams_stay(buf + datagram_frame(queue[0]), rest, budget);
        let left = fit_datagrams(buf, queue, budget).1;
        assert(rest.skip(rest.len() - left.len()) =~= queue.skip(queue.len() - left.len()));
    }
}

} // verus!
