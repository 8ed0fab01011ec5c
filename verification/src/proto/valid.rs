//! What every operation of a connection keeps.

use crate::buffer::{lemma_take_varint_shortens, take_varint};
use crate::proto::event::ConnectionError;
use crate::proto::frame::{frame_body, next_frame, ping_frame, Frame};
use crate::proto::params::{announced, first_fault, lemma_announced_record_size};
use crate::proto::record::next_record;
use crate::proto::state::{
    answered, closed, datagram_sent, enqueued, fit_datagrams, fit_responses, hello, input_received,
    lost, on_frame, pings, record_budget, record_received, run, run_frames, run_input, sendable,
    timeout_handled, transmission, valid, State,
};
use crate::text::numeral;
use crate::time::Instant;
use crate::transport_error::TransportError;
use crate::transport_parameters::{split, Parameter};
use crate::varint::{group_varint, VarInt, VARINT_BOUND};
use vstd::prelude::*;
use vstd::utf8::encode_utf8;

verus! {

broadcast use group_varint;

/// A character takes at most four octets.
proof fn lemma_encoded_text(s: Seq<char>)
    ensures
        encode_utf8(s).len() <= 4 * s.len(),
    decreases s.len(),
{
    if s.len() > 0 {
        lemma_encoded_text(s.drop_first());
    }
}

/// First number that takes more than `k` hexadecimal digits.
spec fn digits_bound(k: nat) -> nat
    decreases k,
{
    if k == 0 {
        1
    } else {
        16 * digits_bound((k - 1) as nat)
    }
}

proof fn lemma_numeral_len(n: nat, k: nat)
    requires
        n < digits_bound(k),
        k > 0,
    ensures
        numeral(n, 16).len() <= k,
    decreases k,
{
    if n >= 16 {
        assert(digits_bound(0) == 1);
        assert(n / 16 < digits_bound((k - 1) as nat));
        lemma_numeral_len(n / 16, (k - 1) as nat);
    }
}

proof fn lemma_short_text(s: Seq<char>)
    requires
        s.len() <= 100,
    ensures
        encode_utf8(s).len() < VARINT_BOUND,
{
    lemma_encoded_text(s);
}

proof fn lemma_number_text(ty: u64)
    ensures
        numeral(ty as nat, 16).len() <= 16,
{
    reveal_with_fuel(digits_bound, 17);
    lemma_numeral_len(ty as nat, 16);
}

/// The message about a record that is too large can be sent.
proof fn lemma_record_error(s: Seq<u8>, max_size: u64)
    ensures
        next_record(s, max_size) matches Err(e) ==> sendable(e),
{
    reveal_strlit("record exceeds max_record_size");
    lemma_short_text("record exceeds max_record_size"@);
}

proof fn lemma_body_error(ty: u64, s: Seq<u8>)
    ensures
        frame_body(ty, s) matches Err(e) ==> sendable(e),
{
    reveal_strlit("truncated frame");
    reveal_strlit("RESET_STREAM_AT reliable size exceeds final size");
    reveal_strlit("prohibited or unknown frame type ");
    reveal_strlit("0x");
    lemma_short_text("truncated frame"@);
    lemma_short_text("RESET_STREAM_AT reliable size exceeds final size"@);
    lemma_number_text(ty);
    lemma_short_text(
        "prohibited or unknown frame type "@ + ("0x"@ + numeral(ty as nat, 16)),
    );
}

/// The message about a malformed frame can be sent.
proof fn lemma_frame_error(s: Seq<u8>)
    ensures
        next_frame(s) matches Err(e) ==> sendable(e),
    decreases s.len(),
{
    reveal_strlit("truncated frame");
    lemma_short_text("truncated frame"@);
    if s.len() > 0 {
        lemma_take_varint_shortens(s);
        if let Some((ty, rest)) = take_varint(s) {
            lemma_body_error(ty.value(), rest);
            if rest.len() < s.len() {
                lemma_frame_error(rest);
            }
        }
    }
}

proof fn lemma_fault(params: Seq<Parameter<Seq<u8>>>, n: int)
    ensures
        first_fault(params, n) matches Some(reason) ==> encode_utf8(reason).len() < VARINT_BOUND,
    decreases n,
{
    reveal_strlit("prohibited QUIC v1 transport parameter");
    reveal_strlit("duplicate transport parameter");
    reveal_strlit("malformed parameter value");
    lemma_short_text("prohibited QUIC v1 transport parameter"@);
    lemma_short_text("duplicate transport parameter"@);
    lemma_short_text("malformed parameter value"@);
    if n > 0 {
        lemma_fault(params, n - 1);
    }
}

/// The message about unacceptable parameters can be sent.
proof fn lemma_params_error(s: Seq<u8>)
    ensures
        announced(s) matches Err(e) ==> sendable(e),
{
    lemma_fault(split(s).0, split(s).0.len() as int);
    reveal_strlit("truncated parameter id");
    reveal_strlit("truncated parameter length");
    reveal_strlit("oversized parameter");
    reveal_strlit("truncated parameter value");
    reveal_strlit("max_record_size below the required minimum");
    reveal_strlit("malformed");
    reveal_strlit("illegal value");
    lemma_short_text("truncated parameter id"@);
    lemma_short_text("truncated parameter length"@);
    lemma_short_text("oversized parameter"@);
    lemma_short_text("truncated parameter value"@);
    lemma_short_text("max_record_size below the required minimum"@);
    lemma_short_text("malformed"@);
    lemma_short_text("illegal value"@);
}

/// The message about a frame that breaks the protocol can be sent.
proof fn lemma_on_frame_error(st: State, frame: Frame<Seq<u8>>, len: usize, now: Instant)
    ensures
        on_frame(st, frame, len, now) matches Err(e) ==> sendable(e),
{
    if let Frame::TransportParameters(blob) = frame {
        lemma_params_error(blob);
    }
    reveal_strlit("duplicate QX_TRANSPORT_PARAMETERS frame");
    reveal_strlit("first frame was not QX_TRANSPORT_PARAMETERS");
    reveal_strlit("stream payload received out of order");
    reveal_strlit("DATAGRAM frame received but datagrams are disabled");
    reveal_strlit("oversized DATAGRAM frame");
    reveal_strlit("QX_PING sequence number did not increase");
    reveal_strlit("QX_PING response for a request we never sent");
    lemma_short_text("duplicate QX_TRANSPORT_PARAMETERS frame"@);
    lemma_short_text("first frame was not QX_TRANSPORT_PARAMETERS"@);
    lemma_short_text("stream payload received out of order"@);
    lemma_short_text("DATAGRAM frame received but datagrams are disabled"@);
    lemma_short_text("oversized DATAGRAM frame"@);
    lemma_short_text("QX_PING sequence number did not increase"@);
    lemma_short_text("QX_PING response for a request we never sent"@);
}

proof fn lemma_body_ping(ty: u64, s: Seq<u8>)
    ensures
        frame_body(ty, s) matches Ok((Frame::PingRequest(seq), _)) ==> seq.in_range(),
{
    lemma_take_varint_shortens(s);
}

/// Sequence numbers of pings are integers that can be sent back.
proof fn lemma_ping_in_range(s: Seq<u8>)
    ensures
        next_frame(s) matches Ok(Some((Frame::PingRequest(seq), _))) ==> seq.in_range(),
    decreases s.len(),
{
    if s.len() > 0 {
        if let Some((ty, rest)) = take_varint(s) {
            lemma_body_ping(ty.value(), rest);
            if rest.len() < s.len() {
                lemma_ping_in_range(rest);
            }
        }
    }
}

proof fn lemma_frame_valid(st: State, frame: Frame<Seq<u8>>, len: usize, now: Instant)
    requires
        valid(st),
        frame matches Frame::PingRequest(seq) ==> seq.in_range(),
    ensures
        on_frame(st, frame, len, now) matches Ok((next, _)) ==> valid(next),
{
    if let Frame::TransportParameters(blob) = frame {
        lemma_announced_record_size(blob);
    }
}

proof fn lemma_frames_valid(st: State, s: Seq<u8>, len: usize, now: Instant)
    requires
        valid(st),
    ensures
        valid(run_frames(st, s, len, now).0),
    decreases s.len(),
{
    lemma_frame_error(s);
    lemma_ping_in_range(s);
    if let Ok(Some((frame, rest))) = next_frame(s) {
        lemma_on_frame_error(st, frame, len, now);
        lemma_frame_valid(st, frame, len, now);
        if let Ok((next, None)) = on_frame(st, frame, len, now) {
            if !(next.error is Some || rest.len() >= s.len()) {
                lemma_frames_valid(next, rest, len, now);
            }
        }
    }
}

proof fn lemma_input_valid(st: State, s: Seq<u8>, now: Instant)
    requires
        valid(st),
    ensures
        valid(run_input(st, s, now).0),
    decreases s.len(),
{
    lemma_record_error(s, st.config.max_record_size.value());
    if let Ok(Some((payload, rest))) = next_record(s, st.config.max_record_size.value()) {
        if rest.len() < s.len() {
            if st.error is Some {
                lemma_input_valid(st, rest, now);
            } else {
                let started = State { input: rest, idle: st.idle.rearmed(now), ..st };
                lemma_frames_valid(started, payload, payload.len() as usize, now);
                let next = run_frames(started, payload, payload.len() as usize, now).0;
                lemma_input_valid(next, rest, now);
            }
        }
    }
}

proof fn lemma_run_valid(st: State, now: Instant)
    requires
        valid(st),
    ensures
        valid(run(st, now).0),
{
    match st.record {
        Some((rest, len)) => {
            lemma_frames_valid(st, rest, len, now);
            let next = run_frames(st, rest, len, now).0;
            lemma_input_valid(next, next.input, now);
        },
        None => lemma_input_valid(st, st.input, now),
    }
}

/// Whatever is received and however the stream state machine answers, what is valid stays so,
/// provided that the messages of that machine can be sent.
pub proof fn law_receiving_keeps_valid(
    st: State,
    data: Seq<u8>,
    answer: Result<bool, TransportError<Seq<char>>>,
    now: Instant,
)
    requires
        valid(st),
        answer matches Err(e) ==> sendable(e),
    ensures
        valid(input_received(st, data, now).0),
        valid(record_received(st, data, now).0),
        valid(answered(st, answer, now).0),
{
    lemma_run_valid(State { input: st.input + data, streaming: true, ..st }, now);
    lemma_frames_valid(
        State { idle: st.idle.rearmed(now), ..st },
        data,
        data.len() as usize,
        now,
    );
    if let Ok(max_data) = answer {
        lemma_run_valid(State { max_data_pending: st.max_data_pending || max_data, ..st }, now);
    }
}

/// Datagrams that were not sent yet are among those that waited.
proof fn lemma_datagrams_left(buf: Seq<u8>, queue: Seq<Seq<u8>>, budget: usize)
    requires
        forall|i: int| 0 <= i < queue.len() ==> (#[trigger] queue[i]).len() < VARINT_BOUND,
    ensures
        forall|i: int|
            0 <= i < fit_datagrams(buf, queue, budget).1.len() ==> (#[trigger] fit_datagrams(
                buf,
                queue,
                budget,
            ).1[i]).len() < VARINT_BOUND,
    decreases queue.len(),
{
    if queue.len() > 0 {
        let f = crate::streams::wire::datagram_frame(queue[0]);
        if buf.len() + f.len() <= budget {
            assert forall|i: int| 0 <= i < queue.skip(1).len() implies (#[trigger] queue.skip(
                1,
            )[i]).len() < VARINT_BOUND by {
                assert(queue.skip(1)[i] == queue[i + 1]);
            }
            lemma_datagrams_left(buf + f, queue.skip(1), budget);
            assert(fit_datagrams(buf, queue, budget) == fit_datagrams(
                buf + f,
                queue.skip(1),
                budget,
            ));
        } else {
            assert(fit_datagrams(buf, queue, budget).1 == queue);
        }
    } else {
        assert(fit_datagrams(buf, queue, budget).1 == queue);
    }
}

/// Ping responses that were not sent yet are among those that waited.
proof fn lemma_responses_left(buf: Seq<u8>, queue: Seq<VarInt>, budget: usize)
    requires
        forall|i: int| 0 <= i < queue.len() ==> (#[trigger] queue[i]).in_range(),
    ensures
        forall|i: int|
            0 <= i < fit_responses(buf, queue, budget).1.len() ==> (#[trigger] fit_responses(
                buf,
                queue,
                budget,
            ).1[i]).in_range(),
    decreases queue.len(),
{
    let f = ping_frame(true, queue[0]);
    if queue.len() == 0 || buf.len() + f.len() > budget {
        assert(fit_responses(buf, queue, budget).1 == queue);
    } else {
        assert forall|i: int| 0 <= i < queue.skip(1).len() implies (#[trigger] queue.skip(
            1,
        )[i]).in_range() by {
            assert(queue.skip(1)[i] == queue[i + 1]);
        }
        lemma_responses_left(buf + f, queue.skip(1), budget);
        assert(fit_responses(buf, queue, budget) == fit_responses(buf + f, queue.skip(1), budget));
    }
}

/// Queueing a datagram keeps what is valid.
pub proof fn law_datagram_keeps_valid(st: State, data: Seq<u8>)
    requires
        valid(st),
    ensures
        valid(datagram_sent(st, data).0),
{
    let q = enqueued(st.datagram_send, st.config.datagram_send_queue, data);
    if data.len() < VARINT_BOUND {
        assert forall|i: int| 0 <= i < q.len() implies (#[trigger] q[i]).len() < VARINT_BOUND by {
            if i < q.len() - 1 {
                if st.datagram_send.len() >= st.config.datagram_send_queue
                    && st.datagram_send.len() > 0 {
                    assert(q[i] == st.datagram_send[i + 1]);
                } else {
                    assert(q[i] == st.datagram_send[i]);
                }
            }
        }
    }
}

/// Sending, closing and looking at the timeouts keep what is valid.
pub proof fn law_sending_keeps_valid(st: State, error_code: VarInt, data: Seq<u8>, now: Instant)
    requires
        valid(st),
        error_code.in_range(),
        data.len() < VARINT_BOUND,
        st.ping_request_pending ==> st.next_ping_seq < VARINT_BOUND,
    ensures
        valid(transmission(st, now).0),
        valid(closed(st, error_code, data)),
        valid(timeout_handled(st, now)),
        valid(lost(st, ConnectionError::TransportClosed)),
{
    let budget = record_budget(st);
    let start = if st.params_sent {
        Seq::empty()
    } else {
        hello(st.config)
    };
    lemma_responses_left(start, st.ping_responses, budget);
    let b1 = fit_responses(start, st.ping_responses, budget).0;
    let b2 = if pings(st, b1) {
        b1 + ping_frame(false, VarInt::of(st.next_ping_seq))
    } else {
        b1
    };
    lemma_datagrams_left(b2, st.datagram_send, budget);
}

} // verus!
