//! What every operation of a connection keeps.

use crate::buffer::take_octets;
use crate::mux::codec::{frame_at, frames_in, length_at, payload_of, Frame};
use crate::mux::error::{close_for, Error};
use crate::mux::parameters::lemma_announced_record_size;
use crate::mux::state::{
    answered, closing, completed, datagram_sent, on_frame, pinged, polled, polled_streams,
    record_received, run, valid, Close, Event, Issued, Phase, State, Step,
};
use crate::streams::event::StreamEvent;
use crate::streams::wire::{decoded, Frame as WireFrame};
use crate::transport_error::TransportError;
use crate::varint::VarInt;
use vstd::prelude::*;

verus! {

/// Whether the parameters in a frame announce a record size that can be announced.
pub open spec fn announceable(frame: Frame<Seq<u8>>) -> bool {
    frame matches Frame::Parameters(p) ==> p.max_record_size.in_range()
}

proof fn lemma_frame_announceable(s: Seq<u8>)
    ensures
        frame_at(s) matches Ok((frame, _)) ==> announceable(frame),
{
    if let Ok((WireFrame::Other(ty), body)) = decoded(s) {
        if let Ok((len, rest)) = length_at(body) {
            if let Some((blob, _)) = take_octets(rest, len as u64) {
                lemma_announced_record_size(blob);
            }
        }
    }
}

/// The parameters in decoded frames announce record sizes that can be announced.
pub proof fn lemma_frames_announceable(s: Seq<u8>)
    ensures
        frames_in(s) matches Ok(frames) ==> forall|i: int|
            0 <= i < frames.len() ==> announceable(#[trigger] frames[i]),
    decreases s.len(),
{
    if s.len() > 0 {
        lemma_frame_announceable(s);
        if let Ok((frame, rest)) = frame_at(s) {
            if rest.len() < s.len() {
                lemma_frames_announceable(rest);
            }
        }
    }
}

/// Starting to close keeps what is valid.
pub proof fn lemma_closing_valid(st: State, close: Close<Seq<u8>>)
    requires
        valid(st),
    ensures
        valid(closing(st, close)),
        valid(closing(State { pending: Seq::empty(), ..st }, close)),
{
}

proof fn lemma_frame_valid(st: State, frame: Frame<Seq<u8>>)
    requires
        valid(st),
        announceable(frame),
    ensures
        on_frame(st, frame) matches Ok((next, _)) ==> valid(next),
{
}

/// Taking the first frame off and processing it keeps what is valid.
pub proof fn lemma_rest_valid(st: State)
    requires
        valid(st),
        st.pending.len() > 0,
    ensures
        valid(State { pending: st.pending.skip(1), ..st }),
        on_frame(State { pending: st.pending.skip(1), ..st }, st.pending[0]) matches Ok((next, _))
            ==> valid(next),
{
    let rest = State { pending: st.pending.skip(1), ..st };
    assert forall|i: int| 0 <= i < rest.pending.len() implies announceable(
        #[trigger] rest.pending[i],
    ) by {
        assert(rest.pending[i] == st.pending[i + 1]);
    }
    assert(valid(rest));
    assert(announceable(st.pending[0]));
    lemma_frame_valid(rest, st.pending[0]);
}

/// Processing frames keeps what is valid, and nothing waits when it stops without a call.
pub proof fn lemma_run_valid(st: State)
    requires
        valid(st),
    ensures
        valid(run(st).0),
        run(st).1 matches Ok(Step::Call(_)) || run(st).0.pending.len() == 0,
    decreases st.pending.len(),
{
    if st.pending.len() > 0 {
        let rest = State { pending: st.pending.skip(1), ..st };
        lemma_rest_valid(st);
        match on_frame(rest, st.pending[0]) {
            Ok((next, None)) => {
                if next.pending.len() < st.pending.len() {
                    lemma_run_valid(next);
                }
            },
            Ok((next, Some(call))) => {},
            Err(e) => lemma_closing_valid(st, Close::Transport(close_for(e))),
        }
    }
}

/// The connection when it starts to process the frames of a record is valid.
pub proof fn lemma_started_valid(st: State, payload: Seq<u8>, size: usize)
    requires
        valid(st),
    ensures
        frames_in(payload) matches Ok(frames) ==> valid(
            State { pending: frames, allocation_size: size, ..st },
        ),
{
    lemma_frames_announceable(payload);
    if let Ok(frames) = frames_in(payload) {
        let started = State { pending: frames, allocation_size: size, ..st };
        assert forall|i: int| 0 <= i < started.pending.len() implies (#[trigger] started.pending[i]
            matches Frame::Parameters(p) ==> p.max_record_size.in_range()) by {
            assert(announceable(frames[i]));
        }
    }
}

/// Whatever is received and however the stream state machine answers, what is valid stays so.
pub proof fn law_receiving_keeps_valid(
    st: State,
    s: Seq<u8>,
    answer: Result<Seq<StreamEvent>, TransportError<Seq<char>>>,
)
    requires
        valid(st),
    ensures
        valid(record_received(st, s).0),
        valid(answered(st, answer).0),
{
    if let Err(e) = record_received(st, s).1 {
        lemma_closing_valid(st, Close::Transport(close_for(e)));
    }
    if let Ok(payload) = payload_of(s) {
        lemma_started_valid(st, payload, payload.len() as usize);
        if let Ok(frames) = frames_in(payload) {
            lemma_run_valid(
                State { pending: frames, allocation_size: payload.len() as usize, ..st },
            );
        }
    }
    match answer {
        Ok(events) => lemma_run_valid(
            State {
                events: st.events + events.map_values(|e: StreamEvent| Event::Stream(e)),
                ..st
            },
        ),
        Err(e) => lemma_closing_valid(
            st,
            Close::Transport(close_for(Error::Protocol(e))),
        ),
    }
}

/// Pings, datagrams, closing and completions keep what is valid.
pub proof fn law_requests_keep_valid(
    st: State,
    sequence: VarInt,
    data: Seq<u8>,
    close: Close<Seq<u8>>,
    t: Issued,
)
    requires
        valid(st),
    ensures
        valid(pinged(st, sequence).0),
        valid(datagram_sent(st, data).0),
        valid(closing(st, close)),
        valid(completed(st, t).0),
{
    lemma_closing_valid(st, close);
}

/// Issuing records keeps what is valid as long as they can be numbered.
pub proof fn law_sending_keeps_valid(st: State, payload: Option<Seq<u8>>)
    requires
        valid(st),
        st.next_transmit < u64::MAX,
    ensures
        valid(polled(st).0),
        st.phase == Phase::Open && st.urgent.len() == 0 ==> valid(polled_streams(st, payload).0),
{
    if st.urgent.len() > 0 {
        let urgent = st.urgent.skip(1);
        assert forall|i: int| 0 <= i < urgent.len() implies #[trigger] urgent[i] == st.urgent[i
            + 1] by {}
    }
    if st.auxiliary.len() > 0 {
        let auxiliary = st.auxiliary.skip(1);
        assert forall|i: int| 0 <= i < auxiliary.len() implies #[trigger] auxiliary[i]
            == st.auxiliary[i + 1] by {}
    }
}

} // verus!
