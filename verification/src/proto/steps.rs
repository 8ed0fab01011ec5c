//! How processing received octets depends on what was received and what was not.

use crate::proto::frame::{next_frame, Frame};
use crate::proto::record::next_record;
use crate::proto::state::{on_frame, run, run_frames, run_input, State, Step, StreamCall};
use crate::time::Instant;
use crate::transport_error::TransportError;
use vstd::prelude::*;

verus! {

/// A frame is processed without regard to octets that wait behind it.
#[verifier::rlimit(40)]
#[verifier::spinoff_prover]
proof fn lemma_frame_elsewhere(
    st: State,
    input: Seq<u8>,
    record: Option<(Seq<u8>, usize)>,
    frame: Frame<Seq<u8>>,
    len: usize,
    now: Instant,
)
    ensures
        match on_frame(st, frame, len, now) {
            Ok((next, call)) => on_frame(State { input, record, ..st }, frame, len, now) == Ok::<
                _,
                TransportError<Seq<char>>,
            >((State { input, record, ..next }, call)) && next.input == st.input && next.config
                == st.config && next.streaming == st.streaming,
            Err(e) => on_frame(State { input, record, ..st }, frame, len, now) == Err::<
                (State, Option<StreamCall<Seq<u8>>>),
                _,
            >(e),
        },
{
}

/// Frames are processed without regard to octets that wait behind them.
#[verifier::rlimit(40)]
#[verifier::spinoff_prover]
pub proof fn lemma_frames_elsewhere(
    st: State,
    input: Seq<u8>,
    record: Option<(Seq<u8>, usize)>,
    s: Seq<u8>,
    len: usize,
    now: Instant,
)
    ensures
        run_frames(State { input, record, ..st }, s, len, now) == (
            State { input, ..run_frames(st, s, len, now).0 },
            run_frames(st, s, len, now).1,
        ),
    decreases s.len(),
{
    if let Ok(Some((frame, rest))) = next_frame(s) {
        lemma_frame_elsewhere(st, input, record, frame, len, now);
        if let Ok((next, call)) = on_frame(st, frame, len, now) {
            if call is None && !(next.error is Some || rest.len() >= s.len()) {
                lemma_frames_elsewhere(next, input, record, rest, len, now);
            }
        }
    }
}

/// Processing frames leaves the configuration and what was received later alone.
#[verifier::rlimit(40)]
#[verifier::spinoff_prover]
pub proof fn lemma_frames_keep(st: State, s: Seq<u8>, len: usize, now: Instant)
    ensures
        run_frames(st, s, len, now).0.input == st.input,
        run_frames(st, s, len, now).0.config == st.config,
        run_frames(st, s, len, now).1 matches Ok(Step::Done) ==> run_frames(
            st,
            s,
            len,
            now,
        ).0.streaming == st.streaming && run_frames(st, s, len, now).0.record is None,
    decreases s.len(),
{
    if let Ok(Some((frame, rest))) = next_frame(s) {
        lemma_frame_elsewhere(st, st.input, st.record, frame, len, now);
        if let Ok((next, call)) = on_frame(st, frame, len, now) {
            if call is None && !(next.error is Some || rest.len() >= s.len()) {
                lemma_frames_keep(next, rest, len, now);
            }
        }
    }
}

/// Only the octets to be processed matter, not those that were buffered before.
pub proof fn lemma_any_input(a: State, b: State, s: Seq<u8>, now: Instant)
    requires
        a == (State { input: a.input, ..b }),
    ensures
        run_input(a, s, now) == run_input(b, s, now),
    decreases s.len(),
{
    if let Ok(Some((payload, rest))) = next_record(s, a.config.max_record_size.value()) {
        if rest.len() < s.len() && a.error is Some {
            lemma_any_input(a, b, rest, now);
        }
    }
}

/// When processing stops without a call, nothing is left to be processed.
pub proof fn lemma_at_rest(st: State, now: Instant)
    ensures
        run(st, now).1 matches Ok(Step::Call(_)) || run(st, now).0.record is None,
{
    match st.record {
        Some((rest, len)) => {
            lemma_frames_at_rest(st, rest, len, now);
            let next = run_frames(st, rest, len, now).0;
            lemma_input_at_rest(next, next.input, now);
        },
        None => lemma_input_at_rest(st, st.input, now),
    }
}

/// When frames were processed without a call, none is left.
pub proof fn lemma_frames_at_rest(st: State, s: Seq<u8>, len: usize, now: Instant)
    ensures
        run_frames(st, s, len, now).1 matches Ok(Step::Call(_)) || run_frames(
            st,
            s,
            len,
            now,
        ).0.record is None,
    decreases s.len(),
{
    if let Ok(Some((frame, rest))) = next_frame(s) {
        if let Ok((next, None)) = on_frame(st, frame, len, now) {
            if !(next.error is Some || rest.len() >= s.len()) {
                lemma_frames_at_rest(next, rest, len, now);
            }
        }
    }
}

/// When input was processed without a call, no record is left.
pub proof fn lemma_input_at_rest(st: State, s: Seq<u8>, now: Instant)
    ensures
        run_input(st, s, now).1 matches Ok(Step::Call(_)) || run_input(
            st,
            s,
            now,
        ).0.record is None,
    decreases s.len(),
{
    if let Ok(Some((payload, rest))) = next_record(s, st.config.max_record_size.value()) {
        if rest.len() < s.len() {
            if st.error is Some {
                lemma_input_at_rest(st, rest, now);
            } else {
                let started = State { input: rest, idle: st.idle.rearmed(now), ..st };
                lemma_frames_at_rest(started, payload, payload.len() as usize, now);
                let next = run_frames(started, payload, payload.len() as usize, now).0;
                lemma_input_at_rest(next, rest, now);
            }
        }
    }
}

} // verus!
