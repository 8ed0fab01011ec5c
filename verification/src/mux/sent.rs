//! What an endpoint sends, down to the octets on the wire.

use crate::mux::codec::law_close_fits;
use crate::mux::error::Error;
use crate::mux::received::sized;
use crate::mux::state::{
    closing, completed, datagram_sent, pinged, polled, polled_streams, Close, Control, Issued,
    Phase, Poll, State,
};
use crate::streams::frame::{ApplicationClose, ConnectionClose};
use crate::streams::wire::{datagram_frame, datagram_size};
use crate::varint::{encoding, group_varint, VarInt, VARINT_BOUND};
use vstd::prelude::*;

verus! {

broadcast use group_varint;

/// The most that a record to the peer may hold: what the peer announced, and the default until
/// it did.
pub open spec fn peer_limit(st: State) -> int {
    match st.peer {
        Some(p) => if p.max_record_size.value() <= usize::MAX {
            p.max_record_size.value() as int
        } else {
            usize::MAX as int
        },
        None => 16382int,
    }
}

/// An open connection that can number another record.
pub open spec fn sending(st: State) -> bool {
    st.phase == Phase::Open && st.next_transmit < u64::MAX && 16382 <= peer_limit(st)
}

/// Whether a record was issued: it holds the given frames, bears the number of the connection and
/// the next number of its records, and ends the connection or not.
pub open spec fn issued_as(st: State, after: State, t: Issued, payload: Seq<u8>, closes: bool) -> bool {
    &&& t.bytes == sized(payload)
    &&& t.connection == st.id
    &&& t.sequence == st.next_transmit
    &&& t.closes == closes
    &&& after.next_transmit == st.next_transmit + 1
    &&& after.phase == st.phase
    &&& after.events == st.events
    &&& after.next_completion == st.next_completion
}

/// A ping is sent with the number that the application gave, and waits behind earlier pings and
/// datagrams until the streams have nothing to send. Numbers that do not increase are refused, and
/// so is everything once the connection closes.
pub proof fn law_ping_sent(st: State, sequence: VarInt)
    requires
        sending(st),
        st.urgent.len() == 0,
        st.auxiliary.len() == 0,
    ensures
        ({
            let (asked, r) = pinged(st, sequence);
            let (after, t) = polled_streams(asked, None);
            if st.last_ping_sent matches Some(previous) && sequence.value() <= previous.value() {
                r matches Err(Error::PingSequence) && asked == st
            } else {
                &&& r is Ok
                &&& asked.last_ping_sent == Some(sequence)
                &&& polled(asked).1 matches Ok(Poll::Streams { limit }) && limit == peer_limit(st)
                &&& t matches Ok(Some(record)) && issued_as(
                    asked,
                    after,
                    record,
                    encoding(0x348c_6752_9ef8_c7bd) + encoding(sequence.value()),
                    false,
                )
                &&& after.auxiliary.len() == 0
            }
        }),
{
    let asked = pinged(st, sequence).0;
    if pinged(st, sequence).1 is Ok {
        assert(asked.auxiliary =~= seq![Control::Ping { sequence, response: false }]);
    }
}

/// A datagram is taken for sending exactly where its frame is no larger than the datagram frames
/// and the records that the peer accepts; it then waits behind earlier pings and datagrams, and
/// leaves as it is. Otherwise it is refused, for what stands against it, and nothing changes.
pub proof fn law_datagram_sent(st: State, data: Seq<u8>)
    requires
        sending(st),
        st.urgent.len() == 0,
        st.auxiliary.len() == 0,
        data.len() <= usize::MAX - 16,
        st.peer matches Some(p) ==> p.max_record_size.in_range(),
    ensures
        ({
            let (queued, r) = datagram_sent(st, data);
            let (after, t) = polled_streams(queued, None);
            let frame = encoding(0x31) + (encoding(data.len() as u64) + data);
            match st.peer {
                None => r matches Err(Error::DatagramsUnsupported) && queued == st,
                Some(p) => if data.len() >= VARINT_BOUND {
                    r matches Err(Error::VarInt(_)) && queued == st
                } else if p.max_datagram_frame_size.value() == 0 {
                    r matches Err(Error::DatagramsUnsupported) && queued == st
                } else if frame.len() <= p.max_datagram_frame_size.value() && frame.len()
                    <= p.max_record_size.value() {
                    &&& r is Ok
                    &&& t matches Ok(Some(record)) && issued_as(queued, after, record, frame, false)
                    &&& after.auxiliary.len() == 0
                } else {
                    &&& r matches Err(Error::DatagramTooLarge { size, limit })
                    &&& size == frame.len()
                    &&& limit <= p.max_datagram_frame_size.value()
                    &&& limit <= p.max_record_size.value()
                    &&& limit == p.max_datagram_frame_size.value() || limit
                        == p.max_record_size.value()
                    &&& queued == st
                },
            }
        }),
{
    let queued = datagram_sent(st, data).0;
    let frame = encoding(0x31) + (encoding(data.len() as u64) + data);
    assert(frame == datagram_frame(data));
    assert(frame.len() == datagram_size(data.len()));
    if datagram_sent(st, data).1 is Ok {
        assert(queued.auxiliary =~= seq![Control::Datagram(data)]);
    }
}

/// Answers to pings leave ahead of what streams have to send, one in a record and the oldest
/// first; what the streams hand over leaves ahead of pings and datagrams, as it is.
pub proof fn law_answers_first(st: State, sequence: VarInt, payload: Seq<u8>)
    requires
        sending(st),
        st.urgent.len() > 0,
        st.urgent[0] == (Control::<Seq<u8>>::Ping { sequence, response: true }),
        payload.len() < VARINT_BOUND,
    ensures
        ({
            let (after, r) = polled(st);
            &&& r matches Ok(Poll::Record(t))
            &&& issued_as(
                st,
                after,
                t,
                encoding(0x348c_6752_9ef8_c7be) + encoding(sequence.value()),
                false,
            )
            &&& after.urgent == st.urgent.skip(1)
            &&& after.auxiliary == st.auxiliary
        }),
        ({
            let (after, r) = polled_streams(st, Some(payload));
            &&& r matches Ok(Some(t))
            &&& issued_as(st, after, t, payload, false)
            &&& after.urgent == st.urgent
            &&& after.auxiliary == st.auxiliary
        }),
{
}

/// Closing a connection makes the next record tell the peer the code and the reason in a frame of
/// the application, in place of all else that waits; a reason is cut only where the record could
/// not hold it. Once that record was written the connection is closed, and not before.
pub proof fn law_close_told(st: State, error_code: VarInt, reason: Seq<u8>)
    requires
        sending(st),
        st.urgent.len() == 0 || !(st.urgent[0] is Parameters),
        st.next_completion == st.next_transmit,
        reason.len() + 32 <= peer_limit(st),
        peer_limit(st) < VARINT_BOUND,
    ensures
        ({
            let ending = closing(st, Close::Application(ApplicationClose { error_code, reason }));
            let (after, r) = polled(ending);
            &&& ending.phase == Phase::Closing
            &&& ending.events == st.events
            &&& r matches Ok(Poll::Record(t))
            &&& issued_as(
                ending,
                after,
                t,
                encoding(0x1d) + (encoding(error_code.value()) + (encoding(reason.len() as u64)
                    + reason)),
                true,
            )
            &&& polled(after) == (after, Ok::<Poll<Issued>, Error<Seq<char>>>(Poll::Idle))
            &&& completed(after, t).1 is Ok
            &&& completed(after, t).0.phase == Phase::Closed
        }),
{
    let close = Close::Application(ApplicationClose { error_code, reason });
    let ending = closing(st, close);
    law_close_fits(
        error_code,
        ConnectionClose { error_code, frame_type: None, reason },
        peer_limit(st) as usize,
    );
    assert(ending.urgent =~= seq![Control::Close(close)]);
    assert(polled(ending).0.urgent =~= Seq::empty());
}

/// A refusal is told like that in a frame of the transport, with the frame type where one is known
/// and zero otherwise.
pub proof fn law_refusal_told(st: State, close: ConnectionClose<Seq<u8>>)
    requires
        sending(st),
        st.urgent.len() == 0 || !(st.urgent[0] is Parameters),
        close.reason.len() + 32 <= peer_limit(st),
        peer_limit(st) < VARINT_BOUND,
    ensures
        ({
            let ending = closing(st, Close::Transport(close));
            let (after, r) = polled(ending);
            let ty = match close.frame_type {
                Some(ty) => ty.value(),
                None => 0,
            };
            &&& r matches Ok(Poll::Record(t))
            &&& issued_as(
                ending,
                after,
                t,
                encoding(0x1c) + (encoding(close.error_code.value()) + (encoding(ty) + (encoding(
                    close.reason.len() as u64,
                ) + close.reason))),
                true,
            )
        }),
{
    law_close_fits(close.error_code, close, peer_limit(st) as usize);
    assert(closing(st, Close::Transport(close)).urgent =~= seq![
        Control::Close(Close::Transport(close)),
    ]);
}

/// The completion of a record is taken exactly where it is that of the oldest record of this
/// connection that was not completed; only that of a closing record closes the connection.
pub proof fn law_completion(st: State, t: Issued)
    requires
        st.next_completion < u64::MAX,
    ensures
        ({
            let (after, r) = completed(st, t);
            &&& r is Ok <==> t.connection == st.id && t.sequence == st.next_completion
            &&& r is Err ==> after == st
            &&& t.connection != st.id ==> r == Err::<(), Error<Seq<char>>>(Error::WrongConnection)
            &&& t.connection == st.id && t.sequence != st.next_completion ==> r == Err::<
                (),
                Error<Seq<char>>,
            >(Error::OutOfOrderTransmit)
            &&& r is Ok ==> after.next_completion == st.next_completion + 1
            &&& r is Ok && t.closes ==> after.phase == Phase::Closed
            &&& r is Ok && !t.closes ==> after.phase == st.phase && after.urgent == st.urgent
                && after.auxiliary == st.auxiliary
            &&& after.events == st.events
        }),
{
}

/// Pings and datagrams leave in the order in which they were handed over, one in a record.
pub proof fn law_sent_in_order(st: State, sequence: VarInt, data: Seq<u8>)
    requires
        sending(st),
        st.next_transmit < u64::MAX - 1,
        st.urgent.len() == 0,
        st.auxiliary.len() == 0,
        st.peer matches Some(p) ==> p.max_record_size.in_range(),
        data.len() <= usize::MAX - 16,
        pinged(st, sequence).1 is Ok,
        datagram_sent(st, data).1 is Ok,
    ensures
        ({
            let ping = encoding(0x348c_6752_9ef8_c7bd) + encoding(sequence.value());
            let frame = encoding(0x31) + (encoding(data.len() as u64) + data);
            let both = datagram_sent(pinged(st, sequence).0, data).0;
            let (one, first) = polled_streams(both, None);
            let (two, second) = polled_streams(one, None);
            let (three, third) = polled_streams(two, None);
            &&& first matches Ok(Some(a)) && a.bytes == sized(ping)
            &&& second matches Ok(Some(b)) && b.bytes == sized(frame)
            &&& third matches Ok(None)
            &&& three == two
        }),
{
    let ping = Control::<Seq<u8>>::Ping { sequence, response: false };
    let both = datagram_sent(pinged(st, sequence).0, data).0;
    assert(both.auxiliary =~= seq![ping, Control::Datagram(data)]);
    assert(datagram_frame(data).len() == datagram_size(data.len()));
    let one = polled_streams(both, None).0;
    assert(one.auxiliary =~= seq![Control::Datagram(data)]);
    let two = polled_streams(one, None).0;
    assert(two.auxiliary =~= Seq::empty());
}

} // verus!
