//! Whom an event wakes, and how waiting on a connection ends.

use crate::buffer::octets;
use crate::proto::connection::Connection;
use crate::proto::event::{ConnectionError, Event, Reason};
use crate::proto::state::{valid, State};
use crate::stream_id::{Dir, StreamId};
use crate::streams::event::StreamEvent;
use bytes::Bytes;
use vstd::prelude::*;

verus! {

/// Which tasks that wait on single streams are woken.
#[derive(Debug, Clone, Copy, PartialEq, Eq, Structural)]
pub enum Wake {
    /// None.
    Nobody,
    /// The one that waits on this stream.
    Stream(StreamId),
    /// All.
    Everybody,
}

/// Which tasks are woken.
#[derive(Debug, Clone, Copy, PartialEq, Eq, Structural)]
pub struct Wakeups {
    /// Those that wait for the handshake.
    pub connected: bool,
    /// Those that wait for the end of the connection.
    pub closed: bool,
    /// Those that wait for datagrams.
    pub datagrams: bool,
    /// Those that accept bidirectional streams.
    pub incoming_bi: bool,
    /// Those that accept unidirectional streams.
    pub incoming_uni: bool,
    /// Those that open bidirectional streams.
    pub available_bi: bool,
    /// Those that open unidirectional streams.
    pub available_uni: bool,
    /// Those that read.
    pub readers: Wake,
    /// Those that write.
    pub writers: Wake,
}

/// Nobody is woken.
pub open spec fn nobody() -> Wakeups {
    Wakeups {
        connected: false,
        closed: false,
        datagrams: false,
        incoming_bi: false,
        incoming_uni: false,
        available_bi: false,
        available_uni: false,
        readers: Wake::Nobody,
        writers: Wake::Nobody,
    }
}

/// Everybody is woken.
pub open spec fn everybody() -> Wakeups {
    Wakeups {
        connected: true,
        closed: true,
        datagrams: true,
        incoming_bi: true,
        incoming_uni: true,
        available_bi: true,
        available_uni: true,
        readers: Wake::Everybody,
        writers: Wake::Everybody,
    }
}

/// Whom an event wakes.
pub open spec fn wakeups(event: Event<Seq<char>, Seq<u8>>) -> Wakeups {
    match event {
        Event::Connected => Wakeups { connected: true, ..nobody() },
        Event::Stream(StreamEvent::Opened { dir }) => Wakeups {
            incoming_bi: dir == Dir::Bi,
            incoming_uni: dir == Dir::Uni,
            ..nobody()
        },
        Event::Stream(StreamEvent::Available { dir }) => Wakeups {
            available_bi: dir == Dir::Bi,
            available_uni: dir == Dir::Uni,
            ..nobody()
        },
        Event::Stream(StreamEvent::Readable { id }) => Wakeups {
            readers: Wake::Stream(id),
            ..nobody()
        },
        Event::Stream(StreamEvent::Writable { id }) => Wakeups {
            writers: Wake::Stream(id),
            ..nobody()
        },
        Event::Stream(StreamEvent::Stopped { id, .. }) => Wakeups {
            writers: Wake::Stream(id),
            ..nobody()
        },
        Event::Stream(StreamEvent::Finished { .. }) => nobody(),
        Event::DatagramReceived => Wakeups { datagrams: true, ..nobody() },
        Event::ConnectionLost { .. } => everybody(),
    }
}

/// Whom an event wakes.
pub fn dispatch(event: &Event) -> (w: Wakeups)
    ensures
        w == wakeups(event@),
{
    let mut w = Wakeups {
        connected: false,
        closed: false,
        datagrams: false,
        incoming_bi: false,
        incoming_uni: false,
        available_bi: false,
        available_uni: false,
        readers: Wake::Nobody,
        writers: Wake::Nobody,
    };
    match event {
        Event::Connected => {
            w.connected = true;
        },
        Event::Stream(StreamEvent::Opened { dir }) => {
            w.incoming_bi = *dir == Dir::Bi;
            w.incoming_uni = *dir == Dir::Uni;
        },
        Event::Stream(StreamEvent::Available { dir }) => {
            w.available_bi = *dir == Dir::Bi;
            w.available_uni = *dir == Dir::Uni;
        },
        Event::Stream(StreamEvent::Readable { id }) => {
            w.readers = Wake::Stream(*id);
        },
        Event::Stream(StreamEvent::Writable { id }) => {
            w.writers = Wake::Stream(*id);
        },
        Event::Stream(StreamEvent::Stopped { id, .. }) => {
            w.writers = Wake::Stream(*id);
        },
        Event::Stream(StreamEvent::Finished { .. }) => {},
        Event::DatagramReceived => {
            w.datagrams = true;
        },
        Event::ConnectionLost { .. } => {
            w.connected = true;
            w.closed = true;
            w.datagrams = true;
            w.incoming_bi = true;
            w.incoming_uni = true;
            w.available_bi = true;
            w.available_uni = true;
            w.readers = Wake::Everybody;
            w.writers = Wake::Everybody;
        },
    }
    w
}

/// How waiting for the handshake ends, if it does: with the connection established, or with
/// the reason it ended for.
pub fn handshake_outcome(conn: &Connection) -> (r: Option<Result<(), ConnectionError>>)
    ensures
        match conn@.error {
            Some(reason) => r matches Some(Err(e)) && e@ == reason,
            None => if conn@.peer_params is Some {
                r matches Some(Ok(()))
            } else {
                r is None
            },
        },
{
    match conn.error() {
        Some(reason) => Some(Err(reason.duplicate())),
        None => if conn.is_established() {
            Some(Ok(()))
        } else {
            None
        },
    }
}

/// Why a stream can no longer be opened, accepted or used, if so.
pub fn lost_reason(conn: &Connection) -> (r: Option<ConnectionError>)
    ensures
        match conn@.error {
            Some(reason) => r is Some && r->0@ == reason,
            None => r is None,
        },
{
    match conn.error() {
        Some(reason) => Some(reason.duplicate()),
        None => None,
    }
}

/// How waiting for a datagram ends, if it does: datagrams that arrived are delivered even
/// after the connection ended.
pub fn datagram_outcome(conn: &mut Connection) -> (r: Option<Result<Bytes, ConnectionError>>)
    requires
        valid(old(conn)@),
    ensures
        if old(conn)@.datagram_recv.len() > 0 {
            &&& r matches Some(Ok(data))
            &&& octets(data) == old(conn)@.datagram_recv[0]
            &&& final(conn)@ == (State {
                datagram_recv: old(conn)@.datagram_recv.skip(1),
                ..old(conn)@
            })
        } else {
            &&& final(conn)@ == old(conn)@
            &&& match old(conn)@.error {
                Some(reason) => r matches Some(Err(e)) && e@ == reason,
                None => r is None,
            }
        },
        valid(final(conn)@),
{
    match conn.recv_datagram() {
        Some(data) => Some(Ok(data)),
        None => match conn.error() {
            Some(reason) => Some(Err(reason.duplicate())),
            None => None,
        },
    }
}

/// Every task is woken exactly by what it waits for, and all are by the loss of the connection:
/// those that wait for the handshake by its end, those that accept streams of a direction when the
/// peer opened some of it, those that open streams of a direction when some of it may be opened,
/// those that wait for datagrams when one arrived, the reader of a stream when it has something to
/// read, and its writer when it takes data again or the peer stopped it.
pub proof fn law_woken_exactly(event: Event<Seq<char>, Seq<u8>>, id: StreamId)
    ensures
        ({
            let w = wakeups(event);
            let lost = event is ConnectionLost;
            let stream = match event {
                Event::Stream(e) => Some(e),
                _ => None,
            };
            &&& w.connected <==> event is Connected || lost
            &&& w.closed <==> lost
            &&& w.datagrams <==> event is DatagramReceived || lost
            &&& w.incoming_bi <==> stream == Some(StreamEvent::Opened { dir: Dir::Bi }) || lost
            &&& w.incoming_uni <==> stream == Some(StreamEvent::Opened { dir: Dir::Uni }) || lost
            &&& w.available_bi <==> stream == Some(StreamEvent::Available { dir: Dir::Bi }) || lost
            &&& w.available_uni <==> stream == Some(StreamEvent::Available { dir: Dir::Uni })
                || lost
            &&& w.readers == Wake::Everybody <==> lost
            &&& w.readers == Wake::Stream(id) <==> stream == Some(StreamEvent::Readable { id })
            &&& w.writers == Wake::Everybody <==> lost
            &&& w.writers == Wake::Stream(id) <==> {
                ||| stream == Some(StreamEvent::Writable { id })
                ||| stream matches Some(StreamEvent::Stopped { id: stopped, .. }) && stopped == id
            }
        }),
{
}

/// Nobody waits for ever on a connection that ended: its loss wakes every task.
pub proof fn law_loss_wakes_everybody(reason: Reason)
    ensures
        wakeups(Event::ConnectionLost { reason }) == everybody(),
{
}

/// Stream activity wakes at most the tasks of the stream or the direction it concerns.
pub proof fn law_stream_events_are_local(e: StreamEvent)
    ensures
        ({
            let w = wakeups(Event::<Seq<char>, Seq<u8>>::Stream(e));
            &&& !w.connected && !w.closed && !w.datagrams
            &&& w.readers != Wake::Everybody
            &&& w.writers != Wake::Everybody
            &&& !(w.incoming_bi && w.incoming_uni)
            &&& !(w.available_bi && w.available_uni)
        }),
{
}

} // verus!
