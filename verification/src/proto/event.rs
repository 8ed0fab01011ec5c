//! What a connection reports to the application.

use crate::buffer::octets;
use crate::streams::event::StreamEvent;
use crate::text::{decimal, numeral};
use crate::transport_error::TransportError;
use crate::varint::VarInt;
use bytes::Bytes;
use vstd::prelude::*;
use vstd::string::*;

verus! {

/// Reasons a QMux connection may terminate.
#[derive(Debug, Clone, PartialEq, Eq)]
pub enum ConnectionError<R = String, B = Bytes> {
    /// The peer violated the protocol.
    TransportError(TransportError<R>),
    /// The peer's transport layer closed the connection.
    ConnectionClosed {
        /// Error code supplied by the peer.
        error_code: VarInt,
        /// Type of the frame that provoked the closure, if any.
        frame_type: Option<VarInt>,
        /// Peer-supplied reason.
        reason: B,
    },
    /// The peer's application closed the connection.
    ApplicationClosed {
        /// Application-supplied error code.
        error_code: VarInt,
        /// Application-supplied reason.
        reason: B,
    },
    /// The idle timeout expired.
    TimedOut,
    /// The local application closed the connection.
    LocallyClosed,
    /// The underlying transport failed or was closed without a CONNECTION_CLOSE.
    TransportClosed,
}

/// Events yielded by a connection.
#[derive(Debug)]
pub enum Event<R = String, B = Bytes> {
    /// The peer's transport parameters arrived; streams may now be opened.
    Connected,
    /// Stream activity.
    Stream(StreamEvent),
    /// One or more datagrams were received.
    DatagramReceived,
    /// The connection was terminated.
    ConnectionLost {
        /// Why the connection ended.
        reason: ConnectionError<R, B>,
    },
}

/// Errors from sending a datagram.
#[derive(Debug, Clone, Copy, PartialEq, Eq, Structural)]
pub enum SendDatagramError {
    /// The peer's transport parameters have not arrived yet.
    NotYetReady,
    /// The peer does not accept datagrams.
    UnsupportedByPeer,
    /// The datagram exceeds the peer's advertised limits.
    TooLarge,
}

/// Why a connection ended, over plain sequences.
pub type Reason = ConnectionError<Seq<char>, Seq<u8>>;

impl View for ConnectionError<String, Bytes> {
    type V = ConnectionError<Seq<char>, Seq<u8>>;

    open spec fn view(&self) -> ConnectionError<Seq<char>, Seq<u8>> {
        match *self {
            ConnectionError::TransportError(e) => ConnectionError::TransportError(e@),
            ConnectionError::ConnectionClosed { error_code, frame_type, reason } => {
                ConnectionError::ConnectionClosed { error_code, frame_type, reason: octets(reason) }
            },
            ConnectionError::ApplicationClosed { error_code, reason } => {
                ConnectionError::ApplicationClosed { error_code, reason: octets(reason) }
            },
            ConnectionError::TimedOut => ConnectionError::TimedOut,
            ConnectionError::LocallyClosed => ConnectionError::LocallyClosed,
            ConnectionError::TransportClosed => ConnectionError::TransportClosed,
        }
    }
}

impl View for Event<String, Bytes> {
    type V = Event<Seq<char>, Seq<u8>>;

    open spec fn view(&self) -> Event<Seq<char>, Seq<u8>> {
        match *self {
            Event::Connected => Event::Connected,
            Event::Stream(e) => Event::Stream(e),
            Event::DatagramReceived => Event::DatagramReceived,
            Event::ConnectionLost { reason } => Event::ConnectionLost { reason: reason@ },
        }
    }
}

/// What a reason reads like.
pub open spec fn description(reason: Reason) -> Seq<char> {
    match reason {
        ConnectionError::TransportError(e) => "transport error: "@ + e.reason,
        ConnectionError::ConnectionClosed { error_code, .. } => "closed by peer: code "@ + numeral(
            error_code.value() as nat,
            10,
        ),
        ConnectionError::ApplicationClosed { error_code, .. } => {
            "closed by peer application: code "@ + numeral(error_code.value() as nat, 10)
        },
        ConnectionError::TimedOut => "timed out"@,
        ConnectionError::LocallyClosed => "closed"@,
        ConnectionError::TransportClosed => "underlying transport closed"@,
    }
}

impl ConnectionError<String, Bytes> {
    /// The same reason once more.
    pub fn duplicate(&self) -> (e: ConnectionError)
        ensures
            e@ == self@,
    {
        match self {
            ConnectionError::TransportError(e) => ConnectionError::TransportError(e.duplicate()),
            ConnectionError::ConnectionClosed { error_code, frame_type, reason } => {
                ConnectionError::ConnectionClosed {
                    error_code: *error_code,
                    frame_type: *frame_type,
                    reason: reason.clone(),
                }
            },
            ConnectionError::ApplicationClosed { error_code, reason } => {
                ConnectionError::ApplicationClosed {
                    error_code: *error_code,
                    reason: reason.clone(),
                }
            },
            ConnectionError::TimedOut => ConnectionError::TimedOut,
            ConnectionError::LocallyClosed => ConnectionError::LocallyClosed,
            ConnectionError::TransportClosed => ConnectionError::TransportClosed,
        }
    }

    /// Message for humans.
    pub fn message(&self) -> (s: String)
        ensures
            s@ == description(self@),
    {
        match self {
            ConnectionError::TransportError(e) => {
                let mut s = "transport error: ".to_owned();
                s.append(e.reason.as_str());
                s
            },
            ConnectionError::ConnectionClosed { error_code, .. } => {
                let mut s = "closed by peer: code ".to_owned();
                s.append(decimal(error_code.into_inner()).as_str());
                s
            },
            ConnectionError::ApplicationClosed { error_code, .. } => {
                let mut s = "closed by peer application: code ".to_owned();
                s.append(decimal(error_code.into_inner()).as_str());
                s
            },
            ConnectionError::TimedOut => "timed out".to_owned(),
            ConnectionError::LocallyClosed => "closed".to_owned(),
            ConnectionError::TransportClosed => "underlying transport closed".to_owned(),
        }
    }
}

impl SendDatagramError {
    /// Message for humans.
    pub fn message(&self) -> (s: &'static str)
        ensures
            s@ == (match *self {
                SendDatagramError::NotYetReady => "peer transport parameters not yet received"@,
                SendDatagramError::UnsupportedByPeer => "datagrams not supported by peer"@,
                SendDatagramError::TooLarge => "datagram too large"@,
            }),
    {
        match self {
            SendDatagramError::NotYetReady => "peer transport parameters not yet received",
            SendDatagramError::UnsupportedByPeer => "datagrams not supported by peer",
            SendDatagramError::TooLarge => "datagram too large",
        }
    }
}

/// Events and reasons stand for themselves, field by field.
pub proof fn law_events_as_made(event: Event, e: StreamEvent, reason: ConnectionError)
    ensures
        event@ is Connected <==> event is Connected,
        event@ is DatagramReceived <==> event is DatagramReceived,
        event@ == Event::<Seq<char>, Seq<u8>>::Stream(e) <==> event
            == Event::<String, Bytes>::Stream(e),
        event matches Event::ConnectionLost { reason: r } ==> event@ == (Event::<
            Seq<char>,
            Seq<u8>,
        >::ConnectionLost { reason: r@ }),
        event@ is ConnectionLost ==> event is ConnectionLost,
        reason matches ConnectionError::TransportError(t) ==> {
            &&& reason@ matches ConnectionError::TransportError(u)
            &&& u.code == t.code && u.frame == t.frame && u.reason == t.reason@
        },
        reason matches ConnectionError::ConnectionClosed { error_code, frame_type, reason: text } ==> {
            reason@ == (ConnectionError::<Seq<char>, Seq<u8>>::ConnectionClosed {
                error_code,
                frame_type,
                reason: octets(text),
            })
        },
        reason matches ConnectionError::ApplicationClosed { error_code, reason: text } ==> {
            reason@ == (ConnectionError::<Seq<char>, Seq<u8>>::ApplicationClosed {
                error_code,
                reason: octets(text),
            })
        },
        reason@ is TransportError <==> reason is TransportError,
        reason@ is ConnectionClosed <==> reason is ConnectionClosed,
        reason@ is ApplicationClosed <==> reason is ApplicationClosed,
        reason@ is TimedOut <==> reason is TimedOut,
        reason@ is LocallyClosed <==> reason is LocallyClosed,
        reason@ is TransportClosed <==> reason is TransportClosed,
{
}

} // verus!
