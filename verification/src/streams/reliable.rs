//! Stream semantics over a reliable, ordered carrier.
//!
//! The stream state machine itself (identifiers, flow control, buffering, scheduling) is
//! attached from outside. This module holds the vocabulary that it shares with a carrier, and
//! what a carrier adds to it: data must arrive in offset order, and nothing is sent once the
//! connection is closed.

use crate::buffer::octets;
use crate::stream_id::{Dir, Side, StreamId};
use crate::streams::frame::WireFrame;
use crate::streams::order::{expected_offset, offsets_after, ReceiveOrder};
use crate::transport_error::{transport_error, TransportError, PROTOCOL_VIOLATION};
use crate::varint::VarInt;
use bytes::Bytes;
use vstd::prelude::*;

verus! {

/// Stream-related transport parameters supplied by the peer.
#[derive(Debug, Copy, Clone, Eq, PartialEq, Structural)]
pub struct Parameters {
    /// Maximum total stream data the peer permits this endpoint to send.
    pub initial_max_data: VarInt,
    /// Per-stream limit for bidirectional streams initiated by the peer.
    pub initial_max_stream_data_bidi_local: VarInt,
    /// Per-stream limit for bidirectional streams initiated by this endpoint.
    pub initial_max_stream_data_bidi_remote: VarInt,
    /// Per-stream limit for unidirectional streams.
    pub initial_max_stream_data_uni: VarInt,
    /// Number of bidirectional streams this endpoint may initiate.
    pub initial_max_streams_bidi: VarInt,
    /// Number of unidirectional streams this endpoint may initiate.
    pub initial_max_streams_uni: VarInt,
}

impl Default for Parameters {
    /// Nothing is permitted.
    fn default() -> (p: Parameters)
        ensures
            p.initial_max_data == VarInt::of(0),
            p.initial_max_stream_data_bidi_local == VarInt::of(0),
            p.initial_max_stream_data_bidi_remote == VarInt::of(0),
            p.initial_max_stream_data_uni == VarInt::of(0),
            p.initial_max_streams_bidi == VarInt::of(0),
            p.initial_max_streams_uni == VarInt::of(0),
    {
        let none = VarInt::from_u32(0);
        Parameters {
            initial_max_data: none,
            initial_max_stream_data_bidi_local: none,
            initial_max_stream_data_bidi_remote: none,
            initial_max_stream_data_uni: none,
            initial_max_streams_bidi: none,
            initial_max_streams_uni: none,
        }
    }
}

/// Local configuration of a [`Connection`].
#[derive(Debug, Copy, Clone)]
pub struct Config {
    /// Number of peer-initiated bidirectional streams initially permitted.
    pub max_remote_bidi: VarInt,
    /// Number of peer-initiated unidirectional streams initially permitted.
    pub max_remote_uni: VarInt,
    /// Maximum octets retained until carrier writes complete.
    pub send_window: u64,
    /// Connection-level receive window.
    pub receive_window: VarInt,
    /// Per-stream receive window.
    pub stream_receive_window: VarInt,
}

/// A stream or flow-control frame accepted by a [`Connection`].
#[derive(Debug, Clone)]
#[non_exhaustive]
pub enum Frame<B = Bytes> {
    /// Stream data at a particular offset.
    Stream {
        /// Stream identifier.
        id: StreamId,
        /// Offset of `data` in the stream.
        offset: u64,
        /// Whether this is the final stream frame.
        fin: bool,
        /// Stream payload.
        data: B,
    },
    /// Abruptly terminate the peer's sending half.
    Reset {
        /// Stream identifier.
        id: StreamId,
        /// Application error code.
        error_code: VarInt,
        /// Final stream size.
        final_offset: VarInt,
    },
    /// Ask the peer to stop its sending half.
    StopSending {
        /// Stream identifier.
        id: StreamId,
        /// Application error code.
        error_code: VarInt,
    },
    /// Increase connection-level send credit.
    MaxData(VarInt),
    /// Increase one stream's send credit.
    MaxStreamData {
        /// Stream identifier.
        id: StreamId,
        /// New absolute stream offset limit.
        offset: u64,
    },
    /// Increase stream-count credit.
    MaxStreams {
        /// Stream direction.
        dir: Dir,
        /// New absolute stream-count limit.
        count: u64,
    },
    /// Peer reports connection-level flow-control blocking.
    DataBlocked {
        /// Offset at which the peer is blocked.
        offset: u64,
    },
    /// Peer reports stream-level flow-control blocking.
    StreamDataBlocked {
        /// Stream identifier.
        id: StreamId,
        /// Offset at which the peer is blocked.
        offset: u64,
    },
    /// Peer reports stream-count blocking.
    StreamsBlocked {
        /// Stream direction.
        dir: Dir,
        /// Limit at which the peer is blocked.
        limit: u64,
    },
}

impl View for Frame<Bytes> {
    type V = Frame<Seq<u8>>;

    open spec fn view(&self) -> Frame<Seq<u8>> {
        match *self {
            Frame::Stream { id, offset, fin, data } => Frame::Stream {
                id,
                offset,
                fin,
                data: octets(data),
            },
            Frame::Reset { id, error_code, final_offset } => Frame::Reset {
                id,
                error_code,
                final_offset,
            },
            Frame::StopSending { id, error_code } => Frame::StopSending { id, error_code },
            Frame::MaxData(max) => Frame::MaxData(max),
            Frame::MaxStreamData { id, offset } => Frame::MaxStreamData { id, offset },
            Frame::MaxStreams { dir, count } => Frame::MaxStreams { dir, count },
            Frame::DataBlocked { offset } => Frame::DataBlocked { offset },
            Frame::StreamDataBlocked { id, offset } => Frame::StreamDataBlocked { id, offset },
            Frame::StreamsBlocked { dir, limit } => Frame::StreamsBlocked { dir, limit },
        }
    }
}

/// The stream or flow-control frame that a standard frame is, if it is one.
pub open spec fn stream_related(frame: WireFrame<Seq<u8>>) -> Option<Frame<Seq<u8>>> {
    match frame {
        WireFrame::Stream(f) => Some(
            Frame::Stream { id: f.id, offset: f.offset, fin: f.fin, data: f.data },
        ),
        WireFrame::ResetStream(f) => Some(
            Frame::Reset { id: f.id, error_code: f.error_code, final_offset: f.final_offset },
        ),
        WireFrame::StopSending { id, error_code } => Some(Frame::StopSending { id, error_code }),
        WireFrame::MaxData(max) => Some(Frame::MaxData(max)),
        WireFrame::MaxStreamData { id, offset } => Some(Frame::MaxStreamData { id, offset }),
        WireFrame::MaxStreams { dir, count } => Some(Frame::MaxStreams { dir, count }),
        WireFrame::DataBlocked { offset } => Some(Frame::DataBlocked { offset }),
        WireFrame::StreamDataBlocked { id, offset } => Some(
            Frame::StreamDataBlocked { id, offset },
        ),
        WireFrame::StreamsBlocked { dir, limit } => Some(Frame::StreamsBlocked { dir, limit }),
        WireFrame::Padding => None,
        WireFrame::Datagram(_) => None,
        WireFrame::ConnectionClose(_) => None,
        WireFrame::ApplicationClose(_) => None,
    }
}

/// The stream or flow-control frame that a standard frame is, if it is one.
pub fn public_frame(frame: WireFrame) -> (r: Option<Frame>)
    ensures
        match stream_related(frame@) {
            Some(f) => r is Some && r->0@ == f,
            None => r is None,
        },
{
    match frame {
        WireFrame::Stream(f) => Some(
            Frame::Stream { id: f.id, offset: f.offset, fin: f.fin, data: f.data },
        ),
        WireFrame::ResetStream(f) => Some(
            Frame::Reset { id: f.id, error_code: f.error_code, final_offset: f.final_offset },
        ),
        WireFrame::StopSending { id, error_code } => Some(Frame::StopSending { id, error_code }),
        WireFrame::MaxData(max) => Some(Frame::MaxData(max)),
        WireFrame::MaxStreamData { id, offset } => Some(Frame::MaxStreamData { id, offset }),
        WireFrame::MaxStreams { dir, count } => Some(Frame::MaxStreams { dir, count }),
        WireFrame::DataBlocked { offset } => Some(Frame::DataBlocked { offset }),
        WireFrame::StreamDataBlocked { id, offset } => Some(
            Frame::StreamDataBlocked { id, offset },
        ),
        WireFrame::StreamsBlocked { dir, limit } => Some(Frame::StreamsBlocked { dir, limit }),
        WireFrame::Padding
        | WireFrame::Datagram(_)
        | WireFrame::ConnectionClose(_)
        | WireFrame::ApplicationClose(_) => None,
    }
}

/// What a carrier adds to the stream state machine of one endpoint.
pub struct Connection {
    side: Side,
    config: Config,
    order: ReceiveOrder,
    closed: bool,
}

/// The state of a [`Connection`].
#[verifier::ext_equal]
pub struct ConnectionState {
    /// Which endpoint this is.
    pub side: Side,
    /// Limits that the stream state machine is made with.
    pub config: Config,
    /// Where the data of each stream must go on.
    pub offsets: Map<u64, u64>,
    /// Whether nothing is opened, written or sent any more.
    pub closed: bool,
}

/// Stream data arrived elsewhere than where it must go on.
pub open spec fn out_of_order() -> TransportError<Seq<char>> {
    transport_error(PROTOCOL_VIOLATION, "stream payload received out of order"@)
}

/// Whether a frame carries stream data that is out of order.
pub open spec fn is_out_of_order(offsets: Map<u64, u64>, frame: Frame<Seq<u8>>) -> bool {
    frame matches Frame::Stream { id, offset, fin, data } && offset != expected_offset(offsets, id)
}

/// Where the data of each stream must go on after a frame that is in order.
pub open spec fn offsets_after_frame(offsets: Map<u64, u64>, frame: Frame<Seq<u8>>) -> Map<
    u64,
    u64,
> {
    match frame {
        Frame::Stream { id, offset, fin, data } => offsets_after(offsets, id, data.len(), fin),
        Frame::Reset { id, error_code, final_offset } => offsets.remove(id.0.value()),
        _ => offsets,
    }
}

impl View for Connection {
    type V = ConnectionState;

    closed spec fn view(&self) -> ConnectionState {
        ConnectionState {
            side: self.side,
            config: self.config,
            offsets: self.order@,
            closed: self.closed,
        }
    }
}

impl Connection {
    /// Construct one side of a reliable connection.
    pub fn new(side: Side, config: Config) -> (c: Connection)
        ensures
            c@ == (ConnectionState { side, config, offsets: Map::empty(), closed: false }),
    {
        Connection { side, config, order: ReceiveOrder::new(), closed: false }
    }

    /// Which endpoint this is.
    pub fn side(&self) -> (side: Side)
        ensures
            side == self@.side,
    {
        self.side
    }

    /// Limits that the stream state machine is made with.
    pub fn config(&self) -> (config: Config)
        ensures
            config == self@.config,
    {
        self.config
    }

    /// Check one decoded stream-related frame before the stream state machine processes it.
    ///
    /// STREAM offsets must be contiguous for each stream; an out-of-order frame is a protocol
    /// violation.
    pub fn received_frame(&mut self, frame: &Frame) -> (r: Result<(), TransportError>)
        ensures
            if is_out_of_order(old(self)@.offsets, frame@) {
                r is Err && r->Err_0@ == out_of_order() && final(self)@ == old(self)@
            } else {
                r is Ok && final(self)@ == (ConnectionState {
                    offsets: offsets_after_frame(old(self)@.offsets, frame@),
                    ..old(self)@
                })
            },
    {
        match frame {
            Frame::Stream { id, offset, fin, data } => {
                if !self.order.advance(*id, *offset, data.len(), *fin) {
                    return Err(
                        TransportError::new(
                            PROTOCOL_VIOLATION,
                            "stream payload received out of order",
                        ),
                    );
                }
            },
            Frame::Reset { id, .. } => self.order.forget(*id),
            _ => {},
        }
        Ok(())
    }

    /// How much the stream state machine may put into one record; `None` once the connection
    /// is closed.
    pub fn poll_transmit(&self, max_record_size: usize) -> (budget: Option<usize>)
        ensures
            budget == (if self@.closed {
                None
            } else {
                Some(max_record_size)
            }),
    {
        if self.closed {
            None
        } else {
            Some(max_record_size)
        }
    }

    /// Whether streams are no longer opened, written or sent.
    pub fn is_closed(&self) -> (b: bool)
        ensures
            b == self@.closed,
    {
        self.closed
    }

    /// Stop opening, writing, or transmitting streams.
    pub fn close(&mut self)
        ensures
            final(self)@ == (ConnectionState { closed: true, ..old(self)@ }),
    {
        self.closed = true;
    }
}

/// Cut stream data into frames as one likes: while they are sent in order, each is in order
/// on arrival, and all of them leave the receiver where the whole would.
pub proof fn law_split_data_in_order(
    offsets: Map<u64, u64>,
    id: StreamId,
    first: Seq<u8>,
    second: Seq<u8>,
    fin: bool,
)
    requires
        expected_offset(offsets, id) + first.len() + second.len() <= u64::MAX,
    ensures
        ({
            let at = expected_offset(offsets, id);
            let one = Frame::Stream { id, offset: at, fin: false, data: first };
            let two = Frame::Stream {
                id,
                offset: (at + first.len()) as u64,
                fin,
                data: second,
            };
            let whole = Frame::Stream { id, offset: at, fin, data: first + second };
            let between = offsets_after_frame(offsets, one);
            &&& !is_out_of_order(offsets, one)
            &&& !is_out_of_order(between, two)
            &&& offsets_after_frame(between, two) == offsets_after_frame(offsets, whole)
        }),
{
    let at = expected_offset(offsets, id);
    let one = Frame::Stream { id, offset: at, fin: false, data: first };
    let two = Frame::Stream { id, offset: (at + first.len()) as u64, fin, data: second };
    let whole = Frame::Stream { id, offset: at, fin, data: first + second };
    let between = offsets_after_frame(offsets, one);
    assert(offsets_after_frame(between, two) =~= offsets_after_frame(offsets, whole));
}

/// A frame stands for itself, field by field.
pub proof fn law_frames_as_made(frame: Frame, sid: StreamId, v: VarInt, w: VarInt, n: u64, d: Dir)
    ensures
        frame matches Frame::Stream { id, offset, fin, data } ==> frame@ == (Frame::<
            Seq<u8>,
        >::Stream { id, offset, fin, data: octets(data) }),
        frame@ is Stream ==> frame is Stream,
        frame@ == (Frame::<Seq<u8>>::Reset { id: sid, error_code: v, final_offset: w }) <==> frame
            == (Frame::<Bytes>::Reset { id: sid, error_code: v, final_offset: w }),
        frame@ == (Frame::<Seq<u8>>::StopSending { id: sid, error_code: v }) <==> frame == (Frame::<
            Bytes,
        >::StopSending { id: sid, error_code: v }),
        frame@ == Frame::<Seq<u8>>::MaxData(v) <==> frame == Frame::<Bytes>::MaxData(v),
        frame@ == (Frame::<Seq<u8>>::MaxStreamData { id: sid, offset: n }) <==> frame == (Frame::<
            Bytes,
        >::MaxStreamData { id: sid, offset: n }),
        frame@ == (Frame::<Seq<u8>>::MaxStreams { dir: d, count: n }) <==> frame == (Frame::<
            Bytes,
        >::MaxStreams { dir: d, count: n }),
        frame@ == (Frame::<Seq<u8>>::DataBlocked { offset: n }) <==> frame == (Frame::<
            Bytes,
        >::DataBlocked { offset: n }),
        frame@ == (Frame::<Seq<u8>>::StreamDataBlocked { id: sid, offset: n }) <==> frame == (
        Frame::<Bytes>::StreamDataBlocked { id: sid, offset: n }),
        frame@ == (Frame::<Seq<u8>>::StreamsBlocked { dir: d, limit: n }) <==> frame == (Frame::<
            Bytes,
        >::StreamsBlocked { dir: d, limit: n }),
{
}

/// Stream data is in order exactly where it begins where the data of its stream ended so far, which
/// is at zero for a stream that is new or over; it then moves its own stream to its end, or ends it.
/// A reset ends its stream, and no other frame moves any.
pub proof fn law_order_kept(
    offsets: Map<u64, u64>,
    frame: Frame<Seq<u8>>,
    stream: u64,
)
    ensures
        ({
            let stands = if offsets.dom().contains(stream) {
                offsets[stream]
            } else {
                0
            };
            let after = offsets_after_frame(offsets, frame);
            let same = after.dom().contains(stream) == offsets.dom().contains(stream) && (
            offsets.dom().contains(stream) ==> after[stream] == offsets[stream]);
            match frame {
                Frame::Stream { id, offset, fin, data } => if id.0.value() == stream {
                    &&& is_out_of_order(offsets, frame) <==> offset != stands
                    &&& fin ==> !after.dom().contains(stream)
                    &&& !fin ==> after.dom().contains(stream) && (stands + data.len() <= u64::MAX
                        ==> after[stream] == stands + data.len())
                } else {
                    same
                },
                Frame::Reset { id, .. } => {
                    &&& !is_out_of_order(offsets, frame)
                    &&& id.0.value() == stream ==> !after.dom().contains(stream)
                    &&& id.0.value() != stream ==> same
                },
                _ => !is_out_of_order(offsets, frame) && same,
            }
        }),
{
}

} // verus!
