//! Frames of QUIC version 1 that carry streams and flow control.

use crate::buffer::{
    get_octets, get_varint, lemma_take_octets, lemma_take_varint, lemma_take_varint_shortens, octets,
    take_octets, take_varint,
};
use crate::stream_id::{Dir, StreamId};
use crate::transport_error::{TransportError, FRAME_ENCODING_ERROR};
use crate::varint::{encoding, group_varint, VarInt, VARINT_BOUND};
use bytes::Bytes;
use vstd::prelude::*;

verus! {

broadcast use group_varint;

pub const PADDING: u64 = 0x00;

pub const RESET_STREAM: u64 = 0x04;

pub const STOP_SENDING: u64 = 0x05;

/// STREAM frames occupy `0x08..=0x0f`; OFF = 0x04, LEN = 0x02, FIN = 0x01.
pub const STREAM_BASE: u64 = 0x08;

pub const STREAM_MAX: u64 = 0x0f;

pub const MAX_DATA: u64 = 0x10;

pub const MAX_STREAM_DATA: u64 = 0x11;

pub const MAX_STREAMS_BIDI: u64 = 0x12;

pub const MAX_STREAMS_UNI: u64 = 0x13;

pub const DATA_BLOCKED: u64 = 0x14;

pub const STREAM_DATA_BLOCKED: u64 = 0x15;

pub const STREAMS_BLOCKED_BIDI: u64 = 0x16;

pub const STREAMS_BLOCKED_UNI: u64 = 0x17;

pub const CONNECTION_CLOSE: u64 = 0x1c;

pub const APPLICATION_CLOSE: u64 = 0x1d;

pub const DATAGRAM: u64 = 0x30;

pub const DATAGRAM_LEN: u64 = 0x31;

/// A STREAM frame: data of a stream at an offset.
#[derive(Debug, Clone, PartialEq, Eq)]
pub struct StreamFrame<B = Bytes> {
    /// The stream.
    pub id: StreamId,
    /// Where in the stream `data` starts.
    pub offset: u64,
    /// Whether the stream ends with this frame.
    pub fin: bool,
    /// The data.
    pub data: B,
}

/// A RESET_STREAM frame: the peer abandons its sending half.
#[derive(Debug, Clone, Copy, PartialEq, Eq, Structural)]
pub struct ResetStream {
    /// The stream.
    pub id: StreamId,
    /// Error code of the application.
    pub error_code: VarInt,
    /// Size of the stream.
    pub final_offset: VarInt,
}

/// A CONNECTION_CLOSE frame: the peer's transport ends the connection.
#[derive(Debug, Clone, PartialEq, Eq)]
pub struct ConnectionClose<B = Bytes> {
    /// Error code of the transport.
    pub error_code: VarInt,
    /// Type of the frame that provoked the close.
    pub frame_type: Option<VarInt>,
    /// Message for humans, not necessarily text.
    pub reason: B,
}

/// An APPLICATION_CLOSE frame: the peer's application ends the connection.
#[derive(Debug, Clone, PartialEq, Eq)]
pub struct ApplicationClose<B = Bytes> {
    /// Error code of the application.
    pub error_code: VarInt,
    /// Message for humans, not necessarily text.
    pub reason: B,
}

/// A standard frame that is meaningful on a reliable carrier.
#[derive(Debug)]
pub enum WireFrame<B = Bytes> {
    Padding,
    Stream(StreamFrame<B>),
    ResetStream(ResetStream),
    StopSending { id: StreamId, error_code: VarInt },
    MaxData(VarInt),
    MaxStreamData { id: StreamId, offset: u64 },
    MaxStreams { dir: Dir, count: u64 },
    DataBlocked { offset: u64 },
    StreamDataBlocked { id: StreamId, offset: u64 },
    StreamsBlocked { dir: Dir, limit: u64 },
    Datagram(B),
    ConnectionClose(ConnectionClose<B>),
    ApplicationClose(ApplicationClose<B>),
}

impl View for ConnectionClose<Bytes> {
    type V = ConnectionClose<Seq<u8>>;

    open spec fn view(&self) -> ConnectionClose<Seq<u8>> {
        ConnectionClose {
            error_code: self.error_code,
            frame_type: self.frame_type,
            reason: octets(self.reason),
        }
    }
}

impl View for ApplicationClose<Bytes> {
    type V = ApplicationClose<Seq<u8>>;

    open spec fn view(&self) -> ApplicationClose<Seq<u8>> {
        ApplicationClose { error_code: self.error_code, reason: octets(self.reason) }
    }
}

impl ConnectionClose<Bytes> {
    /// The same close once more.
    pub fn duplicate(&self) -> (c: ConnectionClose)
        ensures
            c@ == self@,
    {
        ConnectionClose {
            error_code: self.error_code,
            frame_type: self.frame_type,
            reason: self.reason.clone(),
        }
    }
}

impl View for WireFrame<Bytes> {
    type V = WireFrame<Seq<u8>>;

    open spec fn view(&self) -> WireFrame<Seq<u8>> {
        match *self {
            WireFrame::Padding => WireFrame::Padding,
            WireFrame::Stream(stream) => WireFrame::Stream(stream@),
            WireFrame::ResetStream(reset) => WireFrame::ResetStream(reset),
            WireFrame::StopSending { id, error_code } => WireFrame::StopSending { id, error_code },
            WireFrame::MaxData(max) => WireFrame::MaxData(max),
            WireFrame::MaxStreamData { id, offset } => WireFrame::MaxStreamData { id, offset },
            WireFrame::MaxStreams { dir, count } => WireFrame::MaxStreams { dir, count },
            WireFrame::DataBlocked { offset } => WireFrame::DataBlocked { offset },
            WireFrame::StreamDataBlocked { id, offset } => WireFrame::StreamDataBlocked {
                id,
                offset,
            },
            WireFrame::StreamsBlocked { dir, limit } => WireFrame::StreamsBlocked { dir, limit },
            WireFrame::Datagram(data) => WireFrame::Datagram(octets(data)),
            WireFrame::ConnectionClose(close) => WireFrame::ConnectionClose(close@),
            WireFrame::ApplicationClose(close) => WireFrame::ApplicationClose(close@),
        }
    }
}

impl View for StreamFrame<Bytes> {
    type V = StreamFrame<Seq<u8>>;

    open spec fn view(&self) -> StreamFrame<Seq<u8>> {
        StreamFrame { id: self.id, offset: self.offset, fin: self.fin, data: octets(self.data) }
    }
}

/// A length and that many octets at the front of `s`, and what follows them.
pub open spec fn take_sized(s: Seq<u8>) -> Option<(Seq<u8>, Seq<u8>)> {
    match take_varint(s) {
        Some((len, rest)) => take_octets(rest, len.value()),
        None => None,
    }
}

/// A stream identifier at the front of `s`, and what follows it.
pub open spec fn take_id(s: Seq<u8>) -> Option<(StreamId, Seq<u8>)> {
    match take_varint(s) {
        Some((id, rest)) => Some((StreamId(id), rest)),
        None => None,
    }
}

/// The fields of a reset at the front of `s`, and what follows them.
pub open spec fn take_reset(s: Seq<u8>) -> Option<(ResetStream, Seq<u8>)> {
    match take_id(s) {
        Some((id, s1)) => match take_varint(s1) {
            Some((error_code, s2)) => match take_varint(s2) {
                Some((final_offset, s3)) => Some(
                    (ResetStream { id, error_code, final_offset }, s3),
                ),
                None => None,
            },
            None => None,
        },
        None => None,
    }
}

/// A stream identifier and an integer at the front of `s`, and what follows them.
pub open spec fn take_id_value(s: Seq<u8>) -> Option<(StreamId, VarInt, Seq<u8>)> {
    match take_id(s) {
        Some((id, s1)) => match take_varint(s1) {
            Some((v, s2)) => Some((id, v, s2)),
            None => None,
        },
        None => None,
    }
}

/// The body of a STREAM frame: identifier, optional offset, data with a length or up to the
/// end of the record.
pub open spec fn take_stream(ty: u64, s: Seq<u8>) -> Option<(StreamFrame<Seq<u8>>, Seq<u8>)> {
    match take_id(s) {
        Some((id, s1)) => match if ty & 0x04 != 0 {
            take_varint(s1)
        } else {
            Some((VarInt::of(0), s1))
        } {
            Some((offset, s2)) => match if ty & 0x02 != 0 {
                take_sized(s2)
            } else {
                Some((s2, Seq::empty()))
            } {
                Some((data, s3)) => Some(
                    (StreamFrame { id, offset: offset.value(), fin: ty & 0x01 != 0, data }, s3),
                ),
                None => None,
            },
            None => None,
        },
        None => None,
    }
}

pub(crate) fn get_rest(buf: &mut Bytes) -> (data: Bytes)
    ensures
        octets(data) == octets(*old(buf)),
        octets(*final(buf)) == Seq::<u8>::empty(),
{
    let len: usize = buf.len();
    let data = buf.split_to(len);
    assert(octets(data) =~= octets(*old(buf)));
    assert(octets(*buf) =~= Seq::<u8>::empty());
    data
}

pub(crate) fn get_sized(buf: &mut Bytes) -> (r: Option<Bytes>)
    ensures
        match take_sized(octets(*old(buf))) {
            Some((data, rest)) => r is Some && octets(r->0) == data && octets(*final(buf)) == rest,
            None => r is None,
        },
{
    match get_varint(buf) {
        Some(len) => get_octets(buf, len.into_inner()),
        None => None,
    }
}

pub(crate) fn get_id(buf: &mut Bytes) -> (r: Option<StreamId>)
    ensures
        match take_id(octets(*old(buf))) {
            Some((id, rest)) => r == Some(id) && octets(*final(buf)) == rest,
            None => r is None,
        },
{
    match get_varint(buf) {
        Some(id) => Some(StreamId(id)),
        None => None,
    }
}

pub(crate) fn get_id_value(buf: &mut Bytes) -> (r: Option<(StreamId, VarInt)>)
    ensures
        match take_id_value(octets(*old(buf))) {
            Some((id, v, rest)) => r == Some((id, v)) && octets(*final(buf)) == rest,
            None => r is None,
        },
{
    match get_id(buf) {
        Some(id) => match get_varint(buf) {
            Some(v) => Some((id, v)),
            None => None,
        },
        None => None,
    }
}

pub(crate) fn decode_reset(buf: &mut Bytes) -> (r: Option<ResetStream>)
    ensures
        match take_reset(octets(*old(buf))) {
            Some((reset, rest)) => r == Some(reset) && octets(*final(buf)) == rest,
            None => r is None,
        },
{
    let id = match get_id(buf) {
        Some(id) => id,
        None => return None,
    };
    let error_code = match get_varint(buf) {
        Some(code) => code,
        None => return None,
    };
    match get_varint(buf) {
        Some(final_offset) => Some(ResetStream { id, error_code, final_offset }),
        None => None,
    }
}

pub(crate) fn decode_stream(ty: u64, buf: &mut Bytes) -> (r: Option<StreamFrame>)
    ensures
        match take_stream(ty, octets(*old(buf))) {
            Some((stream, rest)) => r is Some && r->0@ == stream && octets(*final(buf)) == rest,
            None => r is None,
        },
{
    let id = match get_id(buf) {
        Some(id) => id,
        None => return None,
    };
    let offset: u64 = if ty & 0x04 != 0 {
        match get_varint(buf) {
            Some(offset) => offset.into_inner(),
            None => return None,
        }
    } else {
        0
    };
    let data = if ty & 0x02 != 0 {
        match get_sized(buf) {
            Some(data) => data,
            None => return None,
        }
    } else {
        // No LEN: the frame extends to the end of the record
        get_rest(buf)
    };
    Some(StreamFrame { id, offset, fin: ty & 0x01 != 0, data })
}

/// A length in front of as many octets gives those octets back.
pub proof fn lemma_sized(data: Seq<u8>, rest: Seq<u8>)
    requires
        data.len() < VARINT_BOUND,
    ensures
        take_sized(encoding(data.len() as u64) + data + rest) == Some((data, rest)),
{
    assert(encoding(data.len() as u64) + data + rest =~= encoding(data.len() as u64) + (data
        + rest));
    lemma_take_varint(data.len() as u64, data + rest);
    lemma_take_octets(data, rest);
}

/// Octets that follow their length leave no more than there was.
pub proof fn lemma_sized_progress(s: Seq<u8>)
    ensures
        take_sized(s) matches Some((data, rest)) ==> rest.len() <= s.len(),
{
    lemma_take_varint_shortens(s);
}

/// Whether frames of this type belong on a reliable carrier: streams and flow control,
/// datagrams, padding and closes.
pub open spec fn is_reliable(ty: u64) -> bool {
    ||| ty == PADDING
    ||| ty == RESET_STREAM
    ||| ty == STOP_SENDING
    ||| STREAM_BASE <= ty <= STREAM_MAX
    ||| MAX_DATA <= ty <= STREAMS_BLOCKED_UNI
    ||| ty == CONNECTION_CLOSE
    ||| ty == APPLICATION_CLOSE
    ||| ty == DATAGRAM
    ||| ty == DATAGRAM_LEN
}

/// The direction that the lowest bit of a stream-count frame type names.
pub open spec fn count_dir(ty: u64) -> Dir {
    if ty == MAX_STREAMS_BIDI || ty == STREAMS_BLOCKED_BIDI {
        Dir::Bi
    } else {
        Dir::Uni
    }
}

/// The frame type that a transport close names; zero stands for none.
pub open spec fn provoking_type(ty: VarInt) -> Option<VarInt> {
    if ty.value() == 0 {
        None
    } else {
        Some(ty)
    }
}

/// The body of a CONNECTION_CLOSE frame.
pub open spec fn take_connection_close(s: Seq<u8>) -> Option<
    (ConnectionClose<Seq<u8>>, Seq<u8>),
> {
    match take_varint(s) {
        Some((error_code, s1)) => match take_varint(s1) {
            Some((ty, s2)) => match take_sized(s2) {
                Some((reason, s3)) => Some(
                    (ConnectionClose { error_code, frame_type: provoking_type(ty), reason }, s3),
                ),
                None => None,
            },
            None => None,
        },
        None => None,
    }
}

/// The body of an APPLICATION_CLOSE frame.
pub open spec fn take_application_close(s: Seq<u8>) -> Option<
    (ApplicationClose<Seq<u8>>, Seq<u8>),
> {
    match take_varint(s) {
        Some((error_code, s1)) => match take_sized(s1) {
            Some((reason, s2)) => Some((ApplicationClose { error_code, reason }, s2)),
            None => None,
        },
        None => None,
    }
}

/// The frame of the reliable type `ty` whose body is at the front of `s` and what follows it,
/// or `None` where `s` ends too early.
pub open spec fn take_wire_frame(ty: u64, s: Seq<u8>) -> Option<(WireFrame<Seq<u8>>, Seq<u8>)> {
    if ty == PADDING {
        Some((WireFrame::Padding, s))
    } else if STREAM_BASE <= ty <= STREAM_MAX {
        match take_stream(ty, s) {
            Some((stream, rest)) => Some((WireFrame::Stream(stream), rest)),
            None => None,
        }
    } else if ty == RESET_STREAM {
        match take_reset(s) {
            Some((reset, rest)) => Some((WireFrame::ResetStream(reset), rest)),
            None => None,
        }
    } else if ty == STOP_SENDING {
        match take_id_value(s) {
            Some((id, error_code, rest)) => Some((WireFrame::StopSending { id, error_code }, rest)),
            None => None,
        }
    } else if ty == MAX_DATA {
        match take_varint(s) {
            Some((max, rest)) => Some((WireFrame::MaxData(max), rest)),
            None => None,
        }
    } else if ty == MAX_STREAM_DATA {
        match take_id_value(s) {
            Some((id, v, rest)) => Some(
                (WireFrame::MaxStreamData { id, offset: v.value() }, rest),
            ),
            None => None,
        }
    } else if ty == MAX_STREAMS_BIDI || ty == MAX_STREAMS_UNI {
        match take_varint(s) {
            Some((v, rest)) => Some(
                (WireFrame::MaxStreams { dir: count_dir(ty), count: v.value() }, rest),
            ),
            None => None,
        }
    } else if ty == DATA_BLOCKED {
        match take_varint(s) {
            Some((v, rest)) => Some((WireFrame::DataBlocked { offset: v.value() }, rest)),
            None => None,
        }
    } else if ty == STREAM_DATA_BLOCKED {
        match take_id_value(s) {
            Some((id, v, rest)) => Some(
                (WireFrame::StreamDataBlocked { id, offset: v.value() }, rest),
            ),
            None => None,
        }
    } else if ty == STREAMS_BLOCKED_BIDI || ty == STREAMS_BLOCKED_UNI {
        match take_varint(s) {
            Some((v, rest)) => Some(
                (WireFrame::StreamsBlocked { dir: count_dir(ty), limit: v.value() }, rest),
            ),
            None => None,
        }
    } else if ty == CONNECTION_CLOSE {
        match take_connection_close(s) {
            Some((close, rest)) => Some((WireFrame::ConnectionClose(close), rest)),
            None => None,
        }
    } else if ty == APPLICATION_CLOSE {
        match take_application_close(s) {
            Some((close, rest)) => Some((WireFrame::ApplicationClose(close), rest)),
            None => None,
        }
    } else if ty == DATAGRAM {
        Some((WireFrame::Datagram(s), Seq::empty()))
    } else if ty == DATAGRAM_LEN {
        match take_sized(s) {
            Some((data, rest)) => Some((WireFrame::Datagram(data), rest)),
            None => None,
        }
    } else {
        None
    }
}

/// The frame ends too early; `ty` is its type where that could be read.
pub open spec fn unexpected_end(ty: Option<VarInt>) -> TransportError<Seq<char>> {
    TransportError {
        code: VarInt::of(FRAME_ENCODING_ERROR as u64),
        frame: ty,
        reason: "unexpected end"@,
    }
}

/// Whether frames of type `ty` belong on a reliable carrier.
pub fn reliable(ty: VarInt) -> (b: bool)
    ensures
        b == is_reliable(ty.value()),
{
    let ty: u64 = ty.into_inner();
    match ty {
        PADDING
        | RESET_STREAM
        | STOP_SENDING
        | STREAM_BASE..=STREAM_MAX
        | MAX_DATA..=STREAMS_BLOCKED_UNI
        | CONNECTION_CLOSE
        | APPLICATION_CLOSE
        | DATAGRAM
        | DATAGRAM_LEN => true,
        _ => false,
    }
}

fn decode_connection_close(buf: &mut Bytes) -> (r: Option<ConnectionClose>)
    ensures
        match take_connection_close(octets(*old(buf))) {
            Some((close, rest)) => r is Some && r->0@ == close && octets(*final(buf)) == rest,
            None => r is None,
        },
{
    let error_code = match get_varint(buf) {
        Some(code) => code,
        None => return None,
    };
    let ty = match get_varint(buf) {
        Some(ty) => ty,
        None => return None,
    };
    let frame_type = if ty.into_inner() == 0 {
        None
    } else {
        Some(ty)
    };
    match get_sized(buf) {
        Some(reason) => Some(ConnectionClose { error_code, frame_type, reason }),
        None => None,
    }
}

fn decode_application_close(buf: &mut Bytes) -> (r: Option<ApplicationClose>)
    ensures
        match take_application_close(octets(*old(buf))) {
            Some((close, rest)) => r is Some && r->0@ == close && octets(*final(buf)) == rest,
            None => r is None,
        },
{
    let error_code = match get_varint(buf) {
        Some(code) => code,
        None => return None,
    };
    match get_sized(buf) {
        Some(reason) => Some(ApplicationClose { error_code, reason }),
        None => None,
    }
}

fn decode_wire_frame(ty: u64, buf: &mut Bytes) -> (r: Option<WireFrame>)
    requires
        is_reliable(ty),
    ensures
        match take_wire_frame(ty, octets(*old(buf))) {
            Some((frame, rest)) => r is Some && r->0@ == frame && octets(*final(buf)) == rest,
            None => r is None,
        },
{
    match ty {
        PADDING => Some(WireFrame::Padding),
        STREAM_BASE..=STREAM_MAX => match decode_stream(ty, buf) {
            Some(stream) => Some(WireFrame::Stream(stream)),
            None => None,
        },
        RESET_STREAM => match decode_reset(buf) {
            Some(reset) => Some(WireFrame::ResetStream(reset)),
            None => None,
        },
        STOP_SENDING => match get_id_value(buf) {
            Some((id, error_code)) => Some(WireFrame::StopSending { id, error_code }),
            None => None,
        },
        MAX_DATA => match get_varint(buf) {
            Some(max) => Some(WireFrame::MaxData(max)),
            None => None,
        },
        MAX_STREAM_DATA => match get_id_value(buf) {
            Some((id, v)) => Some(WireFrame::MaxStreamData { id, offset: v.into_inner() }),
            None => None,
        },
        MAX_STREAMS_BIDI => match get_varint(buf) {
            Some(v) => Some(WireFrame::MaxStreams { dir: Dir::Bi, count: v.into_inner() }),
            None => None,
        },
        MAX_STREAMS_UNI => match get_varint(buf) {
            Some(v) => Some(WireFrame::MaxStreams { dir: Dir::Uni, count: v.into_inner() }),
            None => None,
        },
        DATA_BLOCKED => match get_varint(buf) {
            Some(v) => Some(WireFrame::DataBlocked { offset: v.into_inner() }),
            None => None,
        },
        STREAM_DATA_BLOCKED => match get_id_value(buf) {
            Some((id, v)) => Some(WireFrame::StreamDataBlocked { id, offset: v.into_inner() }),
            None => None,
        },
        STREAMS_BLOCKED_BIDI => match get_varint(buf) {
            Some(v) => Some(WireFrame::StreamsBlocked { dir: Dir::Bi, limit: v.into_inner() }),
            None => None,
        },
        STREAMS_BLOCKED_UNI => match get_varint(buf) {
            Some(v) => Some(WireFrame::StreamsBlocked { dir: Dir::Uni, limit: v.into_inner() }),
            None => None,
        },
        CONNECTION_CLOSE => match decode_connection_close(buf) {
            Some(close) => Some(WireFrame::ConnectionClose(close)),
            None => None,
        },
        APPLICATION_CLOSE => match decode_application_close(buf) {
            Some(close) => Some(WireFrame::ApplicationClose(close)),
            None => None,
        },
        DATAGRAM => Some(WireFrame::Datagram(get_rest(buf))),
        _ => match get_sized(buf) {
            Some(data) => Some(WireFrame::Datagram(data)),
            None => None,
        },
    }
}

/// Decode the body of a frame of the given reliable type.
pub fn decode_with_type(ty: VarInt, buf: &mut Bytes) -> (r: Result<WireFrame, TransportError>)
    requires
        is_reliable(ty.value()),
    ensures
        match take_wire_frame(ty.value(), octets(*old(buf))) {
            Some((frame, rest)) => r is Ok && r->Ok_0@ == frame && octets(*final(buf)) == rest,
            None => r is Err && r->Err_0@ == unexpected_end(Some(ty)),
        },
{
    match decode_wire_frame(ty.into_inner(), buf) {
        Some(frame) => Ok(frame),
        None => {
            let mut e = TransportError::new(FRAME_ENCODING_ERROR, "unexpected end");
            e.frame = Some(ty);
            Err(e)
        },
    }
}

} // verus!
