//! Frame codec.
//!
//! QMux reuses the QUIC version 1 frame formats for streams and flow control, and adds a
//! small number of extension frames. Frames that QMux prohibits (ACK, CRYPTO, PING, path
//! and connection-ID related frames, ...) are refused as malformed.

use crate::buffer::{
    append, as_slice, get_varint, lemma_take_varint, lemma_take_varint_shortens, octets, take_varint,
};
use crate::stream_id::{Dir, StreamId};
use crate::streams::frame::{
    decode_reset, decode_stream, get_id_value, get_rest, get_sized, lemma_sized,
    lemma_sized_progress, take_id_value, take_reset, take_sized, take_stream, ResetStream,
    StreamFrame, APPLICATION_CLOSE, CONNECTION_CLOSE, DATAGRAM, DATAGRAM_LEN, DATA_BLOCKED, MAX_DATA,
    MAX_STREAMS_BIDI, MAX_STREAMS_UNI, MAX_STREAM_DATA, PADDING, RESET_STREAM, STOP_SENDING,
    STREAMS_BLOCKED_BIDI, STREAMS_BLOCKED_UNI, STREAM_BASE, STREAM_DATA_BLOCKED, STREAM_MAX,
};
use crate::streams::wire::{datagram_frame, datagram_size, named_type};
use crate::text::{hexadecimal, numeral};
use crate::transport_error::{transport_error, TransportError, FRAME_ENCODING_ERROR};
use crate::varint::{encoded_size, encoding, group_varint, VarInt, VARINT_BOUND};
use bytes::Bytes;
use vstd::prelude::*;
use vstd::string::*;

verus! {

broadcast use group_varint;

/// From the Stream Resets with Partial Delivery extension; accepted but never sent.
pub const RESET_STREAM_AT: u64 = 0x24;

/// Tells QMux from HTTP/1.1 and HTTP/2 by the eight octets it takes on the wire.
pub const QX_TRANSPORT_PARAMETERS: u64 = 0x3f51_5330_0d0a_0d0a;

pub const QX_PING_REQUEST: u64 = 0x348c_6752_9ef8_c7bd;

pub const QX_PING_RESPONSE: u64 = 0x348c_6752_9ef8_c7be;

/// A decoded QMux frame.
#[derive(Debug)]
pub enum Frame<B = Bytes> {
    Stream(StreamFrame<B>),
    ResetStream(ResetStream),
    /// Checked while decoding; the reliable size is irrelevant on a reliable transport.
    ResetStreamAt(ResetStream),
    StopSending { id: StreamId, error_code: VarInt },
    MaxData(VarInt),
    MaxStreamData { id: StreamId, offset: VarInt },
    MaxStreams { dir: Dir, count: VarInt },
    DataBlocked { offset: VarInt },
    StreamDataBlocked { id: StreamId, offset: VarInt },
    StreamsBlocked { dir: Dir, limit: VarInt },
    Close(Close<B>),
    Datagram(B),
    TransportParameters(B),
    PingRequest(VarInt),
    PingResponse(VarInt),
}

/// A CONNECTION_CLOSE (0x1c) or APPLICATION_CLOSE (0x1d) frame.
#[derive(Debug, Clone)]
pub struct Close<B = Bytes> {
    pub is_application: bool,
    pub error_code: VarInt,
    /// Present only on CONNECTION_CLOSE.
    pub frame_type: Option<VarInt>,
    pub reason: B,
}

impl View for Close<Bytes> {
    type V = Close<Seq<u8>>;

    open spec fn view(&self) -> Close<Seq<u8>> {
        Close {
            is_application: self.is_application,
            error_code: self.error_code,
            frame_type: self.frame_type,
            reason: octets(self.reason),
        }
    }
}

impl View for Frame<Bytes> {
    type V = Frame<Seq<u8>>;

    open spec fn view(&self) -> Frame<Seq<u8>> {
        match *self {
            Frame::Stream(stream) => Frame::Stream(stream@),
            Frame::ResetStream(reset) => Frame::ResetStream(reset),
            Frame::ResetStreamAt(reset) => Frame::ResetStreamAt(reset),
            Frame::StopSending { id, error_code } => Frame::StopSending { id, error_code },
            Frame::MaxData(max) => Frame::MaxData(max),
            Frame::MaxStreamData { id, offset } => Frame::MaxStreamData { id, offset },
            Frame::MaxStreams { dir, count } => Frame::MaxStreams { dir, count },
            Frame::DataBlocked { offset } => Frame::DataBlocked { offset },
            Frame::StreamDataBlocked { id, offset } => Frame::StreamDataBlocked { id, offset },
            Frame::StreamsBlocked { dir, limit } => Frame::StreamsBlocked { dir, limit },
            Frame::Close(close) => Frame::Close(close@),
            Frame::Datagram(data) => Frame::Datagram(octets(data)),
            Frame::TransportParameters(blob) => Frame::TransportParameters(octets(blob)),
            Frame::PingRequest(seq) => Frame::PingRequest(seq),
            Frame::PingResponse(seq) => Frame::PingResponse(seq),
        }
    }
}

/// What a frame body decodes to: the frame and what follows it, or the reason for refusing it.
pub type Decoded = Result<(Frame<Seq<u8>>, Seq<u8>), TransportError<Seq<char>>>;

/// The frame ends before it is complete.
pub open spec fn truncated_frame() -> TransportError<Seq<char>> {
    transport_error(FRAME_ENCODING_ERROR, "truncated frame"@)
}

/// The frame type is unknown or not allowed.
pub open spec fn prohibited_frame(ty: u64) -> TransportError<Seq<char>> {
    transport_error(
        FRAME_ENCODING_ERROR,
        "prohibited or unknown frame type "@ + ("0x"@ + numeral(ty as nat, 16)),
    )
}

/// The body of a close frame.
pub open spec fn take_close(is_application: bool, s: Seq<u8>) -> Option<
    (Close<Seq<u8>>, Seq<u8>),
> {
    match take_varint(s) {
        Some((error_code, s1)) => match if is_application {
            Some((None::<VarInt>, s1))
        } else {
            match take_varint(s1) {
                Some((ty, rest)) => Some((Some(ty), rest)),
                None => None,
            }
        } {
            Some((frame_type, s2)) => match take_sized(s2) {
                Some((reason, s3)) => Some(
                    (Close { is_application, error_code, frame_type, reason }, s3),
                ),
                None => None,
            },
            None => None,
        },
        None => None,
    }
}

/// The frame of type `ty` whose body is at the front of `s`, and what follows it.
pub open spec fn frame_body(ty: u64, s: Seq<u8>) -> Decoded {
    if STREAM_BASE <= ty <= STREAM_MAX {
        match take_stream(ty, s) {
            Some((stream, rest)) => Ok((Frame::Stream(stream), rest)),
            None => Err(truncated_frame()),
        }
    } else if ty == RESET_STREAM {
        match take_reset(s) {
            Some((reset, rest)) => Ok((Frame::ResetStream(reset), rest)),
            None => Err(truncated_frame()),
        }
    } else if ty == RESET_STREAM_AT {
        match take_reset(s) {
            Some((reset, s1)) => match take_varint(s1) {
                Some((reliable_size, rest)) => if reliable_size.value()
                    > reset.final_offset.value() {
                    Err(
                        transport_error(
                            FRAME_ENCODING_ERROR,
                            "RESET_STREAM_AT reliable size exceeds final size"@,
                        ),
                    )
                } else {
                    Ok((Frame::ResetStreamAt(reset), rest))
                },
                None => Err(truncated_frame()),
            },
            None => Err(truncated_frame()),
        }
    } else if ty == STOP_SENDING {
        match take_id_value(s) {
            Some((id, error_code, rest)) => Ok((Frame::StopSending { id, error_code }, rest)),
            None => Err(truncated_frame()),
        }
    } else if ty == MAX_DATA {
        match take_varint(s) {
            Some((max, rest)) => Ok((Frame::MaxData(max), rest)),
            None => Err(truncated_frame()),
        }
    } else if ty == MAX_STREAM_DATA {
        match take_id_value(s) {
            Some((id, offset, rest)) => Ok((Frame::MaxStreamData { id, offset }, rest)),
            None => Err(truncated_frame()),
        }
    } else if ty == MAX_STREAMS_BIDI || ty == MAX_STREAMS_UNI {
        match take_varint(s) {
            Some((count, rest)) => Ok(
                (
                    Frame::MaxStreams {
                        dir: if ty == MAX_STREAMS_BIDI {
                            Dir::Bi
                        } else {
                            Dir::Uni
                        },
                        count,
                    },
                    rest,
                ),
            ),
            None => Err(truncated_frame()),
        }
    } else if ty == DATA_BLOCKED {
        match take_varint(s) {
            Some((offset, rest)) => Ok((Frame::DataBlocked { offset }, rest)),
            None => Err(truncated_frame()),
        }
    } else if ty == STREAM_DATA_BLOCKED {
        match take_id_value(s) {
            Some((id, offset, rest)) => Ok((Frame::StreamDataBlocked { id, offset }, rest)),
            None => Err(truncated_frame()),
        }
    } else if ty == STREAMS_BLOCKED_BIDI || ty == STREAMS_BLOCKED_UNI {
        match take_varint(s) {
            Some((limit, rest)) => Ok(
                (
                    Frame::StreamsBlocked {
                        dir: if ty == STREAMS_BLOCKED_BIDI {
                            Dir::Bi
                        } else {
                            Dir::Uni
                        },
                        limit,
                    },
                    rest,
                ),
            ),
            None => Err(truncated_frame()),
        }
    } else if ty == CONNECTION_CLOSE || ty == APPLICATION_CLOSE {
        match take_close(ty == APPLICATION_CLOSE, s) {
            Some((close, rest)) => Ok((Frame::Close(close), rest)),
            None => Err(truncated_frame()),
        }
    } else if ty == DATAGRAM {
        Ok((Frame::Datagram(s), Seq::empty()))
    } else if ty == DATAGRAM_LEN {
        match take_sized(s) {
            Some((data, rest)) => Ok((Frame::Datagram(data), rest)),
            None => Err(truncated_frame()),
        }
    } else if ty == QX_TRANSPORT_PARAMETERS {
        match take_sized(s) {
            Some((blob, rest)) => Ok((Frame::TransportParameters(blob), rest)),
            None => Err(truncated_frame()),
        }
    } else if ty == QX_PING_REQUEST {
        match take_varint(s) {
            Some((seq, rest)) => Ok((Frame::PingRequest(seq), rest)),
            None => Err(truncated_frame()),
        }
    } else if ty == QX_PING_RESPONSE {
        match take_varint(s) {
            Some((seq, rest)) => Ok((Frame::PingResponse(seq), rest)),
            None => Err(truncated_frame()),
        }
    } else {
        Err(prohibited_frame(ty))
    }
}

/// The first frame in `s` that is not padding and what follows it; `None` once `s` is
/// exhausted.
pub open spec fn next_frame(s: Seq<u8>) -> Result<
    Option<(Frame<Seq<u8>>, Seq<u8>)>,
    TransportError<Seq<char>>,
>
    decreases s.len(),
{
    if s.len() == 0 {
        Ok(None)
    } else {
        match take_varint(s) {
            None => Err(truncated_frame()),
            Some((ty, rest)) => if ty.value() != PADDING {
                match frame_body(ty.value(), rest) {
                    Ok((frame, rest)) => Ok(Some((frame, rest))),
                    Err(e) => Err(e),
                }
            } else if rest.len() < s.len() {
                next_frame(rest)
            } else {
                Ok(None)
            },
        }
    }
}

/// The frame that announces the transport parameters in `params`.
pub open spec fn transport_parameters_frame(params: Seq<u8>) -> Seq<u8> {
    encoding(QX_TRANSPORT_PARAMETERS) + (encoding(params.len() as u64) + params)
}

/// The type of a ping frame.
pub open spec fn ping_type(response: bool) -> u64 {
    if response {
        QX_PING_RESPONSE
    } else {
        QX_PING_REQUEST
    }
}

/// The frame that asks for a sign of life, or gives one.
pub open spec fn ping_frame(response: bool, seq: VarInt) -> Seq<u8> {
    encoding(ping_type(response)) + encoding(seq.value())
}

/// What follows the type of a close frame.
pub open spec fn close_body(close: Close<Seq<u8>>) -> Seq<u8> {
    encoding(close.error_code.value()) + (if close.is_application {
        Seq::empty()
    } else {
        encoding(named_type(close.frame_type).value())
    } + (encoding(close.reason.len() as u64) + close.reason))
}

/// The frame that closes the connection.
pub open spec fn close_frame(close: Close<Seq<u8>>) -> Seq<u8> {
    encoding(
        if close.is_application {
            APPLICATION_CLOSE
        } else {
            CONNECTION_CLOSE
        },
    ) + close_body(close)
}

/// Whether a frame, or the error, is what `spec` says.
pub open spec fn decoded_as(
    r: Result<Frame, TransportError>,
    rest: Seq<u8>,
    spec: Decoded,
) -> bool {
    match spec {
        Ok((frame, after)) => r is Ok && r->Ok_0@ == frame && rest == after,
        Err(e) => r is Err && r->Err_0@ == e,
    }
}

fn truncated() -> (e: TransportError)
    ensures
        e@ == truncated_frame(),
{
    TransportError::new(FRAME_ENCODING_ERROR, "truncated frame")
}

fn decode_close(is_application: bool, buf: &mut Bytes) -> (r: Option<Close>)
    ensures
        match take_close(is_application, octets(*old(buf))) {
            Some((close, rest)) => r is Some && r->0@ == close && octets(*final(buf)) == rest,
            None => r is None,
        },
{
    let error_code = match get_varint(buf) {
        Some(code) => code,
        None => return None,
    };
    let frame_type = if is_application {
        None
    } else {
        match get_varint(buf) {
            Some(ty) => Some(ty),
            None => return None,
        }
    };
    match get_sized(buf) {
        Some(reason) => Some(Close { is_application, error_code, frame_type, reason }),
        None => None,
    }
}

/// Decode the body of a frame of type `ty`.
fn decode_body(ty: u64, buf: &mut Bytes) -> (r: Result<Frame, TransportError>)
    ensures
        decoded_as(r, octets(*final(buf)), frame_body(ty, octets(*old(buf)))),
{
    let frame = match ty {
        STREAM_BASE..=STREAM_MAX => match decode_stream(ty, buf) {
            Some(stream) => Some(Frame::Stream(stream)),
            None => None,
        },
        RESET_STREAM => match decode_reset(buf) {
            Some(reset) => Some(Frame::ResetStream(reset)),
            None => None,
        },
        RESET_STREAM_AT => {
            let reset = match decode_reset(buf) {
                Some(reset) => reset,
                None => return Err(truncated()),
            };
            let reliable_size: u64 = match get_varint(buf) {
                Some(size) => size.into_inner(),
                None => return Err(truncated()),
            };
            if reliable_size > reset.final_offset.into_inner() {
                return Err(
                    TransportError::new(
                        FRAME_ENCODING_ERROR,
                        "RESET_STREAM_AT reliable size exceeds final size",
                    ),
                );
            }
            Some(Frame::ResetStreamAt(reset))
        },
        STOP_SENDING => match get_id_value(buf) {
            Some((id, error_code)) => Some(Frame::StopSending { id, error_code }),
            None => None,
        },
        MAX_DATA => match get_varint(buf) {
            Some(max) => Some(Frame::MaxData(max)),
            None => None,
        },
        MAX_STREAM_DATA => match get_id_value(buf) {
            Some((id, offset)) => Some(Frame::MaxStreamData { id, offset }),
            None => None,
        },
        MAX_STREAMS_BIDI | MAX_STREAMS_UNI => match get_varint(buf) {
            Some(count) => Some(
                Frame::MaxStreams {
                    dir: if ty == MAX_STREAMS_BIDI {
                        Dir::Bi
                    } else {
                        Dir::Uni
                    },
                    count,
                },
            ),
            None => None,
        },
        DATA_BLOCKED => match get_varint(buf) {
            Some(offset) => Some(Frame::DataBlocked { offset }),
            None => None,
        },
        STREAM_DATA_BLOCKED => match get_id_value(buf) {
            Some((id, offset)) => Some(Frame::StreamDataBlocked { id, offset }),
            None => None,
        },
        STREAMS_BLOCKED_BIDI | STREAMS_BLOCKED_UNI => match get_varint(buf) {
            Some(limit) => Some(
                Frame::StreamsBlocked {
                    dir: if ty == STREAMS_BLOCKED_BIDI {
                        Dir::Bi
                    } else {
                        Dir::Uni
                    },
                    limit,
                },
            ),
            None => None,
        },
        CONNECTION_CLOSE | APPLICATION_CLOSE => match decode_close(ty == APPLICATION_CLOSE, buf) {
            Some(close) => Some(Frame::Close(close)),
            None => None,
        },
        DATAGRAM => Some(Frame::Datagram(get_rest(buf))),
        DATAGRAM_LEN => match get_sized(buf) {
            Some(data) => Some(Frame::Datagram(data)),
            None => None,
        },
        QX_TRANSPORT_PARAMETERS => match get_sized(buf) {
            Some(blob) => Some(Frame::TransportParameters(blob)),
            None => None,
        },
        QX_PING_REQUEST => match get_varint(buf) {
            Some(seq) => Some(Frame::PingRequest(seq)),
            None => None,
        },
        QX_PING_RESPONSE => match get_varint(buf) {
            Some(seq) => Some(Frame::PingResponse(seq)),
            None => None,
        },
        _ => {
            let mut reason = "prohibited or unknown frame type ".to_owned();
            reason.append(hexadecimal(ty).as_str());
            return Err(TransportError::new(FRAME_ENCODING_ERROR, reason.as_str()));
        },
    };
    match frame {
        Some(frame) => Ok(frame),
        None => Err(truncated()),
    }
}

impl Frame<Bytes> {
    /// Decode the next frame of a record, skipping padding.
    ///
    /// Returns `None` once the record is exhausted. `buf` must hold the frames of a single
    /// record; a frame never spans records. After an error the record is of no further use.
    pub fn decode(buf: &mut Bytes) -> (r: Result<Option<Frame>, TransportError>)
        ensures
            match next_frame(octets(*old(buf))) {
                Ok(Some((frame, rest))) => r is Ok && r->Ok_0 is Some && r->Ok_0->0@ == frame
                    && octets(*final(buf)) == rest,
                Ok(None) => r is Ok && r->Ok_0 is None && octets(*final(buf)).len() == 0,
                Err(e) => r is Err && r->Err_0@ == e,
            },
    {
        loop
            invariant
                next_frame(octets(*buf)) == next_frame(octets(*old(buf))),
            decreases octets(*buf).len(),
        {
            if buf.len() == 0 {
                return Ok(None);
            }
            proof {
                lemma_take_varint_shortens(octets(*buf));
            }
            let ty: u64 = match get_varint(buf) {
                Some(ty) => ty.into_inner(),
                None => return Err(truncated()),
            };
            if ty != PADDING {
                return match decode_body(ty, buf) {
                    Ok(frame) => Ok(Some(frame)),
                    Err(e) => Err(e),
                };
            }
        }
    }
}

/// Append `x` to `buf`.
fn write_varint(buf: &mut Vec<u8>, x: u64)
    requires
        x < VARINT_BOUND,
    ensures
        final(buf)@ == old(buf)@ + encoding(x),
{
    match VarInt::from_u64(x) {
        Ok(v) => v.encode(buf),
        Err(_) => {},
    }
}

/// Length of the variable-length encoding of `x`.
pub fn varint_size(x: u64) -> (n: usize)
    ensures
        n == encoded_size(x),
{
    if x < 0x40 {
        1
    } else if x < 0x4000 {
        2
    } else if x < 0x4000_0000 {
        4
    } else {
        8
    }
}

/// Append the frame that announces the transport parameters in `params`.
pub fn encode_transport_parameters(buf: &mut Vec<u8>, params: &[u8])
    requires
        params@.len() < VARINT_BOUND,
    ensures
        final(buf)@ == old(buf)@ + transport_parameters_frame(params@),
{
    write_varint(buf, QX_TRANSPORT_PARAMETERS);
    write_varint(buf, params.len() as u64);
    append(buf, params);
    assert(buf@ =~= old(buf)@ + transport_parameters_frame(params@));
}

/// Append a ping request or response.
pub fn encode_ping(buf: &mut Vec<u8>, response: bool, seq: VarInt)
    ensures
        final(buf)@ == old(buf)@ + ping_frame(response, seq),
{
    write_varint(
        buf,
        if response {
            QX_PING_RESPONSE
        } else {
            QX_PING_REQUEST
        },
    );
    seq.encode(buf);
    assert(buf@ =~= old(buf)@ + ping_frame(response, seq));
}

/// Size of an encoded ping frame with the given sequence number.
pub fn ping_size(seq: VarInt) -> (n: usize)
    ensures
        forall|response: bool| n == #[trigger] ping_frame(response, seq).len(),
        n == 8 + encoded_size(seq.value()),
        n <= 16,
{
    8 + varint_size(seq.into_inner())
}

/// Append the frame that carries the datagram `data`.
pub fn encode_datagram(buf: &mut Vec<u8>, data: &[u8])
    requires
        data@.len() < VARINT_BOUND,
    ensures
        final(buf)@ == old(buf)@ + datagram_frame(data@),
{
    write_varint(buf, DATAGRAM_LEN);
    write_varint(buf, data.len() as u64);
    append(buf, data);
    assert(buf@ =~= old(buf)@ + datagram_frame(data@));
}

/// Total encoded size of a length-prefixed DATAGRAM frame carrying `len` payload octets.
pub fn datagram_frame_size(len: usize) -> (n: u128)
    ensures
        n == datagram_size(len as nat),
{
    1 + varint_size(len as u64) as u128 + len as u128
}

/// Append the frame that closes the connection.
pub fn encode_close(buf: &mut Vec<u8>, close: &Close)
    requires
        octets(close.reason).len() < VARINT_BOUND,
    ensures
        final(buf)@ == old(buf)@ + close_frame(close@),
{
    write_varint(
        buf,
        if close.is_application {
            APPLICATION_CLOSE
        } else {
            CONNECTION_CLOSE
        },
    );
    close.error_code.encode(buf);
    if !close.is_application {
        let ty = match close.frame_type {
            Some(ty) => ty,
            None => VarInt::from_u32(0),
        };
        ty.encode(buf);
    }
    write_varint(buf, close.reason.len() as u64);
    append(buf, as_slice(&close.reason));
    assert(buf@ =~= old(buf)@ + close_frame(close@));
}

/// A frame type in front of a body makes the decoder read that body.
pub proof fn lemma_frame(ty: u64, body: Seq<u8>)
    requires
        PADDING < ty < VARINT_BOUND,
    ensures
        next_frame(encoding(ty) + body) == match frame_body(ty, body) {
            Ok((frame, rest)) => Ok::<Option<(Frame<Seq<u8>>, Seq<u8>)>, TransportError<Seq<char>>>(
                Some((frame, rest)),
            ),
            Err(e) => Err(e),
        },
{
    lemma_take_varint(ty, body);
    crate::varint::law_decode_encode(ty, body);
}

/// The transport parameters come out of their frame as they went in, whatever follows.
pub proof fn law_transport_parameters_round_trip(params: Seq<u8>, rest: Seq<u8>)
    requires
        params.len() < VARINT_BOUND,
    ensures
        next_frame(transport_parameters_frame(params) + rest) == Ok::<
            Option<(Frame<Seq<u8>>, Seq<u8>)>,
            TransportError<Seq<char>>,
        >(Some((Frame::TransportParameters(params), rest))),
{
    let body = encoding(params.len() as u64) + params + rest;
    assert(transport_parameters_frame(params) + rest =~= encoding(QX_TRANSPORT_PARAMETERS) + body);
    lemma_frame(QX_TRANSPORT_PARAMETERS, body);
    lemma_sized(params, rest);
}

/// A ping comes out of its frame as it went in, whatever follows, and the frame has the size
/// that is reserved for it.
pub proof fn law_ping_round_trip(response: bool, seq: VarInt, rest: Seq<u8>)
    requires
        seq.value() < VARINT_BOUND,
    ensures
        next_frame(ping_frame(response, seq) + rest) == Ok::<
            Option<(Frame<Seq<u8>>, Seq<u8>)>,
            TransportError<Seq<char>>,
        >(
            Some(
                (
                    if response {
                        Frame::PingResponse(seq)
                    } else {
                        Frame::PingRequest(seq)
                    },
                    rest,
                ),
            ),
        ),
        ping_frame(response, seq).len() == 8 + encoded_size(seq.value()),
{
    let body = encoding(seq.value()) + rest;
    assert(ping_frame(response, seq) + rest =~= encoding(ping_type(response)) + body);
    lemma_frame(ping_type(response), body);
    lemma_take_varint(seq.value(), rest);
}

/// A datagram comes out of its frame as it went in, whatever follows, and the frame has the
/// size that is checked against the peer's limit.
pub proof fn law_datagram_round_trip(data: Seq<u8>, rest: Seq<u8>)
    requires
        data.len() < VARINT_BOUND,
    ensures
        next_frame(datagram_frame(data) + rest) == Ok::<
            Option<(Frame<Seq<u8>>, Seq<u8>)>,
            TransportError<Seq<char>>,
        >(Some((Frame::Datagram(data), rest))),
        datagram_frame(data).len() == datagram_size(data.len()),
{
    let body = encoding(data.len() as u64) + data + rest;
    assert(datagram_frame(data) + rest =~= encoding(DATAGRAM_LEN) + body);
    lemma_frame(DATAGRAM_LEN, body);
    lemma_sized(data, rest);
}

/// A close comes out of its frame as it went in, whatever follows; a transport close that
/// names no frame type comes out naming type zero.
pub proof fn law_close_round_trip(close: Close<Seq<u8>>, rest: Seq<u8>)
    requires
        close.reason.len() < VARINT_BOUND,
        close.error_code.value() < VARINT_BOUND,
        named_type(close.frame_type).value() < VARINT_BOUND,
    ensures
        next_frame(close_frame(close) + rest) == Ok::<
            Option<(Frame<Seq<u8>>, Seq<u8>)>,
            TransportError<Seq<char>>,
        >(
            Some(
                (
                    Frame::Close(
                        Close {
                            frame_type: if close.is_application {
                                None
                            } else {
                                Some(named_type(close.frame_type))
                            },
                            ..close
                        },
                    ),
                    rest,
                ),
            ),
        ),
{
    let ty = if close.is_application {
        APPLICATION_CLOSE
    } else {
        CONNECTION_CLOSE
    };
    let tail = encoding(close.reason.len() as u64) + close.reason + rest;
    let middle = if close.is_application {
        tail
    } else {
        encoding(named_type(close.frame_type).value()) + tail
    };
    let body = encoding(close.error_code.value()) + middle;
    assert(close_frame(close) + rest =~= encoding(ty) + body);
    lemma_frame(ty, body);
    lemma_take_varint(close.error_code.value(), middle);
    lemma_take_varint(named_type(close.frame_type).value(), tail);
    lemma_sized(close.reason, rest);
}

/// Padding in front of frames changes nothing.
pub proof fn law_padding_skipped(s: Seq<u8>)
    ensures
        next_frame(seq![0u8] + s) == next_frame(s),
{
    lemma_take_varint(PADDING, s);
    assert(encoding(PADDING) =~= seq![0u8]) by {
        reveal(encoding);
    }
}

/// Every decoded frame takes at least one octet, so the frames of a record are exhausted
/// after finitely many calls.
pub proof fn law_frame_progress(s: Seq<u8>)
    ensures
        next_frame(s) matches Ok(Some((frame, rest))) ==> rest.len() < s.len(),
    decreases s.len(),
{
    lemma_take_varint_shortens(s);
    if s.len() > 0 {
        if let Some((ty, rest)) = take_varint(s) {
            if ty.value() == PADDING {
                law_frame_progress(rest);
            } else {
                lemma_body_progress(ty.value(), rest);
            }
        }
    }
}

proof fn lemma_body_progress(ty: u64, s: Seq<u8>)
    ensures
        frame_body(ty, s) matches Ok((frame, rest)) ==> rest.len() <= s.len(),
{
    lemma_take_varint_shortens(s);
    lemma_sized_progress(s);
    if let Some((v, s1)) = take_varint(s) {
        lemma_take_varint_shortens(s1);
        lemma_sized_progress(s1);
        if let Some((v, s2)) = take_varint(s1) {
            lemma_take_varint_shortens(s2);
            lemma_sized_progress(s2);
            if let Some((v, s3)) = take_varint(s2) {
                lemma_take_varint_shortens(s3);
            }
        }
    }
}

} // verus!
