//! Standard QUIC wire frames used by reliable carriers.

use crate::buffer::{
    append, as_slice, from_vec, get_varint, lemma_take_varint, lemma_take_varint_shortens, octets,
    take_varint,
};
use crate::streams::frame::{
    decode_with_type, is_reliable, lemma_sized, lemma_sized_progress, provoking_type, reliable,
    take_wire_frame, unexpected_end, ApplicationClose, ConnectionClose, WireFrame,
    APPLICATION_CLOSE, CONNECTION_CLOSE, DATAGRAM_LEN,
};
use crate::streams::reliable::{public_frame, stream_related, Frame as StreamFrame};
use crate::transport_error::{TransportError, FRAME_ENCODING_ERROR};
use crate::varint::{encoded_size, encoding, group_varint, VarInt, VARINT_BOUND};
use bytes::Bytes;
use vstd::prelude::*;

verus! {

broadcast use group_varint;

/// A standard QUIC frame that is meaningful on a reliable carrier.
///
/// Frame types not represented here are left to the carrier, which can interleave frames of
/// its own with the standard ones.
#[derive(Debug, Clone)]
#[non_exhaustive]
pub enum Frame<B = Bytes> {
    /// A frame type outside the standard reliable-carrier subset.
    ///
    /// The type has been consumed, while its body remains at the front of the input buffer
    /// for the carrier to decode.
    Other(VarInt),
    /// Padding.
    Padding,
    /// A stream lifecycle or flow-control frame.
    Stream(StreamFrame<B>),
    /// An unreliable datagram.
    Datagram {
        /// Datagram payload.
        data: B,
        /// Encoded frame size, including the frame type and optional length.
        encoded_size: usize,
    },
    /// A transport-level connection close.
    ConnectionClose(ConnectionClose<B>),
    /// An application-level connection close.
    ApplicationClose(ApplicationClose<B>),
}

impl View for Frame<Bytes> {
    type V = Frame<Seq<u8>>;

    open spec fn view(&self) -> Frame<Seq<u8>> {
        match *self {
            Frame::Other(ty) => Frame::Other(ty),
            Frame::Padding => Frame::Padding,
            Frame::Stream(frame) => Frame::Stream(frame@),
            Frame::Datagram { data, encoded_size } => Frame::Datagram {
                data: octets(data),
                encoded_size,
            },
            Frame::ConnectionClose(close) => Frame::ConnectionClose(close@),
            Frame::ApplicationClose(close) => Frame::ApplicationClose(close@),
        }
    }
}

/// The frame as a carrier sees it, given the number of octets it took.
pub open spec fn carried(frame: WireFrame<Seq<u8>>, encoded_size: nat) -> Frame<Seq<u8>> {
    match frame {
        WireFrame::Padding => Frame::Padding,
        WireFrame::Datagram(data) => Frame::Datagram { data, encoded_size: encoded_size as usize },
        WireFrame::ConnectionClose(close) => Frame::ConnectionClose(close),
        WireFrame::ApplicationClose(close) => Frame::ApplicationClose(close),
        _ => Frame::Stream(stream_related(frame)->0),
    }
}

/// The frame at the front of `s` and what follows it, or why there is none.
pub open spec fn decoded(s: Seq<u8>) -> Result<
    (Frame<Seq<u8>>, Seq<u8>),
    TransportError<Seq<char>>,
> {
    match take_varint(s) {
        None => Err(unexpected_end(None)),
        Some((ty, body)) => if !is_reliable(ty.value()) {
            Ok((Frame::Other(ty), body))
        } else {
            match take_wire_frame(ty.value(), body) {
                None => Err(unexpected_end(Some(ty))),
                Some((frame, rest)) => Ok((carried(frame, (s.len() - rest.len()) as nat), rest)),
            }
        },
    }
}

/// The frame that carries the datagram `data`.
pub open spec fn datagram_frame(data: Seq<u8>) -> Seq<u8> {
    encoding(DATAGRAM_LEN) + (encoding(data.len() as u64) + data)
}

/// Number of octets in the frame that carries a datagram of `len` octets.
pub open spec fn datagram_size(len: nat) -> nat {
    1 + encoded_size(len as u64) + len
}

/// The frame that closes the connection for the application.
pub open spec fn application_close_frame(error_code: VarInt, reason: Seq<u8>) -> Seq<u8> {
    encoding(APPLICATION_CLOSE) + (encoding(error_code.value()) + (encoding(reason.len() as u64)
        + reason))
}

/// The frame type that a CONNECTION_CLOSE frame names; zero where none is known.
pub open spec fn named_type(frame_type: Option<VarInt>) -> VarInt {
    match frame_type {
        Some(ty) => ty,
        None => VarInt::of(0),
    }
}

/// The frame that closes the connection for the transport.
pub open spec fn connection_close_frame(close: ConnectionClose<Seq<u8>>) -> Seq<u8> {
    encoding(CONNECTION_CLOSE) + (encoding(close.error_code.value()) + (encoding(
        named_type(close.frame_type).value(),
    ) + (encoding(close.reason.len() as u64) + close.reason)))
}

/// Decode one standard QUIC frame used by a reliable carrier.
///
/// Other frame types are returned as [`Frame::Other`] after consuming only the type, so the
/// carrier can decode an extension or reject a prohibited standard frame. Malformed recognized
/// frames are reported as frame-encoding errors; after one the payload is of no further use.
pub fn decode(payload: &mut Bytes) -> (r: Result<Frame, TransportError>)
    ensures
        match decoded(octets(*old(payload))) {
            Ok((frame, rest)) => r is Ok && r->Ok_0@ == frame && octets(*final(payload)) == rest,
            Err(e) => r is Err && r->Err_0@ == e,
        },
{
    let before: usize = payload.len();
    proof {
        lemma_decoded_progress(octets(*payload));
    }
    let ty = match get_varint(payload) {
        Some(ty) => ty,
        None => return Err(TransportError::new(FRAME_ENCODING_ERROR, "unexpected end")),
    };
    if !reliable(ty) {
        return Ok(Frame::Other(ty));
    }
    let frame = match decode_with_type(ty, payload) {
        Ok(frame) => frame,
        Err(e) => return Err(e),
    };
    let encoded_size: usize = before - payload.len();
    match frame {
        WireFrame::Padding => Ok(Frame::Padding),
        WireFrame::Datagram(data) => Ok(Frame::Datagram { data, encoded_size }),
        WireFrame::ConnectionClose(close) => Ok(Frame::ConnectionClose(close)),
        WireFrame::ApplicationClose(close) => Ok(Frame::ApplicationClose(close)),
        frame => match public_frame(frame) {
            Some(frame) => Ok(Frame::Stream(frame)),
            None => Ok(Frame::Padding),
        },
    }
}

fn put_length(out: &mut Vec<u8>, len: usize)
    requires
        len < VARINT_BOUND,
    ensures
        final(out)@ == old(out)@ + encoding(len as u64),
{
    match VarInt::from_u64(len as u64) {
        Ok(len) => len.encode(out),
        Err(_) => {},
    }
}

/// Encode a length-prefixed QUIC DATAGRAM frame for a reliable carrier.
pub fn encode_datagram(data: Bytes) -> (r: Bytes)
    requires
        octets(data).len() < VARINT_BOUND,
    ensures
        octets(r) == datagram_frame(octets(data)),
{
    let mut out: Vec<u8> = Vec::new();
    VarInt::from_u32(0x31).encode(&mut out);
    put_length(&mut out, data.len());
    append(&mut out, as_slice(&data));
    assert(out@ =~= datagram_frame(octets(data)));
    from_vec(out)
}

/// Encode an application-level QUIC connection-close frame without truncation.
pub fn encode_application_close(error_code: VarInt, reason: Bytes) -> (r: Bytes)
    requires
        octets(reason).len() < VARINT_BOUND,
    ensures
        octets(r) == application_close_frame(error_code, octets(reason)),
{
    let mut out: Vec<u8> = Vec::new();
    VarInt::from_u32(0x1d).encode(&mut out);
    error_code.encode(&mut out);
    put_length(&mut out, reason.len());
    append(&mut out, as_slice(&reason));
    assert(out@ =~= application_close_frame(error_code, octets(reason)));
    from_vec(out)
}

/// Encode a transport-level QUIC connection-close frame without truncation.
pub fn encode_connection_close(frame: ConnectionClose) -> (r: Bytes)
    requires
        octets(frame.reason).len() < VARINT_BOUND,
    ensures
        octets(r) == connection_close_frame(frame@),
{
    let mut out: Vec<u8> = Vec::new();
    VarInt::from_u32(0x1c).encode(&mut out);
    frame.error_code.encode(&mut out);
    let ty = match frame.frame_type {
        Some(ty) => ty,
        None => VarInt::from_u32(0),
    };
    ty.encode(&mut out);
    put_length(&mut out, frame.reason.len());
    append(&mut out, as_slice(&frame.reason));
    assert(out@ =~= connection_close_frame(frame@));
    from_vec(out)
}

/// What follows a frame's body is no longer than what was there.
pub proof fn lemma_wire_progress(ty: u64, s: Seq<u8>)
    ensures
        take_wire_frame(ty, s) matches Some((frame, rest)) ==> rest.len() <= s.len(),
{
    lemma_take_varint_shortens(s);
    lemma_sized_progress(s);
    if let Some((v, s1)) = take_varint(s) {
        lemma_take_varint_shortens(s1);
        lemma_sized_progress(s1);
        if let Some((v, s2)) = take_varint(s1) {
            lemma_take_varint_shortens(s2);
            lemma_sized_progress(s2);
        }
    }
}

proof fn lemma_decoded_progress(s: Seq<u8>)
    ensures
        decoded(s) matches Ok((frame, rest)) ==> rest.len() < s.len(),
        take_varint(s) matches Some((ty, body)) ==> {
            &&& body.len() < s.len()
            &&& take_wire_frame(ty.value(), body) matches Some((frame, rest)) ==> rest.len()
                <= body.len()
        },
{
    lemma_take_varint_shortens(s);
    if let Some((ty, body)) = take_varint(s) {
        lemma_wire_progress(ty.value(), body);
    }
}

/// Every decoded frame takes at least one octet.
pub proof fn law_decode_progress(s: Seq<u8>)
    ensures
        decoded(s) matches Ok((frame, rest)) ==> rest.len() < s.len(),
{
    lemma_decoded_progress(s);
}

/// A type outside the standard subset is consumed and its body left untouched.
pub proof fn law_other_left_to_carrier(ty: VarInt, body: Seq<u8>)
    requires
        ty.value() < VARINT_BOUND,
        !is_reliable(ty.value()),
    ensures
        decoded(encoding(ty.value()) + body) == Ok::<_, TransportError<Seq<char>>>(
            (Frame::<Seq<u8>>::Other(ty), body),
        ),
{
    lemma_take_varint(ty.value(), body);
}

/// A datagram comes out of its frame as it went in, whatever follows, together with the size
/// of the frame.
pub proof fn law_datagram_round_trip(data: Seq<u8>, rest: Seq<u8>)
    requires
        data.len() < VARINT_BOUND,
        datagram_size(data.len()) <= usize::MAX,
    ensures
        decoded(datagram_frame(data) + rest) == Ok::<_, TransportError<Seq<char>>>(
            (
                Frame::Datagram { data, encoded_size: datagram_size(data.len()) as usize },
                rest,
            ),
        ),
        datagram_frame(data).len() == datagram_size(data.len()),
{
    let body = encoding(data.len() as u64) + data + rest;
    assert(datagram_frame(data) + rest =~= encoding(DATAGRAM_LEN) + body);
    lemma_take_varint(DATAGRAM_LEN, body);
    lemma_sized(data, rest);
}

/// An application close comes out of its frame as it went in, whatever follows.
pub proof fn law_application_close_round_trip(error_code: VarInt, reason: Seq<u8>, rest: Seq<u8>)
    requires
        error_code.value() < VARINT_BOUND,
        reason.len() < VARINT_BOUND,
    ensures
        decoded(application_close_frame(error_code, reason) + rest) == Ok::<
            _,
            TransportError<Seq<char>>,
        >((Frame::ApplicationClose(ApplicationClose { error_code, reason }), rest)),
{
    let tail = encoding(reason.len() as u64) + reason + rest;
    let body = encoding(error_code.value()) + tail;
    assert(application_close_frame(error_code, reason) + rest =~= encoding(APPLICATION_CLOSE)
        + body);
    lemma_take_varint(APPLICATION_CLOSE, body);
    lemma_take_varint(error_code.value(), tail);
    lemma_sized(reason, rest);
}

/// A transport close comes out of its frame as it went in, whatever follows. Type zero stands
/// for no type.
pub proof fn law_connection_close_round_trip(close: ConnectionClose<Seq<u8>>, rest: Seq<u8>)
    requires
        close.error_code.value() < VARINT_BOUND,
        named_type(close.frame_type).value() < VARINT_BOUND,
        close.reason.len() < VARINT_BOUND,
    ensures
        decoded(connection_close_frame(close) + rest) == Ok::<_, TransportError<Seq<char>>>(
            (
                Frame::ConnectionClose(
                    ConnectionClose {
                        frame_type: provoking_type(named_type(close.frame_type)),
                        ..close
                    },
                ),
                rest,
            ),
        ),
{
    let tail = encoding(close.reason.len() as u64) + close.reason + rest;
    let middle = encoding(named_type(close.frame_type).value()) + tail;
    let body = encoding(close.error_code.value()) + middle;
    assert(connection_close_frame(close) + rest =~= encoding(CONNECTION_CLOSE) + body);
    lemma_take_varint(CONNECTION_CLOSE, body);
    lemma_take_varint(close.error_code.value(), middle);
    lemma_take_varint(named_type(close.frame_type).value(), tail);
    lemma_sized(close.reason, rest);
}

} // verus!
