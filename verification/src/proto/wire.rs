//! QMux additions to the QUIC wire format.
//!
//! QMux reuses the QUIC version 1 frame formats verbatim, so records are parsed with the
//! frame parser in [`quic`](crate::proto::quic). This module supplies only what that parser
//! does not know: the QMux extension frames (`QX_TRANSPORT_PARAMETERS`, `QX_PING`) and
//! RESET_STREAM_AT from the partial-delivery extension, which are intercepted by their type.

use crate::buffer::{
    get_varint, lemma_take_octets, lemma_take_varint, lemma_take_varint_shortens, octets,
    take_varint,
};
use crate::proto::frame::{
    self, ping_frame, ping_type, transport_parameters_frame, truncated_frame,
    QX_PING_REQUEST, QX_PING_RESPONSE, QX_TRANSPORT_PARAMETERS, RESET_STREAM_AT,
};
use crate::proto::quic::{
    decode_quic, lemma_quic_progress, take_all_ranges, take_prohibited, take_quic, take_ranges,
    EcnCounts, Flaw, ProhibitedFrame, QuicFrame,
};
use crate::streams::frame::{
    decode_reset, get_sized, is_reliable, lemma_sized, lemma_sized_progress, take_reset, take_sized,
    ResetStream, WireFrame,
};
use crate::streams::octets::{
    encodable_frame, frame_octets, law_frames_decoded, lemma_stream_fields, stream_fields,
    stream_type,
};
use crate::streams::reliable::Frame as StreamFrame;
use crate::transport_error::{transport_error, TransportError, FRAME_ENCODING_ERROR};
use crate::varint::{encoded_size, encoding, group_varint, VarInt, VARINT_BOUND};
use bytes::Bytes;
use vstd::prelude::*;

verus! {

broadcast use group_varint;

/// One frame of a QMux record.
#[derive(Debug)]
pub enum QmuxFrame<B = Bytes> {
    /// A standard frame. The connection rejects those that QMux prohibits (ACK, CRYPTO, ...).
    Quic(QuicFrame<B>),
    /// The transport parameters of the peer.
    TransportParameters(B),
    /// The peer asks for a sign of life.
    PingRequest(VarInt),
    /// The peer gives a sign of life.
    PingResponse(VarInt),
    /// Checked while decoding; the reliable size is irrelevant on a reliable transport.
    ResetStreamAt(ResetStream),
}

impl View for QmuxFrame<Bytes> {
    type V = QmuxFrame<Seq<u8>>;

    open spec fn view(&self) -> QmuxFrame<Seq<u8>> {
        match *self {
            QmuxFrame::Quic(frame) => QmuxFrame::Quic(frame@),
            QmuxFrame::TransportParameters(blob) => QmuxFrame::TransportParameters(octets(blob)),
            QmuxFrame::PingRequest(seq) => QmuxFrame::PingRequest(seq),
            QmuxFrame::PingResponse(seq) => QmuxFrame::PingResponse(seq),
            QmuxFrame::ResetStreamAt(reset) => QmuxFrame::ResetStreamAt(reset),
        }
    }
}

/// The extension frame of type `ty` whose body is at the front of `s`, and what follows it.
pub open spec fn extension_body(ty: u64, s: Seq<u8>) -> Result<
    (QmuxFrame<Seq<u8>>, Seq<u8>),
    TransportError<Seq<char>>,
> {
    if ty == QX_TRANSPORT_PARAMETERS {
        match take_sized(s) {
            Some((blob, rest)) => Ok((QmuxFrame::TransportParameters(blob), rest)),
            None => Err(truncated_frame()),
        }
    } else if ty == QX_PING_REQUEST {
        match take_varint(s) {
            Some((seq, rest)) => Ok((QmuxFrame::PingRequest(seq), rest)),
            None => Err(truncated_frame()),
        }
    } else if ty == QX_PING_RESPONSE {
        match take_varint(s) {
            Some((seq, rest)) => Ok((QmuxFrame::PingResponse(seq), rest)),
            None => Err(truncated_frame()),
        }
    } else {
        match take_reset(s) {
            Some((reset, s1)) => match take_varint(s1) {
                Some((reliable_size, rest)) => if reliable_size.value()
                    > reset.final_offset.value() {
                    Err(
                        transport_error(
                            FRAME_ENCODING_ERROR,
                            "RESET_STREAM_AT reliable size exceeds final size"@,
                        ),
                    )
                } else {
                    Ok((QmuxFrame::ResetStreamAt(reset), rest))
                },
                None => Err(truncated_frame()),
            },
            None => Err(truncated_frame()),
        }
    }
}

/// Whether `ty` is intercepted before the shared parser sees it.
pub open spec fn is_extension(ty: u64) -> bool {
    ty == QX_TRANSPORT_PARAMETERS || ty == QX_PING_REQUEST || ty == QX_PING_RESPONSE || ty
        == RESET_STREAM_AT
}

/// The frame at the front of `s` and what follows it; `None` once `s` is exhausted.
pub open spec fn following_frame(s: Seq<u8>) -> Result<
    Option<(QmuxFrame<Seq<u8>>, Seq<u8>)>,
    TransportError<Seq<char>>,
> {
    if s.len() == 0 {
        Ok(None)
    } else {
        match take_varint(s) {
            None => Err(truncated_frame()),
            Some((ty, body)) => if is_extension(ty.value()) {
                match extension_body(ty.value(), body) {
                    Ok((frame, rest)) => Ok(Some((frame, rest))),
                    Err(e) => Err(e),
                }
            } else {
                match take_quic(ty, body) {
                    Ok((frame, rest)) => Ok(Some((QmuxFrame::Quic(frame), rest))),
                    Err(e) => Err(e),
                }
            },
        }
    }
}

fn truncated() -> (e: TransportError)
    ensures
        e@ == truncated_frame(),
{
    TransportError::new(FRAME_ENCODING_ERROR, "truncated frame")
}

fn decode_reset_at(buf: &mut Bytes) -> (r: Result<QmuxFrame, TransportError>)
    ensures
        match extension_body(RESET_STREAM_AT, octets(*old(buf))) {
            Ok((frame, rest)) => r is Ok && r->Ok_0@ == frame && octets(*final(buf)) == rest,
            Err(e) => r is Err && r->Err_0@ == e,
        },
{
    let reset = match decode_reset(buf) {
        Some(reset) => reset,
        None => return Err(truncated()),
    };
    let reliable_size: u64 = match get_varint(buf) {
        Some(size) => size.into_inner(),
        None => return Err(truncated()),
    };
    if reliable_size > reset.final_offset.into_inner() {
        return Err(
            TransportError::new(
                FRAME_ENCODING_ERROR,
                "RESET_STREAM_AT reliable size exceeds final size",
            ),
        );
    }
    Ok(QmuxFrame::ResetStreamAt(reset))
}

/// Decode the next frame from a record's frames payload.
///
/// Returns `None` once the record is exhausted. A frame never spans records. After an error
/// the record is of no further use.
pub fn next_frame(buf: &mut Bytes) -> (r: Result<Option<QmuxFrame>, TransportError>)
    ensures
        match following_frame(octets(*old(buf))) {
            Ok(Some((frame, rest))) => r is Ok && r->Ok_0 is Some && r->Ok_0->0@ == frame
                && octets(*final(buf)) == rest,
            Ok(None) => r is Ok && r->Ok_0 is None && *final(buf) == *old(buf),
            Err(e) => r is Err && r->Err_0@ == e,
        },
{
    if buf.len() == 0 {
        return Ok(None);
    }
    let ty = match get_varint(buf) {
        Some(ty) => ty,
        None => return Err(truncated()),
    };
    match ty.into_inner() {
        QX_TRANSPORT_PARAMETERS => match get_sized(buf) {
            Some(blob) => Ok(Some(QmuxFrame::TransportParameters(blob))),
            None => Err(truncated()),
        },
        QX_PING_REQUEST => match get_varint(buf) {
            Some(seq) => Ok(Some(QmuxFrame::PingRequest(seq))),
            None => Err(truncated()),
        },
        QX_PING_RESPONSE => match get_varint(buf) {
            Some(seq) => Ok(Some(QmuxFrame::PingResponse(seq))),
            None => Err(truncated()),
        },
        RESET_STREAM_AT => match decode_reset_at(buf) {
            Ok(frame) => Ok(Some(frame)),
            Err(e) => Err(e),
        },
        _ => match decode_quic(ty, buf) {
            Ok(frame) => Ok(Some(QmuxFrame::Quic(frame))),
            Err(e) => Err(e),
        },
    }
}

/// Append the frame that announces the transport parameters in `params`.
pub fn encode_transport_parameters(buf: &mut Vec<u8>, params: &[u8])
    requires
        params@.len() < VARINT_BOUND,
    ensures
        final(buf)@ == old(buf)@ + transport_parameters_frame(params@),
{
    frame::encode_transport_parameters(buf, params)
}

/// Append a ping request or response.
pub fn encode_ping(buf: &mut Vec<u8>, response: bool, seq: VarInt)
    ensures
        final(buf)@ == old(buf)@ + ping_frame(response, seq),
{
    frame::encode_ping(buf, response, seq)
}

/// Size of an encoded ping frame with the given sequence number.
pub fn ping_size(seq: VarInt) -> (n: usize)
    ensures
        n == 8 + encoded_size(seq.value()),
{
    8 + seq.size()
}

/// The extension frames come out as they went in, whatever follows.
pub proof fn law_extensions_round_trip(params: Seq<u8>, response: bool, seq: VarInt, rest: Seq<u8>)
    requires
        params.len() < VARINT_BOUND,
        seq.value() < VARINT_BOUND,
    ensures
        following_frame(transport_parameters_frame(params) + rest) == Ok::<
            _,
            TransportError<Seq<char>>,
        >(Some((QmuxFrame::TransportParameters(params), rest))),
        following_frame(ping_frame(response, seq) + rest) == Ok::<_, TransportError<Seq<char>>>(
            Some(
                (
                    if response {
                        QmuxFrame::<Seq<u8>>::PingResponse(seq)
                    } else {
                        QmuxFrame::PingRequest(seq)
                    },
                    rest,
                ),
            ),
        ),
{
    let blob = encoding(params.len() as u64) + params + rest;
    assert(transport_parameters_frame(params) + rest =~= encoding(QX_TRANSPORT_PARAMETERS) + blob);
    lemma_take_varint(QX_TRANSPORT_PARAMETERS, blob);
    lemma_sized(params, rest);
    let body = encoding(seq.value()) + rest;
    assert(ping_frame(response, seq) + rest =~= encoding(ping_type(response)) + body);
    lemma_take_varint(ping_type(response), body);
    lemma_take_varint(seq.value(), rest);
}

/// Every frame takes at least its type, so a record is exhausted after finitely many.
pub proof fn law_following_progress(s: Seq<u8>)
    ensures
        following_frame(s) matches Ok(Some((frame, rest))) ==> rest.len() < s.len(),
{
    lemma_take_varint_shortens(s);
    if let Some((ty, body)) = take_varint(s) {
        lemma_quic_progress(ty, body);
        lemma_sized_progress(body);
        lemma_take_varint_shortens(body);
        if let Some((v1, s1)) = take_varint(body) {
            lemma_take_varint_shortens(s1);
            if let Some((v2, s2)) = take_varint(s1) {
                lemma_take_varint_shortens(s2);
                if let Some((v3, s3)) = take_varint(s2) {
                    lemma_take_varint_shortens(s3);
                }
            }
        }
    }
}

/// Both parsers of a record agree on every frame that does not belong on a reliable carrier.
/// An extension frame is read alike. Any other type one of them refuses whatever its body holds;
/// the other reads a standard frame to its end, so that it can be refused for what it is, and
/// reports a broken or unknown one under the same error code.
pub proof fn law_parsers_agree(s: Seq<u8>)
    requires
        take_varint(s) matches Some((ty, body)) ==> !is_reliable(ty.value()),
    ensures
        match (frame::next_frame(s), following_frame(s)) {
            (Ok(None), Ok(None)) => true,
            (Ok(Some((frame, rest))), Ok(Some((ext, after)))) => rest == after && match (
                frame,
                ext,
            ) {
                (
                    frame::Frame::TransportParameters(a),
                    QmuxFrame::TransportParameters(b),
                ) => a == b,
                (frame::Frame::PingRequest(a), QmuxFrame::PingRequest(b)) => a == b,
                (frame::Frame::PingResponse(a), QmuxFrame::PingResponse(b)) => a == b,
                (frame::Frame::ResetStreamAt(a), QmuxFrame::ResetStreamAt(b)) => a == b,
                _ => false,
            },
            (Err(e), Ok(Some((QmuxFrame::Quic(QuicFrame::Prohibited(p)), rest)))) => {
                &&& take_varint(s) is Some
                &&& e == frame::prohibited_frame(take_varint(s).unwrap().0.value())
                &&& take_prohibited(
                    take_varint(s).unwrap().0.value(),
                    take_varint(s).unwrap().1,
                ) == Ok::<_, Flaw>((p, rest))
            },
            (Err(e), Err(d)) => e.code == d.code && (e == d || e == frame::prohibited_frame(
                take_varint(s).unwrap().0.value(),
            )),
            _ => false,
        },
{
}

/// Whether the parser reads a frame that QMux prohibits, and leaves what follows it.
pub open spec fn reads(s: Seq<u8>, frame: ProhibitedFrame<Seq<u8>>, rest: Seq<u8>) -> bool {
    following_frame(s) == Ok::<_, TransportError<Seq<char>>>(
        Some((QmuxFrame::Quic(QuicFrame::Prohibited(frame)), rest)),
    )
}

/// Whether the parser refuses a frame of the given type as malformed.
pub open spec fn malformed(s: Seq<u8>, ty: u64) -> bool {
    following_frame(s) matches Err(e) && e.code.value() == 0x07 && e.frame == Some(VarInt::of(ty))
}

/// The standard frames without or with few fields are read to their end, field by field, whatever
/// follows.
pub proof fn law_plain_frames_read(
    offset: VarInt,
    data: Seq<u8>,
    eight: Seq<u8>,
    rest: Seq<u8>,
)
    requires
        offset.in_range(),
        data.len() < VARINT_BOUND,
        eight.len() == 8,
    ensures
        reads(encoding(0x01) + rest, ProhibitedFrame::Ping, rest),
        reads(encoding(0x1e) + rest, ProhibitedFrame::HandshakeDone, rest),
        reads(
            encoding(0x06) + (encoding(offset.value()) + (encoding(data.len() as u64) + data
                + rest)),
            ProhibitedFrame::Crypto { offset, data },
            rest,
        ),
        reads(
            encoding(0x07) + (encoding(data.len() as u64) + data + rest),
            ProhibitedFrame::NewToken(data),
            rest,
        ),
        reads(
            encoding(0x19) + (encoding(offset.value()) + rest),
            ProhibitedFrame::RetireConnectionId(offset),
            rest,
        ),
        reads(encoding(0x1a) + (eight + rest), ProhibitedFrame::PathChallenge(eight), rest),
        reads(encoding(0x1b) + (eight + rest), ProhibitedFrame::PathResponse(eight), rest),
{
    let sized = encoding(data.len() as u64) + data + rest;
    lemma_sized(data, rest);
    lemma_take_octets(eight, rest);
    lemma_take_varint(0x01, rest);
    lemma_take_varint(0x1e, rest);
    lemma_take_varint(0x06, encoding(offset.value()) + sized);
    lemma_take_varint(offset.value(), sized);
    lemma_take_varint(0x07, sized);
    lemma_take_varint(0x19, encoding(offset.value()) + rest);
    lemma_take_varint(offset.value(), rest);
    lemma_take_varint(0x1a, eight + rest);
    lemma_take_varint(0x1b, eight + rest);
}

/// A NEW_CONNECTION_ID frame is read to its end; one that retires itself, or whose identifier has
/// no octets or more than twenty, is malformed.
pub proof fn law_connection_id_read(
    sequence: VarInt,
    retire_prior_to: VarInt,
    length: u8,
    id: Seq<u8>,
    reset_token: Seq<u8>,
    rest: Seq<u8>,
)
    requires
        sequence.in_range(),
        retire_prior_to.in_range(),
        id.len() == length,
        reset_token.len() == 16,
    ensures
        ({
            let s = encoding(0x18) + (encoding(sequence.value()) + (encoding(
                retire_prior_to.value(),
            ) + (seq![length] + (id + (reset_token + rest)))));
            if retire_prior_to.value() <= sequence.value() && 1 <= length <= 20 {
                reads(
                    s,
                    ProhibitedFrame::NewConnectionId { sequence, retire_prior_to, id, reset_token },
                    rest,
                )
            } else {
                malformed(s, 0x18)
            }
        }),
{
    let s3 = id + (reset_token + rest);
    let s2 = seq![length] + s3;
    let s1 = encoding(retire_prior_to.value()) + s2;
    let body = encoding(sequence.value()) + s1;
    lemma_take_varint(0x18, body);
    lemma_take_varint(sequence.value(), s1);
    lemma_take_varint(retire_prior_to.value(), s2);
    assert(s2.skip(1) =~= s3);
    lemma_take_octets(id, reset_token + rest);
    lemma_take_octets(reset_token, rest);
}

/// An ACK frame with one range beside the first is read to its end, with the octets of its ranges
/// as they are and with the congestion marks where it has some; ranges that reach below packet
/// zero, where the one below keeps a gap of at least one packet, are malformed.
pub proof fn law_acknowledgment_read(
    largest: VarInt,
    delay: VarInt,
    first: u64,
    gap: u64,
    length: u64,
    marks: EcnCounts,
    rest: Seq<u8>,
)
    requires
        largest.in_range(),
        delay.in_range(),
        first < VARINT_BOUND,
        gap < VARINT_BOUND,
        length < VARINT_BOUND,
        marks.ect0.in_range(),
        marks.ect1.in_range(),
        marks.ce.in_range(),
    ensures
        ({
            let ranges = encoding(first) + (encoding(gap) + encoding(length));
            let counts = encoding(marks.ect0.value()) + (encoding(marks.ect1.value()) + encoding(
                marks.ce.value(),
            ));
            let head = encoding(largest.value()) + (encoding(delay.value()) + (encoding(1)
                + ranges));
            let s = encoding(0x02) + (head + rest);
            let marked = encoding(0x03) + (head + (counts + rest));
            if first + gap + 2 + length <= largest.value() {
                &&& reads(
                    s,
                    ProhibitedFrame::Ack { largest, delay, additional: ranges, ecn: None },
                    rest,
                )
                &&& reads(
                    marked,
                    ProhibitedFrame::Ack { largest, delay, additional: ranges, ecn: Some(marks) },
                    rest,
                )
            } else {
                malformed(s, 0x02) && malformed(marked, 0x03)
            }
        }),
{
    let counts = encoding(marks.ect0.value()) + (encoding(marks.ect1.value()) + encoding(
        marks.ce.value(),
    ));
    let ranges = encoding(first) + (encoding(gap) + encoding(length));
    let head = encoding(largest.value()) + (encoding(delay.value()) + (encoding(1) + ranges));
    lemma_take_varint(0x02, head + rest);
    lemma_acknowledgment(largest, delay, first, gap, length, rest);
    lemma_take_varint(0x03, head + (counts + rest));
    lemma_acknowledgment(largest, delay, first, gap, length, counts + rest);
    let c2 = encoding(marks.ce.value()) + rest;
    let c1 = encoding(marks.ect1.value()) + c2;
    assert(counts + rest =~= encoding(marks.ect0.value()) + c1);
    lemma_take_varint(marks.ect0.value(), c1);
    lemma_take_varint(marks.ect1.value(), c2);
    lemma_take_varint(marks.ce.value(), rest);
}

proof fn lemma_acknowledgment(
    largest: VarInt,
    delay: VarInt,
    first: u64,
    gap: u64,
    length: u64,
    rest: Seq<u8>,
)
    requires
        largest.in_range(),
        delay.in_range(),
        first < VARINT_BOUND,
        gap < VARINT_BOUND,
        length < VARINT_BOUND,
    ensures
        ({
            let ranges = encoding(first) + (encoding(gap) + encoding(length));
            let head = encoding(largest.value()) + (encoding(delay.value()) + (encoding(1)
                + ranges));
            let s1 = encoding(delay.value()) + (encoding(1) + (ranges + rest));
            &&& take_varint(head + rest) == Some((largest, s1))
            &&& take_varint(s1) == Some((delay, encoding(1) + (ranges + rest)))
            &&& take_varint(encoding(1) + (ranges + rest)) == Some((VarInt::of(1), ranges + rest))
            &&& take_all_ranges(ranges + rest, largest.value(), 1) == (if first + gap + 2 + length
                <= largest.value() {
                Ok::<Seq<u8>, Flaw>(rest)
            } else {
                Err(Flaw::Malformed)
            })
            &&& (ranges + rest).take((ranges + rest).len() - rest.len()) == ranges
        }),
{
    let ranges = encoding(first) + (encoding(gap) + encoding(length));
    let head = encoding(largest.value()) + (encoding(delay.value()) + (encoding(1) + ranges));
    let r2 = encoding(length) + rest;
    let r1 = encoding(gap) + r2;
    let s2 = encoding(1) + (ranges + rest);
    let s1 = encoding(delay.value()) + s2;
    assert(ranges + rest =~= encoding(first) + r1);
    assert(head + rest =~= encoding(largest.value()) + s1);
    lemma_take_varint(largest.value(), s1);
    lemma_take_varint(delay.value(), s2);
    lemma_take_varint(1, ranges + rest);
    lemma_take_varint(first, r1);
    lemma_take_varint(gap, r2);
    lemma_take_varint(length, rest);
    reveal_with_fuel(take_ranges, 2);
    assert((ranges + rest).take(ranges.len() as int) =~= ranges);
}

/// The standard frame that carries a stream or flow-control frame.
pub open spec fn standard_frame(frame: StreamFrame<Seq<u8>>) -> WireFrame<Seq<u8>> {
    match frame {
        StreamFrame::Stream { id, offset, fin, data } => WireFrame::Stream(
            crate::streams::frame::StreamFrame { id, offset, fin, data },
        ),
        StreamFrame::Reset { id, error_code, final_offset } => WireFrame::ResetStream(
            ResetStream { id, error_code, final_offset },
        ),
        StreamFrame::StopSending { id, error_code } => WireFrame::StopSending { id, error_code },
        StreamFrame::MaxData(max) => WireFrame::MaxData(max),
        StreamFrame::MaxStreamData { id, offset } => WireFrame::MaxStreamData { id, offset },
        StreamFrame::MaxStreams { dir, count } => WireFrame::MaxStreams { dir, count },
        StreamFrame::DataBlocked { offset } => WireFrame::DataBlocked { offset },
        StreamFrame::StreamDataBlocked { id, offset } => WireFrame::StreamDataBlocked {
            id,
            offset,
        },
        StreamFrame::StreamsBlocked { dir, limit } => WireFrame::StreamsBlocked { dir, limit },
    }
}

/// Stream and flow-control frames are read with every field as it was written, whatever follows.
pub proof fn law_reliable_frames_read(frame: StreamFrame<Seq<u8>>, rest: Seq<u8>)
    requires
        encodable_frame(frame),
    ensures
        following_frame(frame_octets(frame) + rest) == Ok::<_, TransportError<Seq<char>>>(
            Some((QmuxFrame::Quic(QuicFrame::Reliable(standard_frame(frame))), rest)),
        ),
{
    law_frames_decoded(frame, rest);
    match frame {
        StreamFrame::Stream { id, offset, fin, data } => {
            let f = crate::streams::frame::StreamFrame { id, offset, fin, data };
            let ty = stream_type(true, true, fin);
            assert(frame_octets(frame) + rest =~= encoding(ty) + (stream_fields(f, true, true)
                + rest));
            lemma_take_varint(ty, stream_fields(f, true, true) + rest);
            lemma_stream_fields(f, true, true, rest);
        },
        _ => {},
    }
}

} // verus!
