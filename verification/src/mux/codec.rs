//! Records and frames of QMux.

use crate::buffer::{
    append, as_slice, from_vec, get_octets, get_varint as take, lemma_take_varint,
    lemma_take_varint_shortens, octets, prefix, take_octets, take_varint,
};
use crate::mux::error::Error;
use crate::mux::parameters::{self, announced, parameter_table, Parameters};
use crate::proto::frame::{
    ping_frame, ping_type, transport_parameters_frame, QX_PING_REQUEST, QX_PING_RESPONSE,
    QX_TRANSPORT_PARAMETERS, RESET_STREAM_AT,
};
use crate::proto::record::record;
use crate::streams::frame::{provoking_type, ApplicationClose, ConnectionClose};
use crate::streams::reliable::Frame as StreamFrame;
use crate::streams::wire::{
    self, application_close_frame, connection_close_frame, datagram_frame, datagram_size, decoded,
    law_decode_progress, named_type, Frame as WireFrame,
};
use crate::transport_parameters::{lemma_written_len, written};
use crate::varint::{encoded_size, encoding, group_varint, VarInt, VarIntBoundsExceeded, VARINT_BOUND};
use bytes::Bytes;
use vstd::prelude::*;

verus! {

broadcast use group_varint;

/// A frame of a QMux record.
#[derive(Debug)]
pub enum Frame<B = Bytes> {
    /// Padding.
    Padding,
    /// A stream lifecycle or flow-control frame.
    Stream(StreamFrame<B>),
    /// The transport parameters of the peer.
    Parameters(Parameters),
    /// A ping.
    Ping {
        /// Sequence number.
        sequence: VarInt,
        /// Whether it answers a request.
        response: bool,
    },
    /// A datagram.
    Datagram {
        /// Payload.
        data: B,
        /// Encoded size of the frame.
        frame_size: usize,
    },
    /// A transport-level close.
    ConnectionClose(ConnectionClose<B>),
    /// An application-level close.
    ApplicationClose(ApplicationClose<B>),
}

impl View for Frame<Bytes> {
    type V = Frame<Seq<u8>>;

    open spec fn view(&self) -> Frame<Seq<u8>> {
        match *self {
            Frame::Padding => Frame::Padding,
            Frame::Stream(frame) => Frame::Stream(frame@),
            Frame::Parameters(params) => Frame::Parameters(params),
            Frame::Ping { sequence, response } => Frame::Ping { sequence, response },
            Frame::Datagram { data, frame_size } => Frame::Datagram {
                data: octets(data),
                frame_size,
            },
            Frame::ConnectionClose(close) => Frame::ConnectionClose(close@),
            Frame::ApplicationClose(close) => Frame::ApplicationClose(close@),
        }
    }
}

/// The frames that a vector holds.
pub open spec fn frame_views(frames: Seq<Frame>) -> Seq<Frame<Seq<u8>>> {
    frames.map_values(|f: Frame| f@)
}

/// The integer at the front of `s`, as a length, and what follows it.
pub open spec fn length_at(s: Seq<u8>) -> Result<(usize, Seq<u8>), Error<Seq<char>>> {
    match take_varint(s) {
        None => Err(Error::Truncated),
        Some((v, rest)) => if v.value() <= usize::MAX {
            Ok((v.value() as usize, rest))
        } else {
            Err(Error::FrameEncoding("length exceeds platform capacity"))
        },
    }
}

/// The body of a frame outside the standard subset.
pub open spec fn extension(ty: u64, body: Seq<u8>) -> Result<
    (Frame<Seq<u8>>, Seq<u8>),
    Error<Seq<char>>,
> {
    if ty == QX_TRANSPORT_PARAMETERS {
        match length_at(body) {
            Err(e) => Err(e),
            Ok((len, s)) => match take_octets(s, len as u64) {
                None => Err(Error::Truncated),
                Some((blob, rest)) => match announced(blob) {
                    Ok(params) => Ok((Frame::Parameters(params), rest)),
                    Err(e) => Err(e),
                },
            },
        }
    } else if ty == QX_PING_REQUEST || ty == QX_PING_RESPONSE {
        match take_varint(body) {
            None => Err(Error::Truncated),
            Some((sequence, rest)) => Ok(
                (Frame::Ping { sequence, response: ty == QX_PING_RESPONSE }, rest),
            ),
        }
    } else {
        Err(Error::InvalidFrame(ty))
    }
}

/// The frame at the front of `s` and what follows it.
pub open spec fn frame_at(s: Seq<u8>) -> Result<(Frame<Seq<u8>>, Seq<u8>), Error<Seq<char>>> {
    match decoded(s) {
        Err(e) => Err(Error::Protocol(e)),
        Ok((WireFrame::Other(ty), body)) => extension(ty.value(), body),
        Ok((WireFrame::Padding, rest)) => Ok((Frame::Padding, rest)),
        Ok((WireFrame::Stream(frame), rest)) => Ok((Frame::Stream(frame), rest)),
        Ok((WireFrame::Datagram { data, encoded_size }, rest)) => Ok(
            (Frame::Datagram { data, frame_size: encoded_size }, rest),
        ),
        Ok((WireFrame::ConnectionClose(close), rest)) => Ok((Frame::ConnectionClose(close), rest)),
        Ok((WireFrame::ApplicationClose(close), rest)) => Ok(
            (Frame::ApplicationClose(close), rest),
        ),
    }
}

/// All the frames in `s`, or the first error.
pub open spec fn frames_in(s: Seq<u8>) -> Result<Seq<Frame<Seq<u8>>>, Error<Seq<char>>>
    decreases s.len(),
{
    if s.len() == 0 {
        Ok(Seq::empty())
    } else {
        match frame_at(s) {
            Err(e) => Err(e),
            Ok((frame, rest)) => if rest.len() >= s.len() {
                Ok(Seq::empty())
            } else {
                match frames_in(rest) {
                    Err(e) => Err(e),
                    Ok(frames) => Ok(seq![frame] + frames),
                }
            },
        }
    }
}

/// The frames field of a record that is complete and nothing more.
pub open spec fn payload_of(s: Seq<u8>) -> Result<Seq<u8>, Error<Seq<char>>> {
    match take_varint(s) {
        None => Err(Error::Truncated),
        Some((size, rest)) => if size.value() != rest.len() {
            Err(Error::RecordSizeMismatch)
        } else {
            Ok(rest)
        },
    }
}

/// As much of a reason as fits beside `fields` integers.
pub open spec fn fitting_reason(reason: Seq<u8>, max_size: usize, fields: nat) -> Seq<u8> {
    let max = if max_size < 8 * fields {
        0
    } else {
        max_size - 8 * fields
    };
    if reason.len() <= max {
        reason
    } else {
        reason.take(max as int)
    }
}

/// Length of the encoding of `value`.
pub fn varint_size(value: u64) -> (r: Result<usize, Error>)
    ensures
        if value < VARINT_BOUND {
            r is Ok && r->Ok_0 == encoded_size(value) && r->Ok_0 <= 8
        } else {
            r is Err && r->Err_0@ == Error::<Seq<char>>::VarInt(VarIntBoundsExceeded)
        },
{
    match VarInt::from_u64(value) {
        Ok(v) => Ok(v.size()),
        Err(e) => Err(Error::VarInt(e)),
    }
}

/// Append the encoding of `value`.
pub fn put_varint(buf: &mut Vec<u8>, value: u64) -> (r: Result<(), Error>)
    ensures
        if value < VARINT_BOUND {
            r is Ok && final(buf)@ == old(buf)@ + encoding(value)
        } else {
            r is Err && r->Err_0@ == Error::<Seq<char>>::VarInt(VarIntBoundsExceeded)
                && final(buf)@ == old(buf)@
        },
{
    match VarInt::from_u64(value) {
        Ok(v) => {
            v.encode(buf);
            Ok(())
        },
        Err(e) => Err(Error::VarInt(e)),
    }
}

/// Take the integer at the front of `buf`.
pub fn get_varint(buf: &mut Bytes) -> (r: Result<VarInt, Error>)
    ensures
        match take_varint(octets(*old(buf))) {
            Some((v, rest)) => r is Ok && r->Ok_0 == v && octets(*final(buf)) == rest,
            None => r is Err && r->Err_0@ == Error::<Seq<char>>::Truncated && *final(buf)
                == *old(buf),
        },
{
    match take(buf) {
        Some(v) => Ok(v),
        None => Err(Error::Truncated),
    }
}

fn get_length(buf: &mut Bytes) -> (r: Result<usize, Error>)
    ensures
        match length_at(octets(*old(buf))) {
            Ok((len, rest)) => r is Ok && r->Ok_0 == len && octets(*final(buf)) == rest,
            Err(e) => r is Err && r->Err_0@ == e,
        },
{
    match get_varint(buf) {
        Ok(v) => {
            let len: u64 = v.into_inner();
            if len <= usize::MAX as u64 {
                Ok(len as usize)
            } else {
                Err(Error::FrameEncoding("length exceeds platform capacity"))
            }
        },
        Err(e) => Err(e),
    }
}

/// Prefix frames with their size.
pub fn encode_record(payload: Bytes) -> (r: Result<Bytes, Error>)
    ensures
        if octets(payload).len() < VARINT_BOUND {
            r is Ok && octets(r->Ok_0) == record(octets(payload))
        } else {
            r is Err && r->Err_0@ == Error::<Seq<char>>::VarInt(VarIntBoundsExceeded)
        },
{
    let mut out: Vec<u8> = Vec::new();
    match put_varint(&mut out, payload.len() as u64) {
        Ok(()) => {},
        Err(e) => return Err(e),
    }
    append(&mut out, as_slice(&payload));
    assert(out@ =~= record(octets(payload)));
    Ok(from_vec(out))
}

/// The frames of a complete record.
pub fn decode_record(record: Bytes) -> (r: Result<Bytes, Error>)
    ensures
        match payload_of(octets(record)) {
            Ok(payload) => r is Ok && octets(r->Ok_0) == payload,
            Err(e) => r is Err && r->Err_0@ == e,
        },
{
    let mut record = record;
    let size: u64 = match get_varint(&mut record) {
        Ok(size) => size.into_inner(),
        Err(e) => return Err(e),
    };
    if size != record.len() as u64 {
        return Err(Error::RecordSizeMismatch);
    }
    Ok(record)
}

fn decode_parameters(data: &mut Bytes) -> (r: Result<Frame, Error>)
    ensures
        match extension(QX_TRANSPORT_PARAMETERS, octets(*old(data))) {
            Ok((frame, rest)) => r is Ok && r->Ok_0@ == frame && octets(*final(data)) == rest,
            Err(e) => r is Err && r->Err_0@ == e,
        },
{
    let len: usize = match get_length(data) {
        Ok(len) => len,
        Err(e) => return Err(e),
    };
    let blob = match get_octets(data, len as u64) {
        Some(blob) => blob,
        None => return Err(Error::Truncated),
    };
    match Parameters::decode(blob) {
        Ok(params) => Ok(Frame::Parameters(params)),
        Err(e) => Err(e),
    }
}

fn decode_frame(data: &mut Bytes) -> (r: Result<Frame, Error>)
    ensures
        match frame_at(octets(*old(data))) {
            Ok((frame, rest)) => r is Ok && r->Ok_0@ == frame && octets(*final(data)) == rest,
            Err(e) => r is Err && r->Err_0@ == e,
        },
{
    match wire::decode(data) {
        Err(e) => Err(Error::Protocol(e)),
        Ok(WireFrame::Other(ty)) => {
            let ty: u64 = ty.into_inner();
            match ty {
                RESET_STREAM_AT => Err(Error::InvalidFrame(RESET_STREAM_AT)),
                QX_TRANSPORT_PARAMETERS => decode_parameters(data),
                QX_PING_REQUEST | QX_PING_RESPONSE => match get_varint(data) {
                    Ok(sequence) => Ok(
                        Frame::Ping { sequence, response: ty == QX_PING_RESPONSE },
                    ),
                    Err(e) => Err(e),
                },
                _ => Err(Error::InvalidFrame(ty)),
            }
        },
        Ok(WireFrame::Padding) => Ok(Frame::Padding),
        Ok(WireFrame::Stream(frame)) => Ok(Frame::Stream(frame)),
        Ok(WireFrame::Datagram { data, encoded_size }) => Ok(
            Frame::Datagram { data, frame_size: encoded_size },
        ),
        Ok(WireFrame::ConnectionClose(close)) => Ok(Frame::ConnectionClose(close)),
        Ok(WireFrame::ApplicationClose(close)) => Ok(Frame::ApplicationClose(close)),
    }
}

/// Decode all the frames of a record.
pub fn decode_frames(payload: Bytes) -> (r: Result<Vec<Frame>, Error>)
    ensures
        match frames_in(octets(payload)) {
            Ok(frames) => r is Ok && frame_views(r->Ok_0@) == frames,
            Err(e) => r is Err && r->Err_0@ == e,
        },
{
    let mut rest = payload.clone();
    let mut frames: Vec<Frame> = Vec::new();
    assert(frame_views(frames@) =~= Seq::empty());
    proof {
        if let Ok(all) = frames_in(octets(payload)) {
            assert(Seq::<Frame<Seq<u8>>>::empty() + all =~= all);
        }
    }
    while rest.len() > 0
        invariant
            frames_in(octets(payload)) == match frames_in(octets(rest)) {
                Ok(more) => Ok(frame_views(frames@) + more),
                Err(e) => Err(e),
            },
        decreases octets(rest).len(),
    {
        proof {
            law_frame_progress(octets(rest));
        }
        let ghost before = frames@;
        let ghost s = octets(rest);
        match decode_frame(&mut rest) {
            Ok(frame) => {
                frames.push(frame);
                proof {
                    if let Ok(more) = frames_in(octets(rest)) {
                        assert(frame_views(frames@) + more =~= frame_views(before) + (seq![frame@]
                            + more));
                    }
                }
            },
            Err(e) => return Err(e),
        }
    }
    assert(frame_views(frames@) + Seq::<Frame<Seq<u8>>>::empty() =~= frame_views(frames@));
    Ok(frames)
}

/// The frame that announces our parameters.
pub fn encode_parameters(params: &Parameters) -> (r: Result<Bytes, Error>)
    ensures
        r is Ok && octets(r->Ok_0) == transport_parameters_frame(
            written(parameter_table(*params)),
        ),
{
    proof {
        lemma_written_len(parameter_table(*params));
    }
    let encoded = match params.encode() {
        Ok(encoded) => encoded,
        Err(e) => return Err(e),
    };
    let mut frame: Vec<u8> = Vec::new();
    crate::proto::frame::encode_transport_parameters(&mut frame, as_slice(&encoded));
    assert(frame@ =~= transport_parameters_frame(written(parameter_table(*params))));
    Ok(from_vec(frame))
}

/// A ping request or response.
pub fn encode_ping(sequence: VarInt, response: bool) -> (r: Result<Bytes, Error>)
    ensures
        r is Ok && octets(r->Ok_0) == ping_frame(response, sequence),
{
    let mut frame: Vec<u8> = Vec::new();
    crate::proto::frame::encode_ping(&mut frame, response, sequence);
    assert(frame@ =~= ping_frame(response, sequence));
    Ok(from_vec(frame))
}

/// The frame that carries a datagram.
pub fn encode_datagram(data: &Bytes) -> (r: Result<Bytes, Error>)
    requires
        octets(*data).len() < VARINT_BOUND,
    ensures
        r is Ok && octets(r->Ok_0) == datagram_frame(octets(*data)),
{
    Ok(wire::encode_datagram(data.clone()))
}

/// As much of a reason as fits.
fn truncate_reason(reason: &Bytes, max_reason: usize) -> (r: Bytes)
    ensures
        octets(r) == (if octets(*reason).len() <= max_reason {
            octets(*reason)
        } else {
            octets(*reason).take(max_reason as int)
        }),
{
    let len: usize = reason.len();
    let keep: usize = if len < max_reason {
        len
    } else {
        max_reason
    };
    let r = prefix(reason, keep);
    proof {
        if len <= max_reason {
            assert(octets(*reason).take(keep as int) =~= octets(*reason));
        }
    }
    r
}

/// The frame that closes the connection for the application; its reason is cut so that the
/// frame takes no more than `max_size` octets.
pub fn encode_application_close(code: VarInt, reason: &Bytes, max_size: usize) -> (r: Result<
    Bytes,
    Error,
>)
    requires
        fitting_reason(octets(*reason), max_size, 3).len() < VARINT_BOUND,
    ensures
        r is Ok && octets(r->Ok_0) == application_close_frame(
            code,
            fitting_reason(octets(*reason), max_size, 3),
        ),
{
    // Type, error code, and reason length are each at most one QUIC varint.
    let max_reason: usize = max_size.saturating_sub(3 * 8);
    let reason = truncate_reason(reason, max_reason);
    Ok(wire::encode_application_close(code, reason))
}

/// The frame that closes the connection for the transport; its reason is cut so that the frame
/// takes no more than `max_size` octets.
pub fn encode_connection_close(close: &ConnectionClose, max_size: usize) -> (r: Result<
    Bytes,
    Error,
>)
    requires
        fitting_reason(octets(close.reason), max_size, 4).len() < VARINT_BOUND,
    ensures
        r is Ok && octets(r->Ok_0) == connection_close_frame(
            ConnectionClose { reason: fitting_reason(close@.reason, max_size, 4), ..close@ },
        ),
{
    // Type, error code, triggering frame type, and reason length are each at most one QUIC
    // varint.
    let max_reason: usize = max_size.saturating_sub(4 * 8);
    let reason = truncate_reason(&close.reason, max_reason);
    Ok(
        wire::encode_connection_close(
            ConnectionClose { error_code: close.error_code, frame_type: close.frame_type, reason },
        ),
    )
}

/// A record gives back the frames it was made of.
pub proof fn law_record_round_trip(payload: Seq<u8>)
    requires
        payload.len() < VARINT_BOUND,
    ensures
        payload_of(record(payload)) == Ok::<Seq<u8>, Error<Seq<char>>>(payload),
{
    lemma_take_varint(payload.len() as u64, payload);
}

/// A record with anything missing or trailing is refused.
pub proof fn law_record_exact(s: Seq<u8>, payload: Seq<u8>)
    requires
        payload_of(s) == Ok::<Seq<u8>, Error<Seq<char>>>(payload),
    ensures
        s.len() == crate::varint::decoding(s).unwrap().1 + payload.len(),
        s.skip(crate::varint::decoding(s).unwrap().1 as int) == payload,
{
    crate::varint::law_decoded_range(s);
}

/// Valid parameters come out of their frame as they went in, whatever follows.
pub proof fn law_parameters_round_trip(p: Parameters, rest: Seq<u8>)
    requires
        parameters::encodable(p),
        parameters::invalid(p) is None,
    ensures
        frame_at(transport_parameters_frame(written(parameter_table(p))) + rest) == Ok::<
            _,
            Error<Seq<char>>,
        >((Frame::<Seq<u8>>::Parameters(p), rest)),
{
    let blob = written(parameter_table(p));
    lemma_written_len(parameter_table(p));
    parameters::law_round_trip(p);
    let len = blob.len() as u64;
    let body = encoding(len) + (blob + rest);
    assert(transport_parameters_frame(blob) + rest =~= encoding(QX_TRANSPORT_PARAMETERS) + body);
    lemma_take_varint(QX_TRANSPORT_PARAMETERS, body);
    lemma_take_varint(len, blob + rest);
    crate::buffer::lemma_take_octets(blob, rest);
}

/// A ping comes out of its frame as it went in, whatever follows.
pub proof fn law_ping_round_trip(sequence: VarInt, response: bool, rest: Seq<u8>)
    requires
        sequence.value() < VARINT_BOUND,
    ensures
        frame_at(ping_frame(response, sequence) + rest) == Ok::<_, Error<Seq<char>>>(
            (Frame::<Seq<u8>>::Ping { sequence, response }, rest),
        ),
{
    let body = encoding(sequence.value()) + rest;
    assert(ping_frame(response, sequence) + rest =~= encoding(ping_type(response)) + body);
    lemma_take_varint(ping_type(response), body);
    lemma_take_varint(sequence.value(), rest);
}

/// A datagram comes out of its frame as it went in, whatever follows, together with the size
/// of the frame.
pub proof fn law_datagram_round_trip(data: Seq<u8>, rest: Seq<u8>)
    requires
        data.len() < VARINT_BOUND,
        datagram_size(data.len()) <= usize::MAX,
    ensures
        frame_at(datagram_frame(data) + rest) == Ok::<_, Error<Seq<char>>>(
            (Frame::Datagram { data, frame_size: datagram_size(data.len()) as usize }, rest),
        ),
{
    wire::law_datagram_round_trip(data, rest);
}

/// Closes come out of their frames as they went in but for what was cut off their reasons.
pub proof fn law_closes_round_trip(
    code: VarInt,
    close: ConnectionClose<Seq<u8>>,
    max_size: usize,
    rest: Seq<u8>,
)
    requires
        code.value() < VARINT_BOUND,
        close.error_code.value() < VARINT_BOUND,
        named_type(close.frame_type).value() < VARINT_BOUND,
        close.reason.len() < VARINT_BOUND,
    ensures
        ({
            let reason = fitting_reason(close.reason, max_size, 3);
            frame_at(application_close_frame(code, reason) + rest) == Ok::<_, Error<Seq<char>>>(
                (Frame::ApplicationClose(ApplicationClose { error_code: code, reason }), rest),
            )
        }),
        ({
            let cut = ConnectionClose {
                reason: fitting_reason(close.reason, max_size, 4),
                ..close
            };
            frame_at(connection_close_frame(cut) + rest) == Ok::<_, Error<Seq<char>>>(
                (
                    Frame::ConnectionClose(
                        ConnectionClose {
                            frame_type: provoking_type(named_type(close.frame_type)),
                            ..cut
                        },
                    ),
                    rest,
                ),
            )
        }),
{
    wire::law_application_close_round_trip(
        code,
        fitting_reason(close.reason, max_size, 3),
        rest,
    );
    let cut = ConnectionClose { reason: fitting_reason(close.reason, max_size, 4), ..close };
    wire::law_connection_close_round_trip(cut, rest);
}

/// A close fits the record it is made for, however long its reason, and a reason that leaves
/// room for the other fields is not cut.
pub proof fn law_close_fits(code: VarInt, close: ConnectionClose<Seq<u8>>, max_size: usize)
    requires
        max_size >= 32,
    ensures
        application_close_frame(code, fitting_reason(close.reason, max_size, 3)).len() <= max_size,
        connection_close_frame(
            ConnectionClose { reason: fitting_reason(close.reason, max_size, 4), ..close },
        ).len() <= max_size,
        close.reason.len() + 32 <= max_size ==> fitting_reason(close.reason, max_size, 3)
            == close.reason && fitting_reason(close.reason, max_size, 4) == close.reason,
{
}

/// Every decoded frame takes at least one octet.
pub proof fn law_frame_progress(s: Seq<u8>)
    ensures
        frame_at(s) matches Ok((frame, rest)) ==> rest.len() < s.len(),
{
    law_decode_progress(s);
    if let Ok((WireFrame::Other(ty), body)) = decoded(s) {
        lemma_take_varint_shortens(body);
    }
}

/// A reason is cut at its end, and only by what the record has no room for beside the other
/// fields.
pub proof fn law_reason_cut(reason: Seq<u8>, max_size: usize, fields: nat)
    requires
        8 * fields <= max_size,
    ensures
        ({
            let kept = fitting_reason(reason, max_size, fields);
            &&& kept.len() <= reason.len()
            &&& kept == reason.take(kept.len() as int)
            &&& reason.len() + 8 * fields <= max_size ==> kept.len() == reason.len()
            &&& reason.len() + 8 * fields > max_size ==> kept.len() + 8 * fields == max_size
        }),
{
    assert(reason.take(reason.len() as int) =~= reason);
}

} // verus!
