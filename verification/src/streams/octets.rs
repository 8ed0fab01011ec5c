//! The octets of stream and flow-control frames: a type, then the fields of the frame.

use crate::buffer::lemma_take_varint;
use crate::stream_id::Dir;
use crate::streams::frame::{
    lemma_sized, take_reset, take_stream, ApplicationClose, ConnectionClose, ResetStream, StreamFrame,
};
use crate::streams::reliable::Frame;
use crate::streams::wire::{decoded, Frame as Carried};
use crate::transport_error::TransportError;
use crate::varint::{encoding, group_varint, VarInt, VARINT_BOUND};
use vstd::prelude::*;

verus! {

broadcast use group_varint;

/// The type of a STREAM frame, which tells whether there is an offset and a length, and whether
/// the stream ends.
pub open spec fn stream_type(with_offset: bool, with_length: bool, fin: bool) -> u64 {
    (8 + (if with_offset {
        4int
    } else {
        0
    }) + (if with_length {
        2int
    } else {
        0
    }) + (if fin {
        1int
    } else {
        0
    })) as u64
}

/// What follows the type of a STREAM frame. The offset may be left out where it is zero, and the
/// length where the data takes up the rest of the record.
pub open spec fn stream_fields(f: StreamFrame<Seq<u8>>, with_offset: bool, with_length: bool) -> Seq<
    u8,
> {
    encoding(f.id.0.value()) + ((if with_offset {
        encoding(f.offset)
    } else {
        Seq::empty()
    }) + ((if with_length {
        encoding(f.data.len() as u64)
    } else {
        Seq::empty()
    }) + f.data))
}

/// The octets of a STREAM frame.
pub open spec fn stream_octets(f: StreamFrame<Seq<u8>>, with_offset: bool, with_length: bool) -> Seq<
    u8,
> {
    encoding(stream_type(with_offset, with_length, f.fin)) + stream_fields(
        f,
        with_offset,
        with_length,
    )
}

/// Whether a STREAM frame can be written like that in front of `rest`.
pub open spec fn encodable_stream(
    f: StreamFrame<Seq<u8>>,
    with_offset: bool,
    with_length: bool,
    rest: Seq<u8>,
) -> bool {
    &&& f.id.0.in_range()
    &&& f.offset < VARINT_BOUND
    &&& f.data.len() < VARINT_BOUND
    &&& !with_offset ==> f.offset == 0
    &&& !with_length ==> rest.len() == 0
}

/// The fields of a STREAM frame are read back.
pub proof fn lemma_stream_fields(
    f: StreamFrame<Seq<u8>>,
    with_offset: bool,
    with_length: bool,
    rest: Seq<u8>,
)
    requires
        encodable_stream(f, with_offset, with_length, rest),
    ensures
        take_stream(
            stream_type(with_offset, with_length, f.fin),
            stream_fields(f, with_offset, with_length) + rest,
        ) == Some((f, rest)),
        8 <= stream_type(with_offset, with_length, f.fin) <= 15,
{
    let ty = stream_type(with_offset, with_length, f.fin);
    assert((ty & 0x04 != 0) == (ty / 4 % 2 == 1)) by (bit_vector);
    assert((ty & 0x02 != 0) == (ty / 2 % 2 == 1)) by (bit_vector);
    assert((ty & 0x01 != 0) == (ty % 2 == 1)) by (bit_vector);
    let s2 = (if with_length {
        encoding(f.data.len() as u64)
    } else {
        Seq::empty()
    }) + f.data + rest;
    let s1 = (if with_offset {
        encoding(f.offset)
    } else {
        Seq::empty()
    }) + s2;
    assert(stream_fields(f, with_offset, with_length) + rest =~= encoding(f.id.0.value()) + s1);
    lemma_take_varint(f.id.0.value(), s1);
    if with_offset {
        lemma_take_varint(f.offset, s2);
    } else {
        assert(s1 =~= s2);
    }
    if with_length {
        lemma_sized(f.data, rest);
    } else {
        assert(s2 =~= f.data);
        assert(rest =~= Seq::empty());
    }
}

/// What follows the type of a RESET_STREAM frame.
pub open spec fn reset_fields(reset: ResetStream) -> Seq<u8> {
    encoding(reset.id.0.value()) + (encoding(reset.error_code.value()) + encoding(
        reset.final_offset.value(),
    ))
}

/// Whether the fields of a reset can be encoded.
pub open spec fn encodable_reset(reset: ResetStream) -> bool {
    reset.id.0.in_range() && reset.error_code.in_range() && reset.final_offset.in_range()
}

/// The fields of a reset are read back.
pub proof fn lemma_reset_fields(reset: ResetStream, rest: Seq<u8>)
    requires
        encodable_reset(reset),
    ensures
        take_reset(reset_fields(reset) + rest) == Some((reset, rest)),
{
    let s2 = encoding(reset.final_offset.value()) + rest;
    let s1 = encoding(reset.error_code.value()) + s2;
    assert(reset_fields(reset) + rest =~= encoding(reset.id.0.value()) + s1);
    lemma_take_varint(reset.id.0.value(), s1);
    lemma_take_varint(reset.error_code.value(), s2);
    lemma_take_varint(reset.final_offset.value(), rest);
}

/// The octets of a stream or flow-control frame.
pub open spec fn frame_octets(frame: Frame<Seq<u8>>) -> Seq<u8> {
    match frame {
        Frame::Stream { id, offset, fin, data } => stream_octets(
            StreamFrame { id, offset, fin, data },
            true,
            true,
        ),
        Frame::Reset { id, error_code, final_offset } => encoding(0x04) + reset_fields(
            ResetStream { id, error_code, final_offset },
        ),
        Frame::StopSending { id, error_code } => encoding(0x05) + (encoding(id.0.value())
            + encoding(error_code.value())),
        Frame::MaxData(max) => encoding(0x10) + encoding(max.value()),
        Frame::MaxStreamData { id, offset } => encoding(0x11) + (encoding(id.0.value())
            + encoding(offset)),
        Frame::MaxStreams { dir: Dir::Bi, count } => encoding(0x12) + encoding(count),
        Frame::MaxStreams { dir: Dir::Uni, count } => encoding(0x13) + encoding(count),
        Frame::DataBlocked { offset } => encoding(0x14) + encoding(offset),
        Frame::StreamDataBlocked { id, offset } => encoding(0x15) + (encoding(id.0.value())
            + encoding(offset)),
        Frame::StreamsBlocked { dir: Dir::Bi, limit } => encoding(0x16) + encoding(limit),
        Frame::StreamsBlocked { dir: Dir::Uni, limit } => encoding(0x17) + encoding(limit),
    }
}

/// Whether the fields of a frame can be encoded.
pub open spec fn encodable_frame(frame: Frame<Seq<u8>>) -> bool {
    match frame {
        Frame::Stream { id, offset, fin, data } => encodable_stream(
            StreamFrame { id, offset, fin, data },
            true,
            true,
            Seq::empty(),
        ),
        Frame::Reset { id, error_code, final_offset } => encodable_reset(
            ResetStream { id, error_code, final_offset },
        ),
        Frame::StopSending { id, error_code } => id.0.in_range() && error_code.in_range(),
        Frame::MaxData(max) => max.in_range(),
        Frame::MaxStreamData { id, offset } => id.0.in_range() && offset < VARINT_BOUND,
        Frame::MaxStreams { dir, count } => count < VARINT_BOUND,
        Frame::DataBlocked { offset } => offset < VARINT_BOUND,
        Frame::StreamDataBlocked { id, offset } => id.0.in_range() && offset < VARINT_BOUND,
        Frame::StreamsBlocked { dir, limit } => limit < VARINT_BOUND,
    }
}

proof fn lemma_one_field(ty: u64, v: u64, rest: Seq<u8>)
    requires
        ty < VARINT_BOUND,
        v < VARINT_BOUND,
    ensures
        crate::buffer::take_varint(encoding(ty) + encoding(v) + rest) == Some(
            (VarInt::of(ty), encoding(v) + rest),
        ),
        crate::buffer::take_varint(encoding(v) + rest) == Some((VarInt::of(v), rest)),
{
    assert(encoding(ty) + encoding(v) + rest =~= encoding(ty) + (encoding(v) + rest));
    lemma_take_varint(ty, encoding(v) + rest);
    lemma_take_varint(v, rest);
}

proof fn lemma_two_fields(ty: u64, v: u64, w: u64, rest: Seq<u8>)
    requires
        ty < VARINT_BOUND,
        v < VARINT_BOUND,
        w < VARINT_BOUND,
    ensures
        crate::buffer::take_varint(encoding(ty) + (encoding(v) + encoding(w)) + rest) == Some(
            (VarInt::of(ty), encoding(v) + (encoding(w) + rest)),
        ),
        crate::buffer::take_varint(encoding(v) + (encoding(w) + rest)) == Some(
            (VarInt::of(v), encoding(w) + rest),
        ),
        crate::buffer::take_varint(encoding(w) + rest) == Some((VarInt::of(w), rest)),
{
    assert(encoding(ty) + (encoding(v) + encoding(w)) + rest =~= encoding(ty) + (encoding(v) + (
    encoding(w) + rest)));
    lemma_take_varint(ty, encoding(v) + (encoding(w) + rest));
    lemma_take_varint(v, encoding(w) + rest);
    lemma_take_varint(w, rest);
}

/// A carrier reads every stream and flow-control frame as it was written, with the stream, the
/// direction, the limit or the code in it, and leaves what follows.
pub proof fn law_frames_decoded(frame: Frame<Seq<u8>>, rest: Seq<u8>)
    requires
        encodable_frame(frame),
    ensures
        decoded(frame_octets(frame) + rest) == Ok::<_, TransportError<Seq<char>>>(
            (Carried::Stream(frame), rest),
        ),
{
    match frame {
        Frame::Stream { id, offset, fin, data } => law_stream_decoded(
            StreamFrame { id, offset, fin, data },
            true,
            true,
            rest,
        ),
        Frame::Reset { id, error_code, final_offset } => {
            let reset = ResetStream { id, error_code, final_offset };
            assert(frame_octets(frame) + rest =~= encoding(0x04) + (reset_fields(reset) + rest));
            lemma_take_varint(0x04, reset_fields(reset) + rest);
            lemma_reset_fields(reset, rest);
        },
        Frame::StopSending { id, error_code } => lemma_two_fields(
            0x05,
            id.0.value(),
            error_code.value(),
            rest,
        ),
        Frame::MaxData(max) => lemma_one_field(0x10, max.value(), rest),
        Frame::MaxStreamData { id, offset } => lemma_two_fields(0x11, id.0.value(), offset, rest),
        Frame::MaxStreams { dir: Dir::Bi, count } => lemma_one_field(0x12, count, rest),
        Frame::MaxStreams { dir: Dir::Uni, count } => lemma_one_field(0x13, count, rest),
        Frame::DataBlocked { offset } => lemma_one_field(0x14, offset, rest),
        Frame::StreamDataBlocked { id, offset } => lemma_two_fields(
            0x15,
            id.0.value(),
            offset,
            rest,
        ),
        Frame::StreamsBlocked { dir: Dir::Bi, limit } => lemma_one_field(0x16, limit, rest),
        Frame::StreamsBlocked { dir: Dir::Uni, limit } => lemma_one_field(0x17, limit, rest),
    }
}

/// A carrier reads stream data alike whether or not its offset and its length are written.
pub proof fn law_stream_decoded(
    f: StreamFrame<Seq<u8>>,
    with_offset: bool,
    with_length: bool,
    rest: Seq<u8>,
)
    requires
        encodable_stream(f, with_offset, with_length, rest),
    ensures
        decoded(stream_octets(f, with_offset, with_length) + rest) == Ok::<
            _,
            TransportError<Seq<char>>,
        >(
            (
                Carried::Stream(
                    Frame::Stream { id: f.id, offset: f.offset, fin: f.fin, data: f.data },
                ),
                rest,
            ),
        ),
{
    let ty = stream_type(with_offset, with_length, f.fin);
    let fields = stream_fields(f, with_offset, with_length);
    assert(stream_octets(f, with_offset, with_length) + rest =~= encoding(ty) + (fields + rest));
    lemma_stream_fields(f, with_offset, with_length, rest);
    lemma_take_varint(ty, fields + rest);
}

/// A carrier reads datagrams and closes as they were written: a datagram with or without a
/// length, with the number of octets that its frame takes; the code, the reason and the frame type
/// of a close, where type zero stands for none; and padding for nothing.
pub proof fn law_other_frames_decoded(
    data: Seq<u8>,
    error_code: VarInt,
    frame_type: VarInt,
    rest: Seq<u8>,
)
    requires
        data.len() < VARINT_BOUND,
        (encoding(0x31) + (encoding(data.len() as u64) + data)).len() <= usize::MAX,
        error_code.in_range(),
        frame_type.in_range(),
    ensures
        ({
            let sized = encoding(data.len() as u64) + data;
            &&& decoded(encoding(0x31) + (sized + rest)) matches Ok((
                Carried::Datagram { data: d, encoded_size },
                left,
            )) && d == data && encoded_size == 1 + sized.len() && left == rest
            &&& decoded(encoding(0x30) + data) matches Ok((
                Carried::Datagram { data: d, encoded_size },
                left,
            )) && d == data && encoded_size == 1 + data.len() && left == Seq::<u8>::empty()
            &&& decoded(encoding(0x1d) + (encoding(error_code.value()) + (sized + rest))) == Ok::<
                _,
                TransportError<Seq<char>>,
            >((Carried::ApplicationClose(ApplicationClose { error_code, reason: data }), rest))
            &&& decoded(
                encoding(0x1c) + (encoding(error_code.value()) + (encoding(frame_type.value()) + (
                sized + rest))),
            ) == Ok::<_, TransportError<Seq<char>>>(
                (
                    Carried::ConnectionClose(
                        ConnectionClose {
                            error_code,
                            frame_type: if frame_type.value() == 0 {
                                None
                            } else {
                                Some(frame_type)
                            },
                            reason: data,
                        },
                    ),
                    rest,
                ),
            )
            &&& decoded(seq![0u8] + rest) == Ok::<_, TransportError<Seq<char>>>(
                (Carried::<Seq<u8>>::Padding, rest),
            )
        }),
{
    let sized = encoding(data.len() as u64) + data;
    assert(sized + rest =~= encoding(data.len() as u64) + data + rest);
    lemma_sized(data, rest);
    lemma_take_varint(0x31, sized + rest);
    lemma_take_varint(0x30, data);
    lemma_take_varint(0x1d, encoding(error_code.value()) + (sized + rest));
    lemma_take_varint(error_code.value(), sized + rest);
    let typed = encoding(frame_type.value()) + (sized + rest);
    lemma_take_varint(0x1c, encoding(error_code.value()) + typed);
    lemma_take_varint(error_code.value(), typed);
    lemma_take_varint(frame_type.value(), sized + rest);
    lemma_take_varint(0x00, rest);
    assert(encoding(0x00) =~= seq![0u8]) by {
        reveal(encoding);
    }
}

/// The frame types that a carrier reads: padding, streams and flow control, closes and datagrams.
pub open spec fn carried_type(ty: u64) -> bool {
    ||| ty == 0x00
    ||| ty == 0x04
    ||| ty == 0x05
    ||| 0x08 <= ty <= 0x17
    ||| ty == 0x1c
    ||| ty == 0x1d
    ||| ty == 0x30
    ||| ty == 0x31
}

/// A frame of any other type is left to the carrier with its body untouched. One that ends before
/// its first field does is malformed, and the error names its type; so is nothing at all.
pub proof fn law_unread_frames(ty: VarInt, body: Seq<u8>)
    requires
        ty.in_range(),
    ensures
        !carried_type(ty.value()) ==> decoded(encoding(ty.value()) + body) == Ok::<
            _,
            TransportError<Seq<char>>,
        >((Carried::<Seq<u8>>::Other(ty), body)),
        carried_type(ty.value()) && ty.value() != 0x00 && ty.value() != 0x30 ==> (decoded(
            encoding(ty.value()),
        ) matches Err(e) && e.code.value() == 0x07 && e.frame == Some(ty)),
        decoded(Seq::empty()) matches Err(e) && e.code.value() == 0x07 && e.frame is None,
{
    lemma_take_varint(ty.value(), body);
    lemma_take_varint(ty.value(), Seq::empty());
    assert(encoding(ty.value()) + Seq::empty() =~= encoding(ty.value()));
    assert(crate::buffer::take_varint(Seq::<u8>::empty()) is None) by {
        reveal(crate::varint::decoding);
    }
}

} // verus!
