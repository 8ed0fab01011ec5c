//! Standard QUIC frames, those that QMux prohibits among them.
//!
//! Acknowledgments, handshake, path and connection-ID frames have no place on a reliable
//! carrier. They are still frames of QUIC version 1: a record that holds one is read past it,
//! and the connection rejects it for what it is.

use crate::buffer::{
    as_slice, get_octets, get_varint, lemma_take_varint, lemma_take_varint_shortens, octets, prefix,
    take_octets, take_varint,
};
use crate::streams::frame::{
    decode_with_type, get_sized, is_reliable, lemma_sized_progress, reliable, take_sized,
    take_wire_frame, unexpected_end, WireFrame,
};
use crate::streams::wire::lemma_wire_progress;
use crate::transport_error::{TransportError, FRAME_ENCODING_ERROR};
use crate::varint::{encoding, group_varint, VarInt, VARINT_BOUND};
use bytes::Bytes;
use vstd::prelude::*;

verus! {

broadcast use group_varint;

pub const PING: u64 = 0x01;

pub const ACK: u64 = 0x02;

pub const ACK_ECN: u64 = 0x03;

pub const CRYPTO: u64 = 0x06;

pub const NEW_TOKEN: u64 = 0x07;

pub const NEW_CONNECTION_ID: u64 = 0x18;

pub const RETIRE_CONNECTION_ID: u64 = 0x19;

pub const PATH_CHALLENGE: u64 = 0x1a;

pub const PATH_RESPONSE: u64 = 0x1b;

pub const HANDSHAKE_DONE: u64 = 0x1e;

/// Largest connection ID.
pub const MAX_CID_SIZE: u64 = 20;

/// Size of a stateless reset token.
pub const RESET_TOKEN_SIZE: u64 = 16;

/// Size of the data in path frames.
pub const PATH_DATA_SIZE: u64 = 8;

/// Counts of packets by their congestion marks.
#[derive(Debug, Clone, Copy, PartialEq, Eq, Structural)]
pub struct EcnCounts {
    /// Packets marked ECT(0).
    pub ect0: VarInt,
    /// Packets marked ECT(1).
    pub ect1: VarInt,
    /// Packets marked CE.
    pub ce: VarInt,
}

/// A standard frame that QMux prohibits.
#[derive(Debug)]
pub enum ProhibitedFrame<B = Bytes> {
    /// PING.
    Ping,
    /// ACK.
    Ack {
        /// Largest packet number acknowledged.
        largest: VarInt,
        /// How long the acknowledgment was delayed.
        delay: VarInt,
        /// The encoded ranges: the first one, then gaps and further ones.
        additional: B,
        /// Counts of congestion marks, if reported.
        ecn: Option<EcnCounts>,
    },
    /// CRYPTO.
    Crypto {
        /// Where in the handshake `data` starts.
        offset: VarInt,
        /// Handshake data.
        data: B,
    },
    /// NEW_TOKEN.
    NewToken(B),
    /// NEW_CONNECTION_ID.
    NewConnectionId {
        /// Number of the connection ID.
        sequence: VarInt,
        /// First number that stays in use.
        retire_prior_to: VarInt,
        /// The connection ID.
        id: B,
        /// Its stateless reset token.
        reset_token: B,
    },
    /// RETIRE_CONNECTION_ID.
    RetireConnectionId(VarInt),
    /// PATH_CHALLENGE.
    PathChallenge(B),
    /// PATH_RESPONSE.
    PathResponse(B),
    /// HANDSHAKE_DONE.
    HandshakeDone,
}

/// A standard frame.
#[derive(Debug)]
pub enum QuicFrame<B = Bytes> {
    /// A frame that belongs on a reliable carrier.
    Reliable(WireFrame<B>),
    /// A frame that does not (ACK, CRYPTO, ...); the connection rejects it.
    Prohibited(ProhibitedFrame<B>),
}

/// What is wrong with a frame.
#[derive(Debug, Clone, Copy, PartialEq, Eq, Structural)]
pub enum Flaw {
    /// It ends too early.
    UnexpectedEnd,
    /// Its fields contradict each other.
    Malformed,
    /// Its type is unknown.
    UnknownType,
}

impl View for ProhibitedFrame<Bytes> {
    type V = ProhibitedFrame<Seq<u8>>;

    open spec fn view(&self) -> ProhibitedFrame<Seq<u8>> {
        match *self {
            ProhibitedFrame::Ping => ProhibitedFrame::Ping,
            ProhibitedFrame::Ack { largest, delay, additional, ecn } => ProhibitedFrame::Ack {
                largest,
                delay,
                additional: octets(additional),
                ecn,
            },
            ProhibitedFrame::Crypto { offset, data } => ProhibitedFrame::Crypto {
                offset,
                data: octets(data),
            },
            ProhibitedFrame::NewToken(token) => ProhibitedFrame::NewToken(octets(token)),
            ProhibitedFrame::NewConnectionId { sequence, retire_prior_to, id, reset_token } => {
                ProhibitedFrame::NewConnectionId {
                    sequence,
                    retire_prior_to,
                    id: octets(id),
                    reset_token: octets(reset_token),
                }
            },
            ProhibitedFrame::RetireConnectionId(sequence) => ProhibitedFrame::RetireConnectionId(
                sequence,
            ),
            ProhibitedFrame::PathChallenge(data) => ProhibitedFrame::PathChallenge(octets(data)),
            ProhibitedFrame::PathResponse(data) => ProhibitedFrame::PathResponse(octets(data)),
            ProhibitedFrame::HandshakeDone => ProhibitedFrame::HandshakeDone,
        }
    }
}

impl View for QuicFrame<Bytes> {
    type V = QuicFrame<Seq<u8>>;

    open spec fn view(&self) -> QuicFrame<Seq<u8>> {
        match *self {
            QuicFrame::Reliable(frame) => QuicFrame::Reliable(frame@),
            QuicFrame::Prohibited(frame) => QuicFrame::Prohibited(frame@),
        }
    }
}

/// A prohibited frame and what follows it, or what is wrong.
pub type Taken = Result<(ProhibitedFrame<Seq<u8>>, Seq<u8>), Flaw>;

/// What follows `n` further ranges of an acknowledgment, each a gap and a length below
/// `smallest`, the smallest packet number acknowledged so far.
pub open spec fn take_ranges(s: Seq<u8>, smallest: u64, n: u64) -> Result<Seq<u8>, Flaw>
    decreases n,
{
    if n == 0 {
        Ok(s)
    } else {
        match take_varint(s) {
            None => Err(Flaw::UnexpectedEnd),
            Some((gap, s1)) => if gap.value() + 2 > smallest {
                Err(Flaw::Malformed)
            } else {
                match take_varint(s1) {
                    None => Err(Flaw::UnexpectedEnd),
                    Some((length, s2)) => if gap.value() + 2 + length.value() > smallest {
                        Err(Flaw::Malformed)
                    } else {
                        take_ranges(
                            s2,
                            (smallest - gap.value() - 2 - length.value()) as u64,
                            (n - 1) as u64,
                        )
                    },
                }
            },
        }
    }
}

/// What follows all the ranges of an acknowledgment, of which there are `n` beside the first.
pub open spec fn take_all_ranges(s: Seq<u8>, largest: u64, n: u64) -> Result<Seq<u8>, Flaw> {
    match take_varint(s) {
        None => Err(Flaw::UnexpectedEnd),
        Some((length, s1)) => if length.value() > largest {
            Err(Flaw::Malformed)
        } else {
            take_ranges(s1, (largest - length.value()) as u64, n)
        },
    }
}

/// Three counts of congestion marks, and what follows them.
pub open spec fn take_ecn(s: Seq<u8>) -> Option<(EcnCounts, Seq<u8>)> {
    match take_varint(s) {
        None => None,
        Some((ect0, s1)) => match take_varint(s1) {
            None => None,
            Some((ect1, s2)) => match take_varint(s2) {
                None => None,
                Some((ce, s3)) => Some((EcnCounts { ect0, ect1, ce }, s3)),
            },
        },
    }
}

/// The body of an ACK frame, which ends with congestion marks where `ecn` says so.
pub open spec fn take_ack(ecn: bool, s: Seq<u8>) -> Taken {
    match take_varint(s) {
        None => Err(Flaw::UnexpectedEnd),
        Some((largest, s1)) => match take_varint(s1) {
            None => Err(Flaw::UnexpectedEnd),
            Some((delay, s2)) => match take_varint(s2) {
                None => Err(Flaw::UnexpectedEnd),
                Some((n, s3)) => match take_all_ranges(s3, largest.value(), n.value()) {
                    Err(flaw) => Err(flaw),
                    Ok(s4) => {
                        let additional = s3.take(s3.len() - s4.len());
                        if ecn {
                            match take_ecn(s4) {
                                None => Err(Flaw::UnexpectedEnd),
                                Some((counts, rest)) => Ok(
                                    (
                                        ProhibitedFrame::Ack {
                                            largest,
                                            delay,
                                            additional,
                                            ecn: Some(counts),
                                        },
                                        rest,
                                    ),
                                ),
                            }
                        } else {
                            Ok(
                                (
                                    ProhibitedFrame::Ack { largest, delay, additional, ecn: None },
                                    s4,
                                ),
                            )
                        }
                    },
                },
            },
        },
    }
}

/// The body of a CRYPTO frame.
pub open spec fn take_crypto(s: Seq<u8>) -> Taken {
    match take_varint(s) {
        None => Err(Flaw::UnexpectedEnd),
        Some((offset, s1)) => match take_sized(s1) {
            None => Err(Flaw::UnexpectedEnd),
            Some((data, rest)) => Ok((ProhibitedFrame::Crypto { offset, data }, rest)),
        },
    }
}

/// The body of a NEW_CONNECTION_ID frame.
pub open spec fn take_connection_id(s: Seq<u8>) -> Taken {
    match take_varint(s) {
        None => Err(Flaw::UnexpectedEnd),
        Some((sequence, s1)) => match take_varint(s1) {
            None => Err(Flaw::UnexpectedEnd),
            Some((retire_prior_to, s2)) => if retire_prior_to.value() > sequence.value() {
                Err(Flaw::Malformed)
            } else if s2.len() == 0 {
                Err(Flaw::UnexpectedEnd)
            } else if s2[0] == 0 || s2[0] > MAX_CID_SIZE {
                Err(Flaw::Malformed)
            } else {
                match take_octets(s2.skip(1), s2[0] as u64) {
                    None => Err(Flaw::UnexpectedEnd),
                    Some((id, s3)) => match take_octets(s3, RESET_TOKEN_SIZE) {
                        None => Err(Flaw::UnexpectedEnd),
                        Some((reset_token, rest)) => Ok(
                            (
                                ProhibitedFrame::NewConnectionId {
                                    sequence,
                                    retire_prior_to,
                                    id,
                                    reset_token,
                                },
                                rest,
                            ),
                        ),
                    },
                }
            },
        },
    }
}

/// The prohibited frame of type `ty` whose body is at the front of `s`, and what follows it.
pub open spec fn take_prohibited(ty: u64, s: Seq<u8>) -> Taken {
    if ty == PING {
        Ok((ProhibitedFrame::Ping, s))
    } else if ty == ACK || ty == ACK_ECN {
        take_ack(ty == ACK_ECN, s)
    } else if ty == CRYPTO {
        take_crypto(s)
    } else if ty == NEW_TOKEN {
        match take_sized(s) {
            None => Err(Flaw::UnexpectedEnd),
            Some((token, rest)) => Ok((ProhibitedFrame::NewToken(token), rest)),
        }
    } else if ty == NEW_CONNECTION_ID {
        take_connection_id(s)
    } else if ty == RETIRE_CONNECTION_ID {
        match take_varint(s) {
            None => Err(Flaw::UnexpectedEnd),
            Some((sequence, rest)) => Ok((ProhibitedFrame::RetireConnectionId(sequence), rest)),
        }
    } else if ty == PATH_CHALLENGE {
        match take_octets(s, PATH_DATA_SIZE) {
            None => Err(Flaw::UnexpectedEnd),
            Some((data, rest)) => Ok((ProhibitedFrame::PathChallenge(data), rest)),
        }
    } else if ty == PATH_RESPONSE {
        match take_octets(s, PATH_DATA_SIZE) {
            None => Err(Flaw::UnexpectedEnd),
            Some((data, rest)) => Ok((ProhibitedFrame::PathResponse(data), rest)),
        }
    } else if ty == HANDSHAKE_DONE {
        Ok((ProhibitedFrame::HandshakeDone, s))
    } else {
        Err(Flaw::UnknownType)
    }
}

/// The error that reports a flaw of a frame of type `ty`.
pub open spec fn flawed_frame(ty: VarInt, flaw: Flaw) -> TransportError<Seq<char>> {
    TransportError {
        code: VarInt::of(FRAME_ENCODING_ERROR as u64),
        frame: Some(ty),
        reason: match flaw {
            Flaw::UnexpectedEnd => "unexpected end"@,
            Flaw::Malformed => "malformed"@,
            Flaw::UnknownType => "invalid frame ID"@,
        },
    }
}

/// The standard frame of type `ty` whose body is at the front of `s`, and what follows it.
pub open spec fn take_quic(ty: VarInt, s: Seq<u8>) -> Result<
    (QuicFrame<Seq<u8>>, Seq<u8>),
    TransportError<Seq<char>>,
> {
    if is_reliable(ty.value()) {
        match take_wire_frame(ty.value(), s) {
            Some((frame, rest)) => Ok((QuicFrame::Reliable(frame), rest)),
            None => Err(unexpected_end(Some(ty))),
        }
    } else {
        match take_prohibited(ty.value(), s) {
            Ok((frame, rest)) => Ok((QuicFrame::Prohibited(frame), rest)),
            Err(flaw) => Err(flawed_frame(ty, flaw)),
        }
    }
}

/// Whether a result is the given frame, with what follows it left in the buffer.
spec fn is_taken(r: Result<ProhibitedFrame, Flaw>, left: Seq<u8>, taken: Taken) -> bool {
    match taken {
        Ok((frame, rest)) => r is Ok && r->Ok_0@ == frame && left == rest,
        Err(flaw) => r == Err::<ProhibitedFrame, Flaw>(flaw),
    }
}

proof fn lemma_ranges_shorten(s: Seq<u8>, smallest: u64, n: u64)
    ensures
        take_ranges(s, smallest, n) matches Ok(rest) ==> rest.len() <= s.len(),
    decreases n,
{
    if n > 0 {
        lemma_take_varint_shortens(s);
        if let Some((gap, s1)) = take_varint(s) {
            lemma_take_varint_shortens(s1);
            if let Some((length, s2)) = take_varint(s1) {
                if gap.value() + 2 + length.value() <= smallest {
                    lemma_ranges_shorten(
                        s2,
                        (smallest - gap.value() - 2 - length.value()) as u64,
                        (n - 1) as u64,
                    );
                }
            }
        }
    }
}

proof fn lemma_all_ranges_shorten(s: Seq<u8>, largest: u64, n: u64)
    ensures
        take_all_ranges(s, largest, n) matches Ok(rest) ==> rest.len() <= s.len(),
{
    lemma_take_varint_shortens(s);
    if let Some((length, s1)) = take_varint(s) {
        if length.value() <= largest {
            lemma_ranges_shorten(s1, (largest - length.value()) as u64, n);
        }
    }
}

proof fn lemma_ecn_shortens(s: Seq<u8>)
    ensures
        take_ecn(s) matches Some((counts, rest)) ==> rest.len() <= s.len(),
{
    lemma_take_varint_shortens(s);
    if let Some((ect0, s1)) = take_varint(s) {
        lemma_take_varint_shortens(s1);
        if let Some((ect1, s2)) = take_varint(s1) {
            lemma_take_varint_shortens(s2);
        }
    }
}

proof fn lemma_prohibited_progress(ty: u64, s: Seq<u8>)
    ensures
        take_prohibited(ty, s) matches Ok((frame, rest)) ==> rest.len() <= s.len(),
{
    lemma_take_varint_shortens(s);
    lemma_sized_progress(s);
    if let Some((v1, s1)) = take_varint(s) {
        lemma_take_varint_shortens(s1);
        lemma_sized_progress(s1);
        if let Some((v2, s2)) = take_varint(s1) {
            lemma_take_varint_shortens(s2);
            if let Some((v3, s3)) = take_varint(s2) {
                lemma_all_ranges_shorten(s3, v1.value(), v3.value());
                if let Ok(s4) = take_all_ranges(s3, v1.value(), v3.value()) {
                    lemma_ecn_shortens(s4);
                }
            }
        }
    }
}

/// What follows a standard frame's body is no longer than what was there.
pub proof fn lemma_quic_progress(ty: VarInt, s: Seq<u8>)
    ensures
        take_quic(ty, s) matches Ok((frame, rest)) ==> rest.len() <= s.len(),
{
    if is_reliable(ty.value()) {
        lemma_wire_progress(ty.value(), s);
    } else {
        lemma_prohibited_progress(ty.value(), s);
    }
}

/// Read past the ranges of an acknowledgment.
fn skip_ranges(buf: &mut Bytes, largest: u64, n: u64) -> (r: Result<(), Flaw>)
    ensures
        match take_all_ranges(octets(*old(buf)), largest, n) {
            Ok(rest) => r is Ok && octets(*final(buf)) == rest,
            Err(flaw) => r == Err::<(), Flaw>(flaw),
        },
{
    let first: u64 = match get_varint(buf) {
        Some(length) => length.into_inner(),
        None => return Err(Flaw::UnexpectedEnd),
    };
    if first > largest {
        return Err(Flaw::Malformed);
    }
    let mut smallest: u64 = largest - first;
    let mut left: u64 = n;
    let ghost whole = take_ranges(octets(*buf), smallest, left);
    while left > 0
        invariant
            take_ranges(octets(*buf), smallest, left) == whole,
            whole == take_all_ranges(octets(*old(buf)), largest, n),
        decreases left,
    {
        let gap: u64 = match get_varint(buf) {
            Some(gap) => gap.into_inner(),
            None => return Err(Flaw::UnexpectedEnd),
        };
        if gap + 2 > smallest {
            return Err(Flaw::Malformed);
        }
        smallest = smallest - (gap + 2);
        let length: u64 = match get_varint(buf) {
            Some(length) => length.into_inner(),
            None => return Err(Flaw::UnexpectedEnd),
        };
        if length > smallest {
            return Err(Flaw::Malformed);
        }
        smallest = smallest - length;
        left = left - 1;
    }
    Ok(())
}

fn get_ecn(buf: &mut Bytes) -> (r: Option<EcnCounts>)
    ensures
        match take_ecn(octets(*old(buf))) {
            Some((counts, rest)) => r == Some(counts) && octets(*final(buf)) == rest,
            None => r is None,
        },
{
    let ect0 = match get_varint(buf) {
        Some(v) => v,
        None => return None,
    };
    let ect1 = match get_varint(buf) {
        Some(v) => v,
        None => return None,
    };
    match get_varint(buf) {
        Some(ce) => Some(EcnCounts { ect0, ect1, ce }),
        None => None,
    }
}

fn decode_ack(ecn: bool, buf: &mut Bytes) -> (r: Result<ProhibitedFrame, Flaw>)
    ensures
        is_taken(r, octets(*final(buf)), take_ack(ecn, octets(*old(buf)))),
{
    let largest = match get_varint(buf) {
        Some(v) => v,
        None => return Err(Flaw::UnexpectedEnd),
    };
    let delay = match get_varint(buf) {
        Some(v) => v,
        None => return Err(Flaw::UnexpectedEnd),
    };
    let n: u64 = match get_varint(buf) {
        Some(v) => v.into_inner(),
        None => return Err(Flaw::UnexpectedEnd),
    };
    let ranges = buf.clone();
    proof {
        lemma_all_ranges_shorten(octets(ranges), largest.value(), n);
    }
    match skip_ranges(buf, largest.into_inner(), n) {
        Ok(()) => {},
        Err(flaw) => return Err(flaw),
    }
    let taken: usize = ranges.len() - buf.len();
    let additional = prefix(&ranges, taken);
    let ecn = if ecn {
        match get_ecn(buf) {
            Some(counts) => Some(counts),
            None => return Err(Flaw::UnexpectedEnd),
        }
    } else {
        None
    };
    Ok(ProhibitedFrame::Ack { largest, delay, additional, ecn })
}

fn decode_crypto(buf: &mut Bytes) -> (r: Result<ProhibitedFrame, Flaw>)
    ensures
        is_taken(r, octets(*final(buf)), take_crypto(octets(*old(buf)))),
{
    let offset = match get_varint(buf) {
        Some(v) => v,
        None => return Err(Flaw::UnexpectedEnd),
    };
    match get_sized(buf) {
        Some(data) => Ok(ProhibitedFrame::Crypto { offset, data }),
        None => Err(Flaw::UnexpectedEnd),
    }
}

fn decode_connection_id(buf: &mut Bytes) -> (r: Result<ProhibitedFrame, Flaw>)
    ensures
        is_taken(r, octets(*final(buf)), take_connection_id(octets(*old(buf)))),
{
    let sequence = match get_varint(buf) {
        Some(v) => v,
        None => return Err(Flaw::UnexpectedEnd),
    };
    let retire_prior_to = match get_varint(buf) {
        Some(v) => v,
        None => return Err(Flaw::UnexpectedEnd),
    };
    if retire_prior_to.into_inner() > sequence.into_inner() {
        return Err(Flaw::Malformed);
    }
    let length: u8 = match get_octets(buf, 1) {
        Some(octet) => as_slice(&octet)[0],
        None => return Err(Flaw::UnexpectedEnd),
    };
    if length == 0 || length as u64 > MAX_CID_SIZE {
        return Err(Flaw::Malformed);
    }
    let id = match get_octets(buf, length as u64) {
        Some(id) => id,
        None => return Err(Flaw::UnexpectedEnd),
    };
    match get_octets(buf, RESET_TOKEN_SIZE) {
        Some(reset_token) => Ok(
            ProhibitedFrame::NewConnectionId { sequence, retire_prior_to, id, reset_token },
        ),
        None => Err(Flaw::UnexpectedEnd),
    }
}

fn decode_prohibited(ty: VarInt, buf: &mut Bytes) -> (r: Result<ProhibitedFrame, Flaw>)
    ensures
        is_taken(r, octets(*final(buf)), take_prohibited(ty.value(), octets(*old(buf)))),
{
    match ty.into_inner() {
        PING => Ok(ProhibitedFrame::Ping),
        ACK => decode_ack(false, buf),
        ACK_ECN => decode_ack(true, buf),
        CRYPTO => decode_crypto(buf),
        NEW_TOKEN => match get_sized(buf) {
            Some(token) => Ok(ProhibitedFrame::NewToken(token)),
            None => Err(Flaw::UnexpectedEnd),
        },
        NEW_CONNECTION_ID => decode_connection_id(buf),
        RETIRE_CONNECTION_ID => match get_varint(buf) {
            Some(sequence) => Ok(ProhibitedFrame::RetireConnectionId(sequence)),
            None => Err(Flaw::UnexpectedEnd),
        },
        PATH_CHALLENGE => match get_octets(buf, PATH_DATA_SIZE) {
            Some(data) => Ok(ProhibitedFrame::PathChallenge(data)),
            None => Err(Flaw::UnexpectedEnd),
        },
        PATH_RESPONSE => match get_octets(buf, PATH_DATA_SIZE) {
            Some(data) => Ok(ProhibitedFrame::PathResponse(data)),
            None => Err(Flaw::UnexpectedEnd),
        },
        HANDSHAKE_DONE => Ok(ProhibitedFrame::HandshakeDone),
        _ => Err(Flaw::UnknownType),
    }
}

fn report(ty: VarInt, flaw: Flaw) -> (e: TransportError)
    ensures
        e@ == flawed_frame(ty, flaw),
{
    let reason = match flaw {
        Flaw::UnexpectedEnd => "unexpected end",
        Flaw::Malformed => "malformed",
        Flaw::UnknownType => "invalid frame ID",
    };
    let mut e = TransportError::new(FRAME_ENCODING_ERROR, reason);
    e.frame = Some(ty);
    e
}

/// Decode the body of a standard frame of the given type.
///
/// After an error the record is of no further use.
pub fn decode_quic(ty: VarInt, buf: &mut Bytes) -> (r: Result<QuicFrame, TransportError>)
    ensures
        match take_quic(ty, octets(*old(buf))) {
            Ok((frame, rest)) => r is Ok && r->Ok_0@ == frame && octets(*final(buf)) == rest,
            Err(e) => r is Err && r->Err_0@ == e,
        },
{
    if reliable(ty) {
        return match decode_with_type(ty, buf) {
            Ok(frame) => Ok(QuicFrame::Reliable(frame)),
            Err(e) => Err(e),
        };
    }
    match decode_prohibited(ty, buf) {
        Ok(frame) => Ok(QuicFrame::Prohibited(frame)),
        Err(flaw) => Err(report(ty, flaw)),
    }
}

/// The octets of ranges of an acknowledgment beside the first, each a gap and a length.
pub open spec fn range_octets(list: Seq<(u64, u64)>) -> Seq<u8>
    decreases list.len(),
{
    if list.len() == 0 {
        Seq::empty()
    } else {
        encoding(list[0].0) + (encoding(list[0].1) + range_octets(list.skip(1)))
    }
}

/// How far ranges reach down: each leaves out its gap and one packet more, and takes its length
/// and one packet more.
pub open spec fn span(list: Seq<(u64, u64)>) -> int
    decreases list.len(),
{
    if list.len() == 0 {
        0
    } else {
        list[0].0 + 2 + list[0].1 + span(list.skip(1))
    }
}

proof fn lemma_span(list: Seq<(u64, u64)>)
    ensures
        span(list) >= 0,
    decreases list.len(),
{
    if list.len() > 0 {
        lemma_span(list.skip(1));
    }
}

/// However many ranges an acknowledgment has, they are read to their end where they stay at or
/// above packet zero, and are malformed where they reach below.
pub proof fn law_ranges_read(list: Seq<(u64, u64)>, smallest: u64, rest: Seq<u8>)
    requires
        list.len() <= u64::MAX,
        forall|i: int|
            0 <= i < list.len() ==> (#[trigger] list[i]).0 < VARINT_BOUND && list[i].1
                < VARINT_BOUND,
    ensures
        take_ranges(range_octets(list) + rest, smallest, list.len() as u64) == (if span(list)
            <= smallest {
            Ok::<Seq<u8>, Flaw>(rest)
        } else {
            Err(Flaw::Malformed)
        }),
    decreases list.len(),
{
    if list.len() == 0 {
        assert(range_octets(list) + rest =~= rest);
    } else {
        let (gap, length) = list[0];
        let tail = list.skip(1);
        let s2 = range_octets(tail) + rest;
        let s1 = encoding(length) + s2;
        assert(range_octets(list) + rest =~= encoding(gap) + s1);
        lemma_take_varint(gap, s1);
        lemma_take_varint(length, s2);
        lemma_span(tail);
        if gap + 2 + length <= smallest {
            law_ranges_read(tail, (smallest - gap - 2 - length) as u64, rest);
        }
    }
}

} // verus!
