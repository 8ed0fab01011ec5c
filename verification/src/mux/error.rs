//! Errors while processing QMux state or framing.

use crate::buffer::from_vec;
use crate::streams::frame::ConnectionClose;
use crate::text::{decimal, hexadecimal, numeral};
use crate::transport_error::{
    TransportError, FRAME_ENCODING_ERROR, PROTOCOL_VIOLATION, TRANSPORT_PARAMETER_ERROR,
};
use crate::varint::{VarInt, VarIntBoundsExceeded};
use vstd::prelude::*;
use vstd::string::*;
use vstd::utf8::encode_utf8;

verus! {

/// Error while processing QMux state or framing.
#[derive(Debug)]
#[non_exhaustive]
pub enum Error<R = String> {
    /// The input ended in the middle of a field or frame.
    Truncated,
    /// A QUIC variable-length integer was outside its representable range.
    VarInt(VarIntBoundsExceeded),
    /// A frame type is prohibited or unsupported.
    InvalidFrame(u64),
    /// A frame was structurally invalid.
    FrameEncoding(&'static str),
    /// A transport parameter was malformed or inconsistent.
    TransportParameter(&'static str),
    /// The peer sent more than one transport-parameters frame.
    DuplicateParameters,
    /// The peer's first frame was not QX_TRANSPORT_PARAMETERS.
    ParametersNotFirst,
    /// The QMux record had trailing octets or an incorrect size prefix.
    RecordSizeMismatch,
    /// The peer exceeded our advertised record-size limit.
    RecordTooLarge {
        /// Octets in the record.
        size: usize,
        /// Our limit.
        limit: usize,
    },
    /// A locally generated frame cannot fit in the peer's record-size limit.
    FrameTooLarge {
        /// Octets in the frame.
        size: usize,
        /// The limit of the peer.
        limit: usize,
    },
    /// Datagram transmission was not negotiated.
    DatagramsUnsupported,
    /// A datagram exceeds the negotiated frame-size limit.
    DatagramTooLarge {
        /// Octets in the frame.
        size: usize,
        /// The limit.
        limit: u64,
    },
    /// A transmit token belongs to another connection.
    WrongConnection,
    /// Transmit completions were reported out of order.
    OutOfOrderTransmit,
    /// The QMux connection is closing or closed.
    ConnectionClosed,
    /// A locally requested QX_PING sequence did not strictly increase.
    PingSequence,
    /// The shared frame codec or the stream state machine rejected a frame.
    Protocol(TransportError<R>),
}

impl View for Error<String> {
    type V = Error<Seq<char>>;

    open spec fn view(&self) -> Error<Seq<char>> {
        match *self {
            Error::Truncated => Error::Truncated,
            Error::VarInt(e) => Error::VarInt(e),
            Error::InvalidFrame(ty) => Error::InvalidFrame(ty),
            Error::FrameEncoding(reason) => Error::FrameEncoding(reason),
            Error::TransportParameter(reason) => Error::TransportParameter(reason),
            Error::DuplicateParameters => Error::DuplicateParameters,
            Error::ParametersNotFirst => Error::ParametersNotFirst,
            Error::RecordSizeMismatch => Error::RecordSizeMismatch,
            Error::RecordTooLarge { size, limit } => Error::RecordTooLarge { size, limit },
            Error::FrameTooLarge { size, limit } => Error::FrameTooLarge { size, limit },
            Error::DatagramsUnsupported => Error::DatagramsUnsupported,
            Error::DatagramTooLarge { size, limit } => Error::DatagramTooLarge { size, limit },
            Error::WrongConnection => Error::WrongConnection,
            Error::OutOfOrderTransmit => Error::OutOfOrderTransmit,
            Error::ConnectionClosed => Error::ConnectionClosed,
            Error::PingSequence => Error::PingSequence,
            Error::Protocol(e) => Error::Protocol(e@),
        }
    }
}

/// A message about a size and a limit.
pub open spec fn sizes(before: Seq<char>, size: nat, between: Seq<char>, limit: nat) -> Seq<char> {
    before + numeral(size, 10) + between + numeral(limit, 10)
}

/// What an error reads like.
pub open spec fn description(e: Error<Seq<char>>) -> Seq<char> {
    match e {
        Error::Truncated => "truncated QMUX input"@,
        Error::VarInt(_) => "value too large for varint encoding"@,
        Error::InvalidFrame(ty) => "invalid QMUX frame type "@ + ("0x"@ + numeral(ty as nat, 16)),
        Error::FrameEncoding(reason) => "frame encoding error: "@ + reason@,
        Error::TransportParameter(reason) => "transport parameter error: "@ + reason@,
        Error::DuplicateParameters => "duplicate QX_TRANSPORT_PARAMETERS frame"@,
        Error::ParametersNotFirst => "QX_TRANSPORT_PARAMETERS must be the first frame"@,
        Error::RecordSizeMismatch => "record size prefix does not match the Frames field"@,
        Error::RecordTooLarge { size, limit } => sizes(
            "record payload of "@,
            size as nat,
            " bytes exceeds limit "@,
            limit as nat,
        ),
        Error::FrameTooLarge { size, limit } => sizes(
            "frame of "@,
            size as nat,
            " bytes exceeds peer record limit "@,
            limit as nat,
        ),
        Error::DatagramsUnsupported => "peer does not accept datagrams"@,
        Error::DatagramTooLarge { size, limit } => sizes(
            "datagram frame of "@,
            size as nat,
            " bytes exceeds limit "@,
            limit as nat,
        ),
        Error::WrongConnection => "transmit belongs to another connection"@,
        Error::OutOfOrderTransmit => "transmits must be completed in polling order"@,
        Error::ConnectionClosed => "QMUX connection is closing or closed"@,
        Error::PingSequence => "QX_PING request sequence numbers must strictly increase"@,
        Error::Protocol(e) => e.reason,
    }
}

/// The error code under which the peer is told about an error.
pub open spec fn close_code(e: Error<Seq<char>>) -> VarInt {
    match e {
        Error::Protocol(e) => e.code,
        Error::TransportParameter(_) => VarInt::of(TRANSPORT_PARAMETER_ERROR as u64),
        Error::DuplicateParameters => VarInt::of(PROTOCOL_VIOLATION as u64),
        Error::ParametersNotFirst => VarInt::of(PROTOCOL_VIOLATION as u64),
        _ => VarInt::of(FRAME_ENCODING_ERROR as u64),
    }
}

/// How the peer is told about an error.
pub open spec fn close_for(e: Error<Seq<char>>) -> ConnectionClose<Seq<u8>> {
    ConnectionClose {
        error_code: close_code(e),
        frame_type: match e {
            Error::Protocol(e) => e.frame,
            _ => None,
        },
        reason: encode_utf8(description(e)),
    }
}

fn sizes_text(before: &str, size: u64, between: &str, limit: u64) -> (s: String)
    ensures
        s@ == sizes(before@, size as nat, between@, limit as nat),
{
    let mut s = before.to_owned();
    s.append(decimal(size).as_str());
    s.append(between);
    s.append(decimal(limit).as_str());
    s
}

impl Error<String> {
    /// Message for humans.
    pub fn message(&self) -> (s: String)
        ensures
            s@ == description(self@),
    {
        match self {
            Error::Truncated => "truncated QMUX input".to_owned(),
            Error::VarInt(_) => "value too large for varint encoding".to_owned(),
            Error::InvalidFrame(ty) => {
                let mut s = "invalid QMUX frame type ".to_owned();
                s.append(hexadecimal(*ty).as_str());
                s
            },
            Error::FrameEncoding(reason) => {
                let mut s = "frame encoding error: ".to_owned();
                s.append(reason);
                s
            },
            Error::TransportParameter(reason) => {
                let mut s = "transport parameter error: ".to_owned();
                s.append(reason);
                s
            },
            Error::DuplicateParameters => "duplicate QX_TRANSPORT_PARAMETERS frame".to_owned(),
            Error::ParametersNotFirst => {
                "QX_TRANSPORT_PARAMETERS must be the first frame".to_owned()
            },
            Error::RecordSizeMismatch => {
                "record size prefix does not match the Frames field".to_owned()
            },
            Error::RecordTooLarge { size, limit } => sizes_text(
                "record payload of ",
                *size as u64,
                " bytes exceeds limit ",
                *limit as u64,
            ),
            Error::FrameTooLarge { size, limit } => sizes_text(
                "frame of ",
                *size as u64,
                " bytes exceeds peer record limit ",
                *limit as u64,
            ),
            Error::DatagramsUnsupported => "peer does not accept datagrams".to_owned(),
            Error::DatagramTooLarge { size, limit } => sizes_text(
                "datagram frame of ",
                *size as u64,
                " bytes exceeds limit ",
                *limit,
            ),
            Error::WrongConnection => "transmit belongs to another connection".to_owned(),
            Error::OutOfOrderTransmit => "transmits must be completed in polling order".to_owned(),
            Error::ConnectionClosed => "QMUX connection is closing or closed".to_owned(),
            Error::PingSequence => {
                "QX_PING request sequence numbers must strictly increase".to_owned()
            },
            Error::Protocol(e) => e.reason.clone(),
        }
    }

    /// How the peer is told about this error.
    pub fn close_reason(&self) -> (c: ConnectionClose)
        ensures
            c@ == close_for(self@),
    {
        let frame_type = match self {
            Error::Protocol(e) => e.frame,
            _ => None,
        };
        let error_code = match self {
            Error::Protocol(e) => e.code,
            Error::TransportParameter(_) => VarInt::from_u32(TRANSPORT_PARAMETER_ERROR),
            Error::DuplicateParameters | Error::ParametersNotFirst => VarInt::from_u32(
                PROTOCOL_VIOLATION,
            ),
            _ => VarInt::from_u32(FRAME_ENCODING_ERROR),
        };
        let reason = from_vec(self.message().as_str().as_bytes_vec());
        ConnectionClose { error_code, frame_type, reason }
    }
}

/// The peer is told with the code of the violation where there is one, as a parameter error
/// where its parameters are at fault, as a protocol violation where they are missing or
/// repeated, and otherwise as a malformed frame.
pub proof fn law_close_codes(e: Error<Seq<char>>)
    ensures
        e matches Error::Protocol(t) ==> close_for(e).error_code == t.code
            && close_for(e).frame_type == t.frame,
        e is TransportParameter ==> close_for(e).error_code.value() == TRANSPORT_PARAMETER_ERROR,
        (e is DuplicateParameters || e is ParametersNotFirst) ==> close_for(e).error_code.value()
            == PROTOCOL_VIOLATION,
        !(e is Protocol || e is TransportParameter || e is DuplicateParameters
            || e is ParametersNotFirst) ==> close_for(e).error_code.value() == FRAME_ENCODING_ERROR,
{
    broadcast use crate::varint::group_varint;

}

/// Errors stand for themselves, field by field.
pub proof fn law_errors_as_made(e: Error, size: usize, limit: usize, max: u64, ty: u64)
    ensures
        e@ is Truncated <==> e is Truncated,
        e@ is VarInt <==> e is VarInt,
        e@ == Error::<Seq<char>>::InvalidFrame(ty) <==> e == Error::<String>::InvalidFrame(ty),
        e matches Error::FrameEncoding(reason) ==> e@ == Error::<Seq<char>>::FrameEncoding(reason),
        e@ is FrameEncoding ==> e is FrameEncoding,
        e matches Error::TransportParameter(reason) ==> e@ == Error::<
            Seq<char>,
        >::TransportParameter(reason),
        e@ is TransportParameter ==> e is TransportParameter,
        e@ is DuplicateParameters <==> e is DuplicateParameters,
        e@ is ParametersNotFirst <==> e is ParametersNotFirst,
        e@ is RecordSizeMismatch <==> e is RecordSizeMismatch,
        e@ == (Error::<Seq<char>>::RecordTooLarge { size, limit }) <==> e == (Error::<
            String,
        >::RecordTooLarge { size, limit }),
        e@ == (Error::<Seq<char>>::FrameTooLarge { size, limit }) <==> e == (Error::<
            String,
        >::FrameTooLarge { size, limit }),
        e@ is DatagramsUnsupported <==> e is DatagramsUnsupported,
        e@ == (Error::<Seq<char>>::DatagramTooLarge { size, limit: max }) <==> e == (Error::<
            String,
        >::DatagramTooLarge { size, limit: max }),
        e@ is WrongConnection <==> e is WrongConnection,
        e@ is OutOfOrderTransmit <==> e is OutOfOrderTransmit,
        e@ is ConnectionClosed <==> e is ConnectionClosed,
        e@ is PingSequence <==> e is PingSequence,
        e matches Error::Protocol(t) ==> {
            &&& e@ matches Error::Protocol(u)
            &&& u.code == t.code && u.frame == t.frame && u.reason == t.reason@
        },
        e@ is Protocol ==> e is Protocol,
{
}

/// The peer is told about a refusal in words that tell what was wrong: those of the violation, or
/// those of the error with the sizes, the limit or the frame type in digits.
pub proof fn law_close_reasons(
    e: TransportError<Seq<char>>,
    size: usize,
    limit: usize,
    ty: u64,
)
    ensures
        close_for(Error::Protocol(e)).reason == encode_utf8(e.reason),
        close_for(Error::RecordTooLarge { size, limit }).reason == encode_utf8(
            "record payload of "@ + numeral(size as nat, 10) + " bytes exceeds limit "@ + numeral(
                limit as nat,
                10,
            ),
        ),
        close_for(Error::InvalidFrame(ty)).reason == encode_utf8(
            "invalid QMUX frame type "@ + ("0x"@ + numeral(ty as nat, 16)),
        ),
{
}

} // verus!
