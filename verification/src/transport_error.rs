//! Violations of the protocol, as reported to the peer.

use crate::varint::VarInt;
use vstd::prelude::*;
use vstd::string::*;

verus! {

/// The connection ends without an error.
pub const NO_ERROR: u32 = 0x00;

/// The endpoint met an error of its own.
pub const INTERNAL_ERROR: u32 = 0x01;

/// The peer sent more data than it was allowed to.
pub const FLOW_CONTROL_ERROR: u32 = 0x03;

/// The peer opened more streams than it was allowed to.
pub const STREAM_LIMIT_ERROR: u32 = 0x04;

/// A frame names a stream that is not in a state to take it.
pub const STREAM_STATE_ERROR: u32 = 0x05;

/// The final size of a stream was contradicted.
pub const FINAL_SIZE_ERROR: u32 = 0x06;

/// A frame is malformed.
pub const FRAME_ENCODING_ERROR: u32 = 0x07;

/// The transport parameters are malformed or prohibited.
pub const TRANSPORT_PARAMETER_ERROR: u32 = 0x08;

/// Another rule of the protocol was broken.
pub const PROTOCOL_VIOLATION: u32 = 0x0a;

/// A violation of the protocol: its code, the type of the frame that provoked it where that
/// is known, and a message.
#[derive(Debug, Clone, PartialEq, Eq)]
pub struct TransportError<R = String> {
    /// Error code sent to the peer.
    pub code: VarInt,
    /// Type of the frame that provoked the error.
    pub frame: Option<VarInt>,
    /// Message for humans.
    pub reason: R,
}

/// The error with the given code and message that names no frame.
pub open spec fn transport_error(code: u32, reason: Seq<char>) -> TransportError<Seq<char>> {
    TransportError { code: VarInt::of(code as u64), frame: None, reason }
}

impl View for TransportError<String> {
    type V = TransportError<Seq<char>>;

    open spec fn view(&self) -> TransportError<Seq<char>> {
        TransportError { code: self.code, frame: self.frame, reason: self.reason@ }
    }
}

impl TransportError<String> {
    /// An error that names no frame.
    pub fn new(code: u32, reason: &str) -> (e: TransportError)
        ensures
            e@ == transport_error(code, reason@),
    {
        TransportError { code: VarInt::from_u32(code), frame: None, reason: reason.to_owned() }
    }

    /// The same error once more.
    pub fn duplicate(&self) -> (e: TransportError)
        ensures
            e@ == self@,
    {
        TransportError { code: self.code, frame: self.frame, reason: self.reason.clone() }
    }
}

} // verus!
