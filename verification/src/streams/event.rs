//! What an application learns about streams.

use crate::stream_id::{Dir, StreamId};
use crate::varint::VarInt;
use vstd::prelude::*;

verus! {

/// Stream activity of interest to the application.
#[derive(Debug, Clone, Copy, PartialEq, Eq, Structural)]
pub enum StreamEvent {
    /// One or more streams were opened by the peer.
    Opened {
        /// Direction of the streams.
        dir: Dir,
    },
    /// A stream has data, its end or a reset to read.
    Readable {
        /// The stream.
        id: StreamId,
    },
    /// A stream that was blocked takes data again.
    Writable {
        /// The stream.
        id: StreamId,
    },
    /// All data of a finished stream was handed over.
    Finished {
        /// The stream.
        id: StreamId,
    },
    /// The peer asked to stop sending on a stream.
    Stopped {
        /// The stream.
        id: StreamId,
        /// Error code of the application.
        error_code: VarInt,
    },
    /// At least one more stream may be opened.
    Available {
        /// Direction of the streams.
        dir: Dir,
    },
}

} // verus!
