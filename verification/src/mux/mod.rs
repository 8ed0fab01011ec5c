//! QMux record processing: records, transport parameters, extension frames, datagrams and
//! connection close, with streams left to a stream state machine beside it.

use vstd::prelude::*;

pub mod codec;
pub mod connection;
pub mod error;
pub mod laws;
pub mod life;
pub mod parameters;
pub mod received;
pub mod sent;
pub mod state;
pub mod valid;

verus! {

/// Default maximum size of a QMux record's Frames field.
pub const DEFAULT_MAX_RECORD_SIZE: u64 = 16_382;

} // verus!
