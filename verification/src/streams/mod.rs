//! Streams over a reliable, ordered carrier.

pub mod event;
pub mod frame;
pub mod octets;
pub mod order;
pub mod reliable;
pub mod wire;
