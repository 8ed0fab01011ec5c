//! QMux: QUIC streams, flow control and datagrams over reliable, ordered transports.

pub mod buffer;
pub mod config;
pub mod mux;
pub mod proto;
pub mod session;
pub mod stream_id;
pub mod streams;
pub mod text;
pub mod time;
pub mod transport_error;
pub mod transport_parameters;
pub mod udp;
pub mod varint;
