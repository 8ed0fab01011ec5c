//! The QMux connection without I/O.

pub mod agreement;
pub mod config;
pub mod connection;
pub mod event;
pub mod frame;
pub mod laws;
pub mod life;
pub mod params;
pub mod quic;
pub mod received;
pub mod record;
pub mod sent;
pub mod state;
pub mod steps;
pub mod timer;
pub mod valid;
pub mod wire;
