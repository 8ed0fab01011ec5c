//! Connection configuration over shared transport settings.

use crate::config;
use crate::proto::params::DEFAULT_MAX_RECORD_SIZE;
use crate::time::{group_time, Duration};
use crate::varint::{group_varint, VarInt};
use std::sync::Arc;
use vstd::prelude::*;

verus! {

broadcast use {group_varint, group_time};

/// Transport-level limits and timers, shared between connections.
#[derive(Debug, Clone, Copy)]
pub struct TransportConfig {
    /// Silence after which a connection is closed; `None` for never.
    pub max_idle_timeout: Option<Duration>,
    /// Interval between keep-alives, which are sent as QX_PING frames; `None` for a third of
    /// the effective timeout.
    pub keep_alive_interval: Option<Duration>,
    /// Connection-level flow control window for data received from the peer.
    pub receive_window: VarInt,
    /// Per-stream flow control window for data received from the peer.
    pub stream_receive_window: VarInt,
    /// Maximum quantity of stream data buffered locally awaiting transmission.
    pub send_window: u64,
    /// Number of bidirectional streams the peer may have open concurrently.
    pub max_concurrent_bidi_streams: VarInt,
    /// Number of unidirectional streams the peer may have open concurrently.
    pub max_concurrent_uni_streams: VarInt,
    /// Largest DATAGRAM frame the peer may send; `None` disables datagram support.
    pub max_datagram_frame_size: Option<VarInt>,
    /// Number of outgoing datagrams queued.
    pub datagram_send_queue: usize,
    /// Number of incoming datagrams queued.
    pub datagram_recv_queue: usize,
}

/// Parameters governing a QMux connection.
#[derive(Debug, Clone)]
pub struct Config {
    /// Shared transport-level limits and timers.
    pub transport: Arc<TransportConfig>,
    /// Largest record Size field the peer may use in records it sends to us; at least 16382
    /// (the default).
    pub max_record_size: VarInt,
}

/// The shared part of a configuration.
pub open spec fn shared_part(c: config::Config) -> TransportConfig {
    TransportConfig {
        max_idle_timeout: c.max_idle_timeout,
        keep_alive_interval: c.keep_alive_interval,
        receive_window: c.receive_window,
        stream_receive_window: c.stream_receive_window,
        send_window: c.send_window,
        max_concurrent_bidi_streams: c.max_concurrent_bidi_streams,
        max_concurrent_uni_streams: c.max_concurrent_uni_streams,
        max_datagram_frame_size: c.max_datagram_frame_size,
        datagram_send_queue: c.datagram_send_queue,
        datagram_recv_queue: c.datagram_recv_queue,
    }
}

impl Default for TransportConfig {
    /// The default limits of a connection.
    fn default() -> (t: TransportConfig)
        ensures
            t == shared_part(config::default_config()),
    {
        let c = config::Config::default();
        TransportConfig {
            max_idle_timeout: c.max_idle_timeout,
            keep_alive_interval: c.keep_alive_interval,
            receive_window: c.receive_window,
            stream_receive_window: c.stream_receive_window,
            send_window: c.send_window,
            max_concurrent_bidi_streams: c.max_concurrent_bidi_streams,
            max_concurrent_uni_streams: c.max_concurrent_uni_streams,
            max_datagram_frame_size: c.max_datagram_frame_size,
            datagram_send_queue: c.datagram_send_queue,
            datagram_recv_queue: c.datagram_recv_queue,
        }
    }
}

impl Default for Config {
    /// The configuration with default limits.
    fn default() -> (c: Config)
        ensures
            *c.transport == shared_part(config::default_config()),
            c.max_record_size == VarInt::of(DEFAULT_MAX_RECORD_SIZE),
    {
        Config {
            transport: Arc::new(TransportConfig::default()),
            max_record_size: VarInt::from_u32(16382),
        }
    }
}

impl Config {
    /// Create a configuration with default limits.
    pub fn new() -> (c: Config)
        ensures
            *c.transport == shared_part(config::default_config()),
            c.max_record_size == VarInt::of(DEFAULT_MAX_RECORD_SIZE),
    {
        Config::default()
    }

    /// The limits of one connection.
    pub fn limits(&self) -> (c: config::Config)
        ensures
            shared_part(c) == *self.transport,
            c.max_record_size == self.max_record_size,
    {
        config::Config {
            receive_window: self.transport.receive_window,
            stream_receive_window: self.transport.stream_receive_window,
            max_concurrent_bidi_streams: self.transport.max_concurrent_bidi_streams,
            max_concurrent_uni_streams: self.transport.max_concurrent_uni_streams,
            send_window: self.transport.send_window,
            max_idle_timeout: self.transport.max_idle_timeout,
            keep_alive_interval: self.transport.keep_alive_interval,
            max_record_size: self.max_record_size,
            max_datagram_frame_size: self.transport.max_datagram_frame_size,
            datagram_send_queue: self.transport.datagram_send_queue,
            datagram_recv_queue: self.transport.datagram_recv_queue,
        }
    }
}

/// The limits of a connection are those of its configuration, each in its place.
pub proof fn law_limits_kept(c: config::Config)
    ensures
        ({
            let t = shared_part(c);
            &&& t.max_idle_timeout == c.max_idle_timeout
            &&& t.keep_alive_interval == c.keep_alive_interval
            &&& t.receive_window == c.receive_window
            &&& t.stream_receive_window == c.stream_receive_window
            &&& t.send_window == c.send_window
            &&& t.max_concurrent_bidi_streams == c.max_concurrent_bidi_streams
            &&& t.max_concurrent_uni_streams == c.max_concurrent_uni_streams
            &&& t.max_datagram_frame_size == c.max_datagram_frame_size
            &&& t.datagram_send_queue == c.datagram_send_queue
            &&& t.datagram_recv_queue == c.datagram_recv_queue
        }),
{
}

} // verus!
