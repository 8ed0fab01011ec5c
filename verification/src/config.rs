//! Connection configuration.

use crate::time::{group_time, Duration};
use crate::varint::{group_varint, VarInt};
use vstd::prelude::*;

verus! {

broadcast use {group_varint, group_time};

/// Parameters governing a QMux connection.
///
/// Controls both the transport parameters advertised to the peer and local resource limits.
#[derive(Debug, Clone, Copy)]
pub struct Config {
    /// Connection-level flow control window for data received from the peer.
    pub receive_window: VarInt,
    /// Per-stream flow control window for data received from the peer.
    pub stream_receive_window: VarInt,
    /// Number of bidirectional streams the peer may have open concurrently.
    pub max_concurrent_bidi_streams: VarInt,
    /// Number of unidirectional streams the peer may have open concurrently.
    pub max_concurrent_uni_streams: VarInt,
    /// Maximum quantity of stream data buffered locally awaiting transmission.
    pub send_window: u64,
    /// Silence after which the connection is closed; `None` for never.
    pub max_idle_timeout: Option<Duration>,
    /// Interval between keep-alives; `None` for a third of the effective timeout.
    pub keep_alive_interval: Option<Duration>,
    /// Largest record Size field the peer may send.
    pub max_record_size: VarInt,
    /// Largest DATAGRAM frame the peer may send; `None` disables datagram support.
    pub max_datagram_frame_size: Option<VarInt>,
    /// Number of outgoing datagrams queued.
    pub datagram_send_queue: usize,
    /// Number of incoming datagrams queued.
    pub datagram_recv_queue: usize,
}

/// The configuration with default limits.
pub open spec fn default_config() -> Config {
    Config {
        receive_window: VarInt::of(8_388_608),
        stream_receive_window: VarInt::of(1_048_576),
        max_concurrent_bidi_streams: VarInt::of(100),
        max_concurrent_uni_streams: VarInt::of(100),
        send_window: 8_388_608,
        max_idle_timeout: Some(Duration::of_nanos(30_000_000_000)),
        keep_alive_interval: None,
        max_record_size: VarInt::of(16382),
        max_datagram_frame_size: Some(VarInt::of(16382)),
        datagram_send_queue: 1024,
        datagram_recv_queue: 1024,
    }
}

impl Default for Config {
    /// The configuration with default limits.
    fn default() -> (c: Config)
        ensures
            c == default_config(),
    {
        let timeout = Duration::from_secs(30);
        proof {
            Duration::lemma_nanos_of(timeout);
        }
        Config {
            receive_window: VarInt::from_u32(8 * 1024 * 1024),
            stream_receive_window: VarInt::from_u32(1024 * 1024),
            max_concurrent_bidi_streams: VarInt::from_u32(100),
            max_concurrent_uni_streams: VarInt::from_u32(100),
            send_window: 8 * 1024 * 1024,
            max_idle_timeout: Some(timeout),
            keep_alive_interval: None,
            max_record_size: VarInt::from_u32(16382),
            max_datagram_frame_size: Some(VarInt::from_u32(16382)),
            datagram_send_queue: 1024,
            datagram_recv_queue: 1024,
        }
    }
}

impl Config {
    /// Create a configuration with default limits.
    pub fn new() -> (c: Config)
        ensures
            c == default_config(),
    {
        Config::default()
    }

    /// Connection-level flow control window for data received from the peer.
    pub fn receive_window(&mut self, value: VarInt) -> (r: &mut Config)
        ensures
            *r == (Config { receive_window: value, ..*old(self) }),
            *final(self) == *final(r),
    {
        self.receive_window = value;
        self
    }

    /// Per-stream flow control window for data received from the peer.
    pub fn stream_receive_window(&mut self, value: VarInt) -> (r: &mut Config)
        ensures
            *r == (Config { stream_receive_window: value, ..*old(self) }),
            *final(self) == *final(r),
    {
        self.stream_receive_window = value;
        self
    }

    /// Number of bidirectional streams the peer may have open concurrently.
    pub fn max_concurrent_bidi_streams(&mut self, value: VarInt) -> (r: &mut Config)
        ensures
            *r == (Config { max_concurrent_bidi_streams: value, ..*old(self) }),
            *final(self) == *final(r),
    {
        self.max_concurrent_bidi_streams = value;
        self
    }

    /// Number of unidirectional streams the peer may have open concurrently.
    pub fn max_concurrent_uni_streams(&mut self, value: VarInt) -> (r: &mut Config)
        ensures
            *r == (Config { max_concurrent_uni_streams: value, ..*old(self) }),
            *final(self) == *final(r),
    {
        self.max_concurrent_uni_streams = value;
        self
    }

    /// Maximum quantity of stream data buffered locally awaiting transmission.
    pub fn send_window(&mut self, value: u64) -> (r: &mut Config)
        ensures
            *r == (Config { send_window: value, ..*old(self) }),
            *final(self) == *final(r),
    {
        self.send_window = value;
        self
    }

    /// Close the connection after this long without receiving a record; `None` disables.
    ///
    /// The effective timeout is the minimum of both endpoints' values. Keep-alive pings are
    /// sent at a third of the effective timeout, unless an interval is configured.
    pub fn max_idle_timeout(&mut self, value: Option<Duration>) -> (r: &mut Config)
        ensures
            *r == (Config { max_idle_timeout: value, ..*old(self) }),
            *final(self) == *final(r),
    {
        self.max_idle_timeout = value;
        self
    }

    /// Send keep-alive pings at this interval; `None` for a third of the effective timeout.
    pub fn keep_alive_interval(&mut self, value: Option<Duration>) -> (r: &mut Config)
        ensures
            *r == (Config { keep_alive_interval: value, ..*old(self) }),
            *final(self) == *final(r),
    {
        self.keep_alive_interval = value;
        self
    }

    /// Largest record Size field the peer may send; at least 16382.
    pub fn max_record_size(&mut self, value: VarInt) -> (r: &mut Config)
        ensures
            *r == (Config { max_record_size: value, ..*old(self) }),
            *final(self) == *final(r),
    {
        self.max_record_size = value;
        self
    }

    /// Largest DATAGRAM frame the peer may send; `None` disables datagram support.
    pub fn max_datagram_frame_size(&mut self, value: Option<VarInt>) -> (r: &mut Config)
        ensures
            *r == (Config { max_datagram_frame_size: value, ..*old(self) }),
            *final(self) == *final(r),
    {
        self.max_datagram_frame_size = value;
        self
    }

    /// Outgoing datagrams queued beyond this count displace the oldest queued datagram.
    pub fn datagram_send_queue(&mut self, value: usize) -> (r: &mut Config)
        ensures
            *r == (Config { datagram_send_queue: value, ..*old(self) }),
            *final(self) == *final(r),
    {
        self.datagram_send_queue = value;
        self
    }

    /// Incoming datagrams queued beyond this count displace the oldest queued datagram.
    pub fn datagram_recv_queue(&mut self, value: usize) -> (r: &mut Config)
        ensures
            *r == (Config { datagram_recv_queue: value, ..*old(self) }),
            *final(self) == *final(r),
    {
        self.datagram_recv_queue = value;
        self
    }
}

/// The default configuration takes a hundred streams of each direction, eight mebibytes of data on
/// the connection either way and one on each stream, records of the default size and datagrams up to
/// that, of which it queues 1024 either way; it bears thirty seconds of silence and sends keep-alives
/// at an interval derived from that.
pub proof fn law_default_configuration()
    ensures
        ({
            let c = default_config();
            &&& c.receive_window.value() == 8 * 1024 * 1024
            &&& c.stream_receive_window.value() == 1024 * 1024
            &&& c.max_concurrent_bidi_streams.value() == 100
            &&& c.max_concurrent_uni_streams.value() == 100
            &&& c.send_window == 8 * 1024 * 1024
            &&& c.max_idle_timeout matches Some(d) && d.spec_nanos() == 30 * 1_000_000_000
            &&& c.keep_alive_interval is None
            &&& c.max_record_size.value() == 16382
            &&& c.max_datagram_frame_size matches Some(max) && max.value() == 16382
            &&& c.datagram_send_queue == 1024
            &&& c.datagram_recv_queue == 1024
        }),
{
}

} // verus!
