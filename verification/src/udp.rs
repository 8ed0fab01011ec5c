//! Sending and receiving UDP packets in batches.
//!
//! What a socket has to do is left to the caller; this module holds the metadata, and the
//! arithmetic by which a transmit is cut into batches that each fit one system call.

use crate::time::{group_time, Duration, Instant};
use vstd::prelude::*;
use vstd::slice::slice_subrange;

verus! {

broadcast use group_time;

/// An IP address, in network byte order.
#[derive(Debug, Copy, Clone, Eq, PartialEq)]
pub enum IpAddr {
    /// Version 4.
    V4([u8; 4]),
    /// Version 6.
    V6([u8; 16]),
}

/// An IP address and a port.
#[derive(Debug, Copy, Clone, Eq, PartialEq)]
pub enum SocketAddr {
    /// Version 4.
    V4([u8; 4], u16),
    /// Version 6.
    V6([u8; 16], u16),
}

/// Explicit congestion notification codepoint.
#[derive(Debug, Copy, Clone, Eq, PartialEq, Structural)]
pub enum EcnCodepoint {
    /// The ECT(0) codepoint, indicating that an endpoint is ECN-capable.
    Ect0,
    /// The ECT(1) codepoint, indicating that an endpoint is ECN-capable.
    Ect1,
    /// The CE codepoint, signalling that congestion was experienced.
    Ce,
}

impl EcnCodepoint {
    /// The two bits of the codepoint.
    pub open spec fn spec_bits(self) -> u8 {
        match self {
            EcnCodepoint::Ect0 => 2,
            EcnCodepoint::Ect1 => 1,
            EcnCodepoint::Ce => 3,
        }
    }

    /// The two bits of the codepoint.
    pub fn bits(self) -> (x: u8)
        ensures
            x == self.spec_bits(),
    {
        match self {
            EcnCodepoint::Ect0 => 0b10,
            EcnCodepoint::Ect1 => 0b01,
            EcnCodepoint::Ce => 0b11,
        }
    }

    /// The codepoint in the two lowest bits, if there is one.
    pub fn from_bits(x: u8) -> (r: Option<EcnCodepoint>)
        ensures
            match r {
                Some(c) => c.spec_bits() == x % 4,
                None => x % 4 == 0,
            },
    {
        assert(x & 0b11 == x % 4) by (bit_vector);
        match x & 0b11 {
            0b10 => Some(EcnCodepoint::Ect0),
            0b01 => Some(EcnCodepoint::Ect1),
            0b11 => Some(EcnCodepoint::Ce),
            _ => None,
        }
    }
}

/// Metadata for a single buffer filled with octets received from the network.
///
/// The associated buffer can contain one or more datagrams, see `stride`.
#[derive(Debug, Copy, Clone)]
#[non_exhaustive]
pub struct RecvMeta {
    /// The source address of the datagram(s) contained in the buffer.
    pub addr: SocketAddr,
    /// The number of octets the associated buffer has.
    pub len: usize,
    /// The size of a single datagram in the associated buffer.
    ///
    /// When generic receive offload is used this indicates the size of a single datagram
    /// inside the buffer. If the buffer is larger, the individual datagrams contained have
    /// their boundaries at `stride` increments from the start. The last datagram could be
    /// smaller than `stride`.
    pub stride: usize,
    /// The Explicit Congestion Notification bits for the datagram(s) in the buffer.
    pub ecn: Option<EcnCodepoint>,
    /// The destination IP address which was encoded in this datagram.
    pub dst_ip: Option<IpAddr>,
    /// The interface index of the interface on which the datagram was received.
    pub interface_index: Option<u32>,
    /// Kernel receive timestamp since the Unix epoch.
    pub timestamp: Option<Duration>,
}

impl Default for RecvMeta {
    /// A value with arbitrary fields, intended to be overwritten.
    fn default() -> (m: RecvMeta)
        ensures
            m.addr matches SocketAddr::V6(ip, port) && ip@ == Seq::new(16, |i: int| 0u8) && port
                == 0,
            m.len == 0,
            m.stride == 0,
            m.ecn is None,
            m.dst_ip is None,
            m.interface_index is None,
            m.timestamp is None,
    {
        let ip: [u8; 16] = [0u8; 16];
        assert(ip@ =~= Seq::new(16, |i: int| 0u8));
        RecvMeta {
            addr: SocketAddr::V6(ip, 0),
            len: 0,
            stride: 0,
            ecn: None,
            dst_ip: None,
            interface_index: None,
            timestamp: None,
        }
    }
}

/// An outgoing packet.
#[derive(Debug, Clone, Copy)]
pub struct Transmit<'a> {
    /// The socket this datagram should be sent to.
    pub destination: SocketAddr,
    /// Explicit congestion notification bits to set on the packet.
    pub ecn: Option<EcnCodepoint>,
    /// Contents of the datagram.
    pub contents: &'a [u8],
    /// The segment size if this transmission contains multiple datagrams. This is `None` if
    /// the transmit only contains a single datagram.
    pub segment_size: Option<usize>,
    /// Optional source IP address for the datagram.
    pub src_ip: Option<IpAddr>,
}

impl<'a> Transmit<'a> {
    /// Size of the datagrams in a transmit but for the last, which may be smaller.
    pub open spec fn segment(self) -> usize {
        match self.segment_size {
            Some(size) => size,
            None => self.contents@.len() as usize,
        }
    }

    /// Computes the effective segment size of the packet.
    ///
    /// Some (older) network drivers don't like being told to do segmentation offload even if
    /// there is effectively only a single segment. A segment size that is greater than the
    /// content also means there is effectively only a single segment; this is common when
    /// splitting up a prepared batch again after offload has been disabled.
    pub fn effective_segment_size(&self) -> (r: Option<usize>)
        ensures
            r == (match self.segment_size {
                Some(size) if size < self.contents@.len() => Some(size),
                _ => None,
            }),
    {
        match self.segment_size {
            Some(size) => if size >= self.contents.len() {
                None
            } else {
                Some(size)
            },
            None => None,
        }
    }
}

/// Octets that the headers of a packet may take: the IP header with its options and the UDP
/// header.
pub open spec fn header_overhead(destination: SocketAddr) -> nat {
    match destination {
        SocketAddr::V4(..) => 60 + 8,
        SocketAddr::V6(..) => 40 + 8,
    }
}

/// Most octets that one system call takes: what the 16-bit length of a packet leaves, and no
/// more than the given number of segments.
pub open spec fn batch_budget(
    max_gso_segments: usize,
    segment_size: usize,
    destination: SocketAddr,
) -> int {
    let max_payload = 65535 - header_overhead(destination);
    if max_payload <= max_gso_segments * segment_size {
        max_payload
    } else {
        max_gso_segments * segment_size
    }
}

/// Maximum UDP payload octets packable into one system call.
///
/// The batch may end with a partial segment, so a transmit whose total length is at most this
/// ships in a single call even when it has one partial segment more than the segment budget.
pub fn max_batch_bytes(
    max_gso_segments: usize,
    segment_size: usize,
    destination: SocketAddr,
) -> (n: usize)
    requires
        max_gso_segments * segment_size <= usize::MAX,
    ensures
        n == batch_budget(max_gso_segments, segment_size, destination),
{
    let header_overhead: usize = match destination {
        SocketAddr::V4(..) => 60 + 8,
        SocketAddr::V6(..) => 40 + 8,
    };
    let max_payload: usize = 65535 - header_overhead;
    let budget: usize = max_gso_segments * segment_size;
    if max_payload <= budget {
        max_payload
    } else {
        budget
    }
}

/// Octets in the next batch: what is left where it fits, else as many whole segments as fit,
/// and at least one.
pub open spec fn next_batch(remaining: int, max_bytes: int, segment_size: int) -> int {
    if remaining <= max_bytes {
        remaining
    } else if max_bytes / segment_size >= 1 {
        max_bytes / segment_size * segment_size
    } else {
        segment_size
    }
}

/// Number of octets to send in the next system call, given `remaining` octets left in the
/// transmit and a per-call budget of `max_bytes`.
///
/// A buffer is segmented purely by offset, so an intermediate batch must stop on a segment
/// boundary; only the final batch may carry a partial last segment.
pub fn next_batch_bytes(remaining: usize, max_bytes: usize, segment_size: usize) -> (n: usize)
    requires
        remaining > max_bytes ==> segment_size > 0,
    ensures
        n == next_batch(remaining as int, max_bytes as int, segment_size as int),
{
    if remaining <= max_bytes {
        // Final batch: send what's left, partial last segment and all.
        remaining
    } else {
        // Intermediate batch: round the budget down to whole segments, but always make
        // progress even if a single segment exceeds the budget.
        let whole: usize = max_bytes / segment_size;
        proof {
            vstd::arithmetic::div_mod::lemma_fundamental_div_mod(
                max_bytes as int,
                segment_size as int,
            );
            vstd::arithmetic::mul::lemma_mul_is_commutative(whole as int, segment_size as int);
            vstd::arithmetic::div_mod::lemma_mod_bound(max_bytes as int, segment_size as int);
        }
        if whole >= 1 {
            whole * segment_size
        } else {
            segment_size
        }
    }
}

/// Whether a transmit can be cut into batches: there are segments, and where a single one
/// exceeds the budget, what is left after whole segments does not.
pub open spec fn sliceable(len: int, segment_size: int, max_bytes: int) -> bool {
    len == 0 || (segment_size > 0 && (segment_size <= max_bytes || len % segment_size
        <= max_bytes))
}

/// Slices a [`Transmit`] into batches that each fit one system call.
///
/// A transmit can carry more than one call accepts. The caller sends each batch, reports that
/// it was sent, and where a batch of several segments failed in a way that segmentation
/// offload is to blame for, goes on with single segments from the same offset.
#[derive(Debug, Clone, Copy)]
pub struct Slicer {
    /// Octets in the transmit.
    pub len: usize,
    /// Octets in a segment.
    pub segment_size: usize,
    /// Budget of one call.
    pub max_bytes: usize,
    /// Octets sent so far.
    pub pos: usize,
}

impl Slicer {
    /// Whole segments were sent, or everything was.
    pub open spec fn wf(self) -> bool {
        &&& self.pos <= self.len
        &&& sliceable(self.len as int, self.segment_size as int, self.max_bytes as int)
        &&& self.pos == self.len || self.pos as int % self.segment_size as int == 0
    }

    /// Octets in the next batch.
    pub open spec fn batch(self) -> int {
        next_batch(self.len - self.pos, self.max_bytes as int, self.segment_size as int)
    }

    /// Start at the front of a transmit, given how many segments one call takes.
    pub fn new(transmit: &Transmit<'_>, max_gso_segments: usize) -> (s: Slicer)
        requires
            max_gso_segments * transmit.segment() <= usize::MAX,
            sliceable(
                transmit.contents@.len() as int,
                transmit.segment() as int,
                batch_budget(max_gso_segments, transmit.segment(), transmit.destination),
            ),
        ensures
            s.wf(),
            s.len == transmit.contents@.len(),
            s.segment_size == transmit.segment(),
            s.max_bytes == batch_budget(
                max_gso_segments,
                transmit.segment(),
                transmit.destination,
            ),
            s.pos == 0,
    {
        let segment_size: usize = match transmit.segment_size {
            Some(size) => size,
            None => transmit.contents.len(),
        };
        let s = Slicer {
            len: transmit.contents.len(),
            segment_size,
            max_bytes: max_batch_bytes(max_gso_segments, segment_size, transmit.destination),
            pos: 0,
        };
        proof {
            if segment_size > 0 {
                vstd::arithmetic::div_mod::lemma_small_mod(0, segment_size as nat);
            }
        }
        s
    }

    /// Start to slice a transmit, unless it cannot be cut into batches or the budget of a call
    /// cannot be counted.
    pub fn checked(transmit: &Transmit<'_>, max_gso_segments: usize) -> (s: Option<Slicer>)
        ensures
            s is Some <==> max_gso_segments * transmit.segment() <= usize::MAX && sliceable(
                transmit.contents@.len() as int,
                transmit.segment() as int,
                batch_budget(max_gso_segments, transmit.segment(), transmit.destination),
            ),
            s matches Some(s) ==> {
                &&& s.wf()
                &&& s.len == transmit.contents@.len()
                &&& s.segment_size == transmit.segment()
                &&& s.max_bytes == batch_budget(
                    max_gso_segments,
                    transmit.segment(),
                    transmit.destination,
                )
                &&& s.pos == 0
            },
    {
        let len: usize = transmit.contents.len();
        let segment_size: usize = match transmit.segment_size {
            Some(size) => size,
            None => len,
        };
        if max_gso_segments.checked_mul(segment_size).is_none() {
            return None;
        }
        let max_bytes: usize = max_batch_bytes(max_gso_segments, segment_size, transmit.destination);
        if len == 0 || (segment_size > 0 && (segment_size <= max_bytes || len % segment_size
            <= max_bytes)) {
            Some(Slicer::new(transmit, max_gso_segments))
        } else {
            None
        }
    }

    /// The next batch, or `None` once the whole transmit was sent. It keeps the segment size:
    /// a batch of one segment or less is sent without offload.
    pub fn next<'a>(&self, transmit: &Transmit<'a>) -> (r: Option<Transmit<'a>>)
        requires
            self.wf(),
            transmit.contents@.len() == self.len,
        ensures
            r is None <==> self.pos == self.len,
            r matches Some(batch) ==> {
                &&& batch.contents@ == transmit.contents@.subrange(
                    self.pos as int,
                    self.pos + self.batch(),
                )
                &&& self.batch() > 0
                &&& batch.destination == transmit.destination
                &&& batch.ecn == transmit.ecn
                &&& batch.segment_size == transmit.segment_size
                &&& batch.src_ip == transmit.src_ip
            },
    {
        if self.pos >= self.len {
            return None;
        }
        proof {
            lemma_batch(*self);
        }
        let n: usize = next_batch_bytes(self.len - self.pos, self.max_bytes, self.segment_size);
        Some(
            Transmit {
                destination: transmit.destination,
                ecn: transmit.ecn,
                contents: slice_subrange(transmit.contents, self.pos, self.pos + n),
                segment_size: transmit.segment_size,
                src_ip: transmit.src_ip,
            },
        )
    }

    /// The batch was sent.
    pub fn batch_sent(&mut self)
        requires
            old(self).wf(),
            old(self).pos < old(self).len,
        ensures
            final(self).wf(),
            *final(self) == (Slicer {
                pos: (old(self).pos + old(self).batch()) as usize,
                ..*old(self)
            }),
            old(self).pos < final(self).pos <= final(self).len,
    {
        proof {
            lemma_batch(*self);
        }
        let n: usize = next_batch_bytes(self.len - self.pos, self.max_bytes, self.segment_size);
        self.pos = self.pos + n;
    }

    /// Whether a failure can be blamed on segmentation offload: only where a batch may hold
    /// several segments.
    pub fn can_halt_gso(&self) -> (b: bool)
        ensures
            b == (self.max_bytes > self.segment_size),
    {
        self.max_bytes > self.segment_size
    }

    /// Offload was halted: go on with single segments from the same offset.
    pub fn halt_gso(&mut self)
        requires
            old(self).wf(),
            old(self).max_bytes > old(self).segment_size,
        ensures
            final(self).wf(),
            *final(self) == (Slicer { max_bytes: old(self).segment_size, ..*old(self) }),
    {
        self.max_bytes = self.segment_size;
    }
}

/// A batch makes progress and stays inside the transmit, and behind it begins a segment or
/// nothing.
proof fn lemma_batch(s: Slicer)
    requires
        s.wf(),
        s.pos < s.len,
    ensures
        s.segment_size > 0,
        0 < s.batch() <= s.len - s.pos,
        s.len - s.pos > s.max_bytes ==> s.batch() % (s.segment_size as int) == 0,
        s.pos + s.batch() == s.len || (s.pos + s.batch()) % (s.segment_size as int) == 0,
        s.segment_size <= s.max_bytes ==> s.batch() <= s.max_bytes,
{
    let seg = s.segment_size as int;
    let max = s.max_bytes as int;
    let pos = s.pos as int;
    let remaining = s.len - s.pos;
    let whole = max / seg;
    vstd::arithmetic::div_mod::lemma_fundamental_div_mod(max, seg);
    vstd::arithmetic::div_mod::lemma_mod_bound(max, seg);
    vstd::arithmetic::div_mod::lemma_fundamental_div_mod(pos, seg);
    vstd::arithmetic::mul::lemma_mul_is_commutative(whole, seg);
    if remaining > max {
        if whole >= 1 {
            assert(whole * seg >= seg) by (nonlinear_arith)
                requires
                    whole >= 1,
                    seg > 0,
            ;
            vstd::arithmetic::div_mod::lemma_mod_multiples_basic(whole, seg);
            vstd::arithmetic::div_mod::lemma_mod_multiples_vanish(whole, pos, seg);
            assert((pos + whole * seg) % seg == 0);
        } else {
            assert(seg > max) by {
                if seg <= max {
                    vstd::arithmetic::div_mod::lemma_div_non_zero(max, seg);
                }
            }
            vstd::arithmetic::div_mod::lemma_mod_self_0(seg);
            vstd::arithmetic::div_mod::lemma_mod_multiples_vanish(pos / seg, remaining, seg);
            assert(s.len as int % seg == remaining % seg);
            if remaining < seg {
                vstd::arithmetic::div_mod::lemma_small_mod(remaining as nat, seg as nat);
            }
            vstd::arithmetic::div_mod::lemma_mod_multiples_vanish(1, pos, seg);
            assert((pos + seg) % seg == 0);
        }
    }
}

/// The lengths of the batches from an offset to the end.
pub open spec fn batches(s: Slicer) -> Seq<int>
    decreases s.len - s.pos,
{
    if s.pos >= s.len || s.batch() <= 0 || s.batch() > s.len - s.pos {
        Seq::empty()
    } else {
        seq![s.batch()] + batches(Slicer { pos: (s.pos + s.batch()) as usize, ..s })
    }
}

/// The total of some lengths.
pub open spec fn total(lens: Seq<int>) -> int
    decreases lens.len(),
{
    if lens.len() == 0 {
        0
    } else {
        lens[0] + total(lens.skip(1))
    }
}

/// Slicing covers exactly the whole transmit, every batch makes progress, and every batch but
/// the last consists of whole segments.
pub proof fn law_slicing_covers(s: Slicer)
    requires
        s.wf(),
    ensures
        total(batches(s)) == s.len - s.pos,
        forall|i: int| 0 <= i < batches(s).len() ==> #[trigger] batches(s)[i] > 0,
        forall|i: int|
            0 <= i < batches(s).len() - 1 ==> #[trigger] batches(s)[i] % (s.segment_size as int)
                == 0,
        s.segment_size <= s.max_bytes ==> forall|i: int|
            0 <= i < batches(s).len() ==> #[trigger] batches(s)[i] <= s.max_bytes,
    decreases s.len - s.pos,
{
    if s.pos < s.len {
        lemma_batch(s);
        let next = Slicer { pos: (s.pos + s.batch()) as usize, ..s };
        law_slicing_covers(next);
        let b = batches(s);
        let rest = batches(next);
        assert(b.skip(1) =~= rest);
        assert forall|i: int| 1 <= i < b.len() implies #[trigger] b[i] == rest[i - 1] by {}
        assert forall|i: int| 0 <= i < b.len() - 1 implies #[trigger] b[i] % (s.segment_size as int)
            == 0 by {
            if i == 0 {
                if s.len - s.pos <= s.max_bytes {
                    assert(rest =~= Seq::empty());
                }
            } else {
                assert(b[i] == rest[i - 1]);
            }
        }
    }
}

/// A transmit within the budget goes out in one batch, partial last segment and all.
pub proof fn law_single_batch(s: Slicer)
    requires
        s.wf(),
        s.pos < s.len,
        s.len - s.pos <= s.max_bytes,
    ensures
        batches(s) == seq![s.len - s.pos],
{
    let next = Slicer { pos: s.len, ..s };
    assert(batches(next) =~= Seq::empty());
    assert(batches(s) =~= seq![s.len - s.pos]);
}

/// After offload was halted every batch but the last is exactly one segment.
pub proof fn law_single_segments(s: Slicer)
    requires
        s.wf(),
        s.segment_size > 0,
        s.max_bytes == s.segment_size,
        s.pos < s.len,
    ensures
        s.len - s.pos > s.segment_size ==> s.batch() == s.segment_size,
        s.len - s.pos <= s.segment_size ==> s.batch() == s.len - s.pos,
{
    vstd::arithmetic::div_mod::lemma_div_by_self(s.segment_size as int);
}

/// Asynchronous transport-layer errors reported by the operating system.
///
/// These errors are out-of-band and do not correspond to a received packet.
#[derive(Debug, Copy, Clone)]
#[non_exhaustive]
pub struct TransportError {
    /// Address associated with the error: the remote peer or an intermediate network device
    /// that triggered the error, `None` if the kernel cannot determine the source.
    pub addr: Option<SocketAddr>,
    /// Transport-layer error details.
    pub payload: TransportErrorPayload,
    /// The raw error code from the underlying operating system.
    pub raw_errno: i32,
}

/// Transport-layer error details reported by the kernel.
#[derive(Debug, Copy, Clone)]
#[non_exhaustive]
pub enum TransportErrorPayload {
    /// Destination host or port is unreachable.
    Unreachable,
    /// Packet exceeds path MTU.
    TooBig {
        /// Recommended Maximum Transmission Unit.
        mtu: u32,
    },
    /// Other transport-layer or kernel-reported error.
    Other,
}

impl TransportError {
    /// An error as the operating system reported it.
    pub fn new(
        addr: Option<SocketAddr>,
        payload: TransportErrorPayload,
        raw_errno: i32,
    ) -> (e: TransportError)
        ensures
            e == (TransportError { addr, payload, raw_errno }),
    {
        TransportError { addr, payload, raw_errno }
    }

    /// Returns the recommended MTU for packet-too-big errors.
    pub fn mtu(&self) -> (r: Option<u32>)
        ensures
            r == (match self.payload {
                TransportErrorPayload::TooBig { mtu } => Some(mtu),
                _ => None,
            }),
    {
        match self.payload {
            TransportErrorPayload::TooBig { mtu } => Some(mtu),
            _ => None,
        }
    }
}

/// Log at most 1 I/O error per minute; this many nanoseconds.
pub const IO_ERROR_LOG_INTERVAL: u128 = 60_000_000_000;

/// Whether an error that occurs now is logged, given when one was last logged.
///
/// Errors are logged only if more than the interval has elapsed since the last one that was.
pub fn log_sendmsg_error(last_send_error: &mut Instant, now: Instant) -> (b: bool)
    ensures
        b == (now.nanos > old(last_send_error).nanos + IO_ERROR_LOG_INTERVAL),
        *final(last_send_error) == (if b {
            now
        } else {
            *old(last_send_error)
        }),
{
    if now.nanos > last_send_error.nanos && now.nanos - last_send_error.nanos
        > IO_ERROR_LOG_INTERVAL {
        *last_send_error = now;
        true
    } else {
        false
    }
}

/// The budget of a call is the largest that neither the 16-bit length of a packet, less the
/// headers that its address family may need, nor the number of segments stands against.
pub proof fn law_budget_largest(
    max_gso_segments: usize,
    segment_size: usize,
    destination: SocketAddr,
    n: int,
)
    ensures
        ({
            let headers: int = if destination is V4 {
                68
            } else {
                48
            };
            n <= batch_budget(max_gso_segments, segment_size, destination) <==> n + headers <= 65535
                && n <= max_gso_segments * segment_size
        }),
{
}

/// A batch that is not the last takes as many whole segments as the budget has room for: with one
/// more it would exceed it.
pub proof fn law_batch_filled(s: Slicer)
    requires
        s.wf(),
        s.len - s.pos > s.max_bytes,
        s.segment_size > 0,
    ensures
        s.batch() % (s.segment_size as int) == 0,
        s.batch() > 0,
        s.batch() + s.segment_size > s.max_bytes,
        s.segment_size <= s.max_bytes ==> s.batch() <= s.max_bytes,
        s.segment_size > s.max_bytes ==> s.batch() == s.segment_size,
{
    let m = s.max_bytes as int;
    let d = s.segment_size as int;
    vstd::arithmetic::div_mod::lemma_fundamental_div_mod(m, d);
    vstd::arithmetic::div_mod::lemma_mod_bound(m, d);
    vstd::arithmetic::mul::lemma_mul_is_commutative(m / d, d);
    vstd::arithmetic::div_mod::lemma_mod_multiples_basic(m / d, d);
    vstd::arithmetic::div_mod::lemma_mod_self_0(d);
    if m < d {
        vstd::arithmetic::div_mod::lemma_basic_div(m, d);
    } else {
        vstd::arithmetic::div_mod::lemma_div_non_zero(m, d);
        assert(m / d * d >= d) by (nonlinear_arith)
            requires
                m / d >= 1,
                d > 0,
        ;
    }
}

/// The datagrams of a transmit have the segment size that it names; where it names none there is
/// one datagram.
pub proof fn law_segments(t: Transmit<'_>, size: usize)
    requires
        t.contents@.len() <= usize::MAX,
    ensures
        t.segment_size == Some(size) ==> t.segment() == size,
        t.segment_size is None ==> t.segment() == t.contents@.len(),
{
}

} // verus!
