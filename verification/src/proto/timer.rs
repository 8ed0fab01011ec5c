//! Idle timeout and keep-alive scheduling.
//!
//! The effective timeout is negotiated as in QUIC: the minimum of both endpoints' nonzero
//! `max_idle_timeout`. What differs on a reliable transport is what arms the timer: receiving
//! a record always re-arms the deadline, while sending a record extends it at most once per
//! receive, so that our own keep-alive pings cannot keep a connection with an unresponsive
//! peer alive indefinitely.

use crate::time::{group_time, Duration, Instant, NANOS_PER_MILLI};
use crate::varint::{group_varint, VarInt};
use vstd::prelude::*;

verus! {

broadcast use {group_varint, group_time};

/// When a silent connection ends and when a sign of life is due.
#[derive(Debug, Clone, Copy, PartialEq, Eq, Structural)]
pub struct IdleTimer {
    /// Our `max_idle_timeout` transport parameter, in milliseconds.
    pub local: Option<VarInt>,
    /// Interval between keep-alives, if there are any.
    pub keepalive: Option<Duration>,
    /// The negotiated timeout.
    pub effective: Option<Duration>,
    /// When the connection ends.
    pub deadline: Option<Instant>,
    /// When the next keep-alive is due.
    pub keepalive_at: Option<Instant>,
    /// Whether a record was sent since one was last received.
    pub sent_since_recv: bool,
}

/// A timeout announced in milliseconds, where zero stands for none.
pub open spec fn limit(x: Option<VarInt>) -> Option<u64> {
    match x {
        Some(v) => if v.value() == 0 {
            None
        } else {
            Some(v.value())
        },
        None => None,
    }
}

/// The smaller of two limits, where either may be missing.
pub open spec fn stricter(x: Option<u64>, y: Option<u64>) -> Option<u64> {
    match (x, y) {
        (Some(x), Some(y)) => if x <= y {
            Some(x)
        } else {
            Some(y)
        },
        (Some(x), None) => Some(x),
        (None, y) => y,
    }
}

/// The timeout that both endpoints keep.
pub open spec fn negotiated(x: Option<VarInt>, y: Option<VarInt>) -> Option<Duration> {
    match stricter(limit(x), limit(y)) {
        Some(millis) => Some(Duration::of_nanos(millis as nat * NANOS_PER_MILLI as nat)),
        None => None,
    }
}

/// The point that lies an optional span after `now`.
pub open spec fn due(now: Instant, span: Option<Duration>) -> Option<Instant> {
    match span {
        Some(span) => Some(now.spec_after(span)),
        None => None,
    }
}

impl IdleTimer {
    /// A keep-alive is armed only where there is an interval.
    pub open spec fn wf(self) -> bool {
        self.keepalive_at is Some ==> self.keepalive is Some
    }

    /// The timer after it was started anew.
    pub open spec fn rearmed(self, now: Instant) -> IdleTimer {
        IdleTimer {
            deadline: due(now, self.effective),
            keepalive_at: due(now, self.keepalive),
            sent_since_recv: false,
            ..self
        }
    }

    /// The timer after a record was sent.
    pub open spec fn after_sending(self, now: Instant) -> IdleTimer {
        match self.effective {
            Some(timeout) => if self.sent_since_recv {
                self
            } else {
                IdleTimer {
                    sent_since_recv: true,
                    deadline: match self.deadline {
                        Some(deadline) => if deadline.nanos >= now.spec_after(timeout).nanos {
                            Some(deadline)
                        } else {
                            Some(now.spec_after(timeout))
                        },
                        None => Some(now.spec_after(timeout)),
                    },
                    ..self
                }
            },
            None => self,
        }
    }

    /// The timer after records were sent at the given times.
    pub open spec fn after_sending_all(self, times: Seq<Instant>) -> IdleTimer
        decreases times.len(),
    {
        if times.len() == 0 {
            self
        } else {
            self.after_sending_all(times.drop_last()).after_sending(times.last())
        }
    }

    /// A new timer before it is started.
    pub open spec fn unarmed(local: Option<VarInt>, keepalive: Option<Duration>) -> IdleTimer {
        IdleTimer {
            local,
            keepalive,
            effective: negotiated(local, None),
            deadline: None,
            keepalive_at: None,
            sent_since_recv: false,
        }
    }

    /// Whether a keep-alive is due.
    pub open spec fn keepalive_due(self, now: Instant) -> bool {
        &&& self.keepalive is Some
        &&& self.keepalive_at matches Some(at)
        &&& now.nanos >= at.nanos
    }

    /// Whether the connection has been silent for too long.
    pub open spec fn spec_expired(self, now: Instant) -> bool {
        self.deadline matches Some(deadline) && now.nanos >= deadline.nanos
    }

    /// The earlier of the two points in time.
    pub open spec fn earliest(self) -> Option<Instant> {
        match (self.deadline, self.keepalive_at) {
            (Some(deadline), Some(keepalive)) => if deadline.nanos <= keepalive.nanos {
                Some(deadline)
            } else {
                Some(keepalive)
            },
            (Some(deadline), None) => Some(deadline),
            (None, keepalive) => keepalive,
        }
    }

    /// Start a timer with our own timeout alone.
    pub fn new(local: Option<VarInt>, keepalive: Option<Duration>, now: Instant) -> (t: IdleTimer)
        requires
            now.in_range(),
        ensures
            t == IdleTimer::unarmed(local, keepalive).rearmed(now),
            t.wf(),
    {
        let mut t = IdleTimer {
            local,
            keepalive,
            effective: negotiate_max_idle_timeout(local, None),
            deadline: None,
            keepalive_at: None,
            sent_since_recv: false,
        };
        t.rearm(now);
        t
    }

    /// Apply the peer's `max_idle_timeout` parameter (0 = no limit on their side).
    pub fn set_peer_timeout(&mut self, peer: VarInt, now: Instant)
        requires
            now.in_range(),
        ensures
            *final(self) == (IdleTimer {
                effective: negotiated(old(self).local, Some(peer)),
                ..*old(self)
            }).rearmed(now),
            final(self).wf(),
    {
        self.effective = negotiate_max_idle_timeout(self.local, Some(peer));
        self.rearm(now);
    }

    /// Change the interval between keep-alives and count it from now.
    pub fn set_keepalive(&mut self, keepalive: Option<Duration>, now: Instant)
        requires
            now.in_range(),
        ensures
            *final(self) == (IdleTimer {
                keepalive,
                keepalive_at: due(now, keepalive),
                ..*old(self)
            }),
            final(self).wf(),
    {
        self.keepalive = keepalive;
        self.keepalive_at = match keepalive {
            Some(interval) => Some(now.after(interval)),
            None => None,
        };
    }

    fn rearm(&mut self, now: Instant)
        requires
            now.in_range(),
        ensures
            *final(self) == old(self).rearmed(now),
            final(self).wf(),
    {
        self.deadline = match self.effective {
            Some(timeout) => Some(now.after(timeout)),
            None => None,
        };
        self.keepalive_at = match self.keepalive {
            Some(interval) => Some(now.after(interval)),
            None => None,
        };
        self.sent_since_recv = false;
    }

    /// A record arrived.
    pub fn on_record_received(&mut self, now: Instant)
        requires
            now.in_range(),
        ensures
            *final(self) == old(self).rearmed(now),
            final(self).wf(),
    {
        self.rearm(now);
    }

    /// A record was sent.
    pub fn on_record_sent(&mut self, now: Instant)
        requires
            now.in_range(),
        ensures
            *final(self) == old(self).after_sending(now),
            old(self).wf() ==> final(self).wf(),
    {
        let timeout = match self.effective {
            Some(timeout) => timeout,
            None => return,
        };
        if !self.sent_since_recv {
            self.sent_since_recv = true;
            let later = now.after(timeout);
            let keep = match self.deadline {
                Some(deadline) => deadline.nanos >= later.nanos,
                None => false,
            };
            if !keep {
                self.deadline = Some(later);
            }
        }
    }

    /// The next instant at which the timeouts should be looked at.
    pub fn next_timeout(&self) -> (t: Option<Instant>)
        ensures
            t == self.earliest(),
    {
        match (self.deadline, self.keepalive_at) {
            (Some(deadline), Some(keepalive)) => if deadline.nanos <= keepalive.nanos {
                Some(deadline)
            } else {
                Some(keepalive)
            },
            (Some(deadline), None) => Some(deadline),
            (None, keepalive) => keepalive,
        }
    }

    /// Whether the connection has been idle past the effective timeout.
    pub fn is_expired(&self, now: Instant) -> (b: bool)
        ensures
            b == self.spec_expired(now),
    {
        match self.deadline {
            Some(deadline) => now.nanos >= deadline.nanos,
            None => false,
        }
    }

    /// Whether a keep-alive ping is due; re-arms the keep-alive interval when it is.
    pub fn poll_keepalive(&mut self, now: Instant) -> (b: bool)
        requires
            now.in_range(),
        ensures
            b == old(self).keepalive_due(now),
            *final(self) == (if b {
                IdleTimer { keepalive_at: due(now, old(self).keepalive), ..*old(self) }
            } else {
                *old(self)
            }),
            old(self).wf() ==> final(self).wf(),
    {
        match (self.keepalive_at, self.keepalive) {
            (Some(at), Some(interval)) => {
                if now.nanos < at.nanos {
                    return false;
                }
                self.keepalive_at = Some(now.after(interval));
                true
            },
            _ => false,
        }
    }
}

/// The timeout that both endpoints keep: the minimum of those that are set and not zero.
pub fn negotiate_max_idle_timeout(x: Option<VarInt>, y: Option<VarInt>) -> (d: Option<Duration>)
    ensures
        d == negotiated(x, y),
{
    let x: u64 = match x {
        Some(v) => v.into_inner(),
        None => 0,
    };
    let y: u64 = match y {
        Some(v) => v.into_inner(),
        None => 0,
    };
    if x == 0 && y == 0 {
        None
    } else if x == 0 || (y != 0 && y < x) {
        Some(Duration::from_millis(y))
    } else {
        Some(Duration::from_millis(x))
    }
}

/// The next timeout is the earliest instant with work to do: before it the connection has not
/// expired and no keep-alive is due, at it one of them is the case, and there is none exactly
/// where neither is armed.
pub proof fn law_next_timeout_is_earliest(t: IdleTimer, now: Instant)
    requires
        t.wf(),
    ensures
        t.earliest() is None <==> t.deadline is None && t.keepalive_at is None,
        t.earliest() matches Some(at) ==> {
            &&& now.nanos < at.nanos ==> !t.spec_expired(now) && !t.keepalive_due(now)
            &&& now.nanos == at.nanos ==> t.spec_expired(now) || t.keepalive_due(now)
        },
        t.earliest() is None ==> !t.spec_expired(now) && !t.keepalive_due(now),
{
}

/// Both endpoints arrive at the same timeout, and it exceeds neither of their limits.
pub proof fn law_negotiation(x: VarInt, y: VarInt)
    ensures
        negotiated(Some(x), Some(y)) == negotiated(Some(y), Some(x)),
        x.value() > 0 ==> (negotiated(Some(x), Some(y)) matches Some(d) && d.spec_nanos()
            <= x.value() * NANOS_PER_MILLI),
{
    let millis = stricter(limit(Some(x)), limit(Some(y)));
    if let Some(m) = millis {
        assert(m * NANOS_PER_MILLI < crate::time::SPAN_BOUND) by (nonlinear_arith)
            requires
                m <= u64::MAX,
        ;
        if x.value() > 0 {
            assert(m * NANOS_PER_MILLI <= x.value() * NANOS_PER_MILLI) by (nonlinear_arith)
                requires
                    m <= x.value(),
            ;
        }
    }
}

/// Sending extends the deadline at most once until the next record is received, however often
/// and whenever records are sent.
pub proof fn law_sending_extends_once(t: IdleTimer, times: Seq<Instant>)
    requires
        times.len() > 0,
    ensures
        t.after_sending_all(times) == t.after_sending(times[0]),
    decreases times.len(),
{
    let init = times.drop_last();
    if init.len() > 0 {
        law_sending_extends_once(t, init);
        assert(init[0] == times[0]);
    } else {
        assert(t.after_sending_all(init) == t);
    }
}

/// A connection whose peer stays silent ends: whatever is sent after a record was received,
/// the deadline lies no later than the timeout after the first of the sends.
pub proof fn law_silent_peer_times_out(
    t: IdleTimer,
    received: Instant,
    times: Seq<Instant>,
    now: Instant,
    timeout: Duration,
)
    requires
        t.effective == Some(timeout),
        received.in_range(),
        times.len() > 0,
        times[0].in_range(),
        received.nanos <= times[0].nanos,
        now.nanos >= times[0].nanos + timeout.spec_nanos(),
        timeout.spec_nanos() < crate::time::SPAN_BOUND,
    ensures
        t.rearmed(received).after_sending_all(times).spec_expired(now),
{
    law_sending_extends_once(t.rearmed(received), times);
}

/// Receiving a record grants the full timeout anew.
pub proof fn law_receiving_rearms(t: IdleTimer, now: Instant, timeout: Duration, at: Instant)
    requires
        t.effective == Some(timeout),
        now.in_range(),
        at.nanos < now.nanos + timeout.spec_nanos(),
        timeout.spec_nanos() < crate::time::SPAN_BOUND,
    ensures
        !t.rearmed(now).spec_expired(at),
        !t.rearmed(now).after_sending(now).spec_expired(at),
{
}

} // verus!
