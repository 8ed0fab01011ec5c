//! What the driver of a connection does next.
//!
//! A single task owns the transport: it writes out records, feeds received octets to the
//! connection and services timeouts. When the connection ends it flushes a last record, shuts
//! its sending side down and drains the peer briefly, so that the peer's close isn't met with
//! a connection reset.

use vstd::prelude::*;

verus! {

/// Where a driver is.
#[derive(Debug, Clone, Copy, PartialEq, Eq, Structural)]
pub enum Stage {
    /// It asks the connection for records.
    Flushing,
    /// It writes a record.
    Writing,
    /// It waits for octets, a timeout or a notification.
    Waiting,
    /// It asks the connection for a last record.
    FlushingLast,
    /// It writes the last record.
    WritingLast,
    /// It shuts the sending side of the transport down.
    ShuttingDown,
    /// It drains the peer.
    Draining,
    /// It is done.
    Finished,
}

/// What happened.
#[derive(Debug, Clone, Copy, PartialEq, Eq, Structural)]
pub enum Occurrence {
    /// The connection was asked for a record.
    Polled {
        /// Whether there is one.
        record: bool,
        /// Whether the connection has ended.
        closed: bool,
    },
    /// A record was written.
    Written {
        /// Whether that succeeded.
        ok: bool,
    },
    /// Octets were received.
    Data,
    /// The transport reached its end.
    Eof,
    /// Reading from the transport failed.
    ReadFailed,
    /// A timeout passed.
    Timer,
    /// The application changed the connection.
    Notified,
    /// Shutting down or draining is over, whether or not it succeeded.
    Over,
}

/// What to do.
#[derive(Debug, Clone, Copy, PartialEq, Eq, Structural)]
pub enum Action {
    /// Ask the connection for a record.
    PollTransmit,
    /// Write the record.
    WriteRecord,
    /// Wait for octets, a timeout or a notification.
    Wait,
    /// Hand the octets to the connection, then ask it for a record. A protocol error still
    /// leaves a close to be flushed.
    HandleInput,
    /// Let the connection look at its timeouts, then ask it for a record.
    HandleTimeout,
    /// Tell the connection that the transport closed, then ask it for a record.
    CloseTransport,
    /// Shut the sending side of the transport down.
    Shutdown,
    /// Read and discard for a while.
    Drain,
    /// Stop.
    Stop,
}

/// Whether an occurrence is possible at a stage.
pub open spec fn possible(stage: Stage, o: Occurrence) -> bool {
    match stage {
        Stage::Flushing => o is Polled,
        Stage::Writing => o is Written,
        Stage::Waiting => o is Data || o is Eof || o is ReadFailed || o is Timer || o is Notified,
        Stage::FlushingLast => o is Polled,
        Stage::WritingLast => o is Written,
        Stage::ShuttingDown => o is Over,
        Stage::Draining => o is Over,
        Stage::Finished => false,
    }
}

/// Where the driver is after an occurrence.
pub open spec fn next_stage(stage: Stage, o: Occurrence) -> Stage {
    match (stage, o) {
        (Stage::Flushing, Occurrence::Polled { record, closed }) => if record {
            Stage::Writing
        } else if closed {
            Stage::FlushingLast
        } else {
            Stage::Waiting
        },
        (Stage::Writing, Occurrence::Written { ok }) => if ok {
            Stage::Flushing
        } else {
            Stage::FlushingLast
        },
        (Stage::Waiting, Occurrence::Eof) => Stage::FlushingLast,
        (Stage::Waiting, Occurrence::ReadFailed) => Stage::FlushingLast,
        (Stage::Waiting, _) => Stage::Flushing,
        (Stage::FlushingLast, Occurrence::Polled { record, .. }) => if record {
            Stage::WritingLast
        } else {
            Stage::ShuttingDown
        },
        (Stage::WritingLast, _) => Stage::ShuttingDown,
        (Stage::ShuttingDown, _) => Stage::Draining,
        _ => Stage::Finished,
    }
}

/// What the driver does after an occurrence.
pub open spec fn next_action(stage: Stage, o: Occurrence) -> Action {
    match (stage, o) {
        (Stage::Writing, Occurrence::Written { ok: false }) => Action::CloseTransport,
        (Stage::Waiting, Occurrence::Data) => Action::HandleInput,
        (Stage::Waiting, Occurrence::Eof) => Action::CloseTransport,
        (Stage::Waiting, Occurrence::ReadFailed) => Action::CloseTransport,
        (Stage::Waiting, Occurrence::Timer) => Action::HandleTimeout,
        _ => match next_stage(stage, o) {
            Stage::Flushing => Action::PollTransmit,
            Stage::Writing => Action::WriteRecord,
            Stage::Waiting => Action::Wait,
            Stage::FlushingLast => Action::PollTransmit,
            Stage::WritingLast => Action::WriteRecord,
            Stage::ShuttingDown => Action::Shutdown,
            Stage::Draining => Action::Drain,
            Stage::Finished => Action::Stop,
        },
    }
}

/// The driver of a connection.
#[derive(Debug)]
pub struct Driver {
    stage: Stage,
}

impl View for Driver {
    type V = Stage;

    closed spec fn view(&self) -> Stage {
        self.stage
    }
}

impl Driver {
    /// A driver that begins by asking the connection for a record.
    pub fn new() -> (r: (Driver, Action))
        ensures
            r.0@ == Stage::Flushing,
            r.1 == Action::PollTransmit,
    {
        (Driver { stage: Stage::Flushing }, Action::PollTransmit)
    }

    /// Where the driver is.
    pub fn stage(&self) -> (stage: Stage)
        ensures
            stage == self@,
    {
        self.stage
    }

    /// Decide what to do after an occurrence that is possible at this stage.
    pub fn step(&mut self, o: Occurrence) -> (action: Action)
        requires
            possible(old(self)@, o),
        ensures
            final(self)@ == next_stage(old(self)@, o),
            action == next_action(old(self)@, o),
    {
        let (stage, action) = match (self.stage, o) {
            (Stage::Flushing, Occurrence::Polled { record, closed }) => if record {
                (Stage::Writing, Action::WriteRecord)
            } else if closed {
                (Stage::FlushingLast, Action::PollTransmit)
            } else {
                (Stage::Waiting, Action::Wait)
            },
            (Stage::Writing, Occurrence::Written { ok }) => if ok {
                (Stage::Flushing, Action::PollTransmit)
            } else {
                (Stage::FlushingLast, Action::CloseTransport)
            },
            (Stage::Waiting, Occurrence::Data) => (Stage::Flushing, Action::HandleInput),
            // Peer EOF: graceful only after a close frame was exchanged
            (Stage::Waiting, Occurrence::Eof) => (Stage::FlushingLast, Action::CloseTransport),
            (Stage::Waiting, Occurrence::ReadFailed) => {
                (Stage::FlushingLast, Action::CloseTransport)
            },
            (Stage::Waiting, Occurrence::Timer) => (Stage::Flushing, Action::HandleTimeout),
            (Stage::Waiting, _) => (Stage::Flushing, Action::PollTransmit),
            (Stage::FlushingLast, Occurrence::Polled { record, .. }) => if record {
                (Stage::WritingLast, Action::WriteRecord)
            } else {
                (Stage::ShuttingDown, Action::Shutdown)
            },
            (Stage::WritingLast, _) => (Stage::ShuttingDown, Action::Shutdown),
            (Stage::ShuttingDown, _) => (Stage::Draining, Action::Drain),
            _ => (Stage::Finished, Action::Stop),
        };
        self.stage = stage;
        action
    }
}

/// How many steps remain after the driver began to end; the same for all that it does before.
pub open spec fn steps_to_end(stage: Stage) -> nat {
    match stage {
        Stage::FlushingLast => 4,
        Stage::WritingLast => 3,
        Stage::ShuttingDown => 2,
        Stage::Draining => 1,
        Stage::Finished => 0,
        _ => 5,
    }
}

/// Once the connection ended or the transport failed, the driver comes to its end within a
/// bounded number of steps and does not turn back.
pub proof fn law_driver_ends(stage: Stage, o: Occurrence)
    requires
        possible(stage, o),
        steps_to_end(stage) <= 4,
    ensures
        steps_to_end(next_stage(stage, o)) < steps_to_end(stage),
{
}

/// The sending side is shut down only after the connection was asked for a last record, and
/// where there was one after it was written.
pub proof fn law_last_record_before_shutdown(stage: Stage, o: Occurrence)
    requires
        possible(stage, o),
    ensures
        next_action(stage, o) == Action::Shutdown <==> {
            ||| stage == Stage::WritingLast
            ||| stage == Stage::FlushingLast && (o matches Occurrence::Polled { record, .. }
                && !record)
        },
        stage == Stage::FlushingLast && (o matches Occurrence::Polled { record, .. } && record)
            ==> next_action(stage, o) == Action::WriteRecord,
{
}

/// The driver waits only when the connection has nothing to send and has not ended.
pub proof fn law_waits_only_when_flushed(stage: Stage, o: Occurrence)
    requires
        possible(stage, o),
    ensures
        next_action(stage, o) == Action::Wait <==> stage == Stage::Flushing && o
            == (Occurrence::Polled { record: false, closed: false }),
{
}

/// The connection is told that the transport closed exactly where a write failed, or a read
/// failed or met the end.
pub proof fn law_transport_failure_reported(stage: Stage, o: Occurrence)
    requires
        possible(stage, o),
    ensures
        next_action(stage, o) == Action::CloseTransport <==> {
            ||| stage == Stage::Writing && o == (Occurrence::Written { ok: false })
            ||| o is Eof
            ||| o is ReadFailed
        },
{
}

/// The driver does with each occurrence what it calls for: octets and timeouts are handed to the
/// connection, records are written, a notification or a written record makes it ask for the next
/// record, and so does the end of the connection when nothing is left to send; after the sending
/// side was shut down it drains, and then it stops.
pub proof fn law_occurrences_handled(stage: Stage, o: Occurrence)
    requires
        possible(stage, o),
    ensures
        ({
            let a = next_action(stage, o);
            let flushed = o matches Occurrence::Polled { record, .. } && !record;
            let ended = o matches Occurrence::Polled { closed, .. } && closed;
            let written = o matches Occurrence::Written { ok } && ok;
            &&& a == Action::HandleInput <==> o is Data
            &&& a == Action::HandleTimeout <==> o is Timer
            &&& a == Action::WriteRecord <==> o is Polled && !flushed
            &&& a == Action::PollTransmit <==> {
                ||| o is Notified
                ||| stage == Stage::Writing && written
                ||| stage == Stage::Flushing && flushed && ended
            }
            &&& a == Action::Drain <==> stage == Stage::ShuttingDown
            &&& a == Action::Stop <==> stage == Stage::Draining
        }),
{
}

/// After each action the driver is where the action leaves it, and it is on its last record exactly
/// once the connection ended with nothing left to send, or the transport failed or met its end.
pub proof fn law_stages_follow(stage: Stage, o: Occurrence)
    requires
        possible(stage, o),
    ensures
        ({
            let a = next_action(stage, o);
            let next = next_stage(stage, o);
            let last = stage == Stage::FlushingLast || stage == Stage::WritingLast;
            let failed = o is Eof || o is ReadFailed || (o matches Occurrence::Written { ok } && !ok);
            let ended = o matches Occurrence::Polled { record, closed } && !record && closed;
            &&& a == Action::WriteRecord ==> next == (if last {
                Stage::WritingLast
            } else {
                Stage::Writing
            })
            &&& a == Action::Wait ==> next == Stage::Waiting
            &&& a == Action::HandleInput || a == Action::HandleTimeout ==> next == Stage::Flushing
            &&& a == Action::CloseTransport ==> next == Stage::FlushingLast
            &&& a == Action::PollTransmit ==> next == Stage::Flushing || next == Stage::FlushingLast
            &&& next == Stage::FlushingLast <==> !last && (failed || ended)
            &&& a == Action::Shutdown ==> next == Stage::ShuttingDown
            &&& a == Action::Drain ==> next == Stage::Draining
            &&& a == Action::Stop ==> next == Stage::Finished
        }),
{
}

} // verus!
