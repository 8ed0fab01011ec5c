//! How operations on the halves of a stream end.
//!
//! A half keeps track of whether its stream has ended: a sending half that is dropped before
//! it was finished or reset is reset, and a receiving half that is dropped before its end was
//! seen asks the peer to stop, both with error code 0.

use crate::buffer::append;
use crate::proto::event::{description, ConnectionError, Reason};
use crate::stream_id::StreamId;
use crate::text::{decimal, numeral};
use crate::varint::{group_varint, VarInt};
use bytes::Bytes;
use vstd::prelude::*;
use vstd::string::*;

verus! {

broadcast use group_varint;

/// Errors from writing to a stream.
#[derive(Debug, Clone, PartialEq, Eq)]
pub enum WriteError<R = String, B = Bytes> {
    /// The peer stopped accepting data on this stream.
    Stopped(VarInt),
    /// The connection was lost.
    ConnectionLost(ConnectionError<R, B>),
    /// The stream was already finished or reset.
    ClosedStream,
}

/// Errors from reading from a stream.
#[derive(Debug, Clone, PartialEq, Eq)]
pub enum ReadError<R = String, B = Bytes> {
    /// The peer abandoned the stream.
    Reset(VarInt),
    /// The connection was lost.
    ConnectionLost(ConnectionError<R, B>),
    /// The stream was already stopped or its end already read.
    ClosedStream,
}

/// Why the stream state machine did not take data.
#[derive(Debug, Clone, Copy, PartialEq, Eq, Structural)]
pub enum WriteFailure {
    /// Flow control or the send window leaves no room.
    Blocked,
    /// The peer stopped accepting data.
    Stopped(VarInt),
    /// The stream was finished or reset.
    ClosedStream,
}

/// Why the stream state machine could not finish a stream.
#[derive(Debug, Clone, Copy, PartialEq, Eq, Structural)]
pub enum FinishFailure {
    /// The peer stopped accepting data.
    Stopped(VarInt),
    /// The stream was finished or reset.
    ClosedStream,
}

/// What the stream state machine had to read.
#[derive(Debug)]
pub enum ReadOutcome<C> {
    /// The stream was stopped or read to its end before.
    Closed,
    /// Data.
    Chunk(C),
    /// The end of the stream.
    End,
    /// Nothing yet.
    Blocked,
    /// The peer abandoned the stream.
    Reset(VarInt),
}

/// How far an operation got.
#[derive(Debug)]
pub enum Progress<T, E> {
    /// It is over.
    Ready(Result<T, E>),
    /// It has to wait until the stream becomes ready.
    Pending,
}

impl View for WriteError<String, Bytes> {
    type V = WriteError<Seq<char>, Seq<u8>>;

    open spec fn view(&self) -> WriteError<Seq<char>, Seq<u8>> {
        match *self {
            WriteError::Stopped(code) => WriteError::Stopped(code),
            WriteError::ConnectionLost(e) => WriteError::ConnectionLost(e@),
            WriteError::ClosedStream => WriteError::ClosedStream,
        }
    }
}

impl View for ReadError<String, Bytes> {
    type V = ReadError<Seq<char>, Seq<u8>>;

    open spec fn view(&self) -> ReadError<Seq<char>, Seq<u8>> {
        match *self {
            ReadError::Reset(code) => ReadError::Reset(code),
            ReadError::ConnectionLost(e) => ReadError::ConnectionLost(e@),
            ReadError::ClosedStream => ReadError::ClosedStream,
        }
    }
}

impl WriteError<String, Bytes> {
    /// Message for humans.
    pub fn message(&self) -> (s: String)
        ensures
            s@ == (match self@ {
                WriteError::Stopped(code) => "stream stopped by peer: code "@ + numeral(
                    code.value() as nat,
                    10,
                ),
                WriteError::ConnectionLost(e) => "connection lost: "@ + description(e),
                WriteError::ClosedStream => "closed stream"@,
            }),
    {
        match self {
            WriteError::Stopped(code) => {
                let mut s = "stream stopped by peer: code ".to_owned();
                s.append(decimal(code.into_inner()).as_str());
                s
            },
            WriteError::ConnectionLost(e) => {
                let mut s = "connection lost: ".to_owned();
                s.append(e.message().as_str());
                s
            },
            WriteError::ClosedStream => "closed stream".to_owned(),
        }
    }
}

impl ReadError<String, Bytes> {
    /// Message for humans.
    pub fn message(&self) -> (s: String)
        ensures
            s@ == (match self@ {
                ReadError::Reset(code) => "stream reset by peer: code "@ + numeral(
                    code.value() as nat,
                    10,
                ),
                ReadError::ConnectionLost(e) => "connection lost: "@ + description(e),
                ReadError::ClosedStream => "closed stream"@,
            }),
    {
        match self {
            ReadError::Reset(code) => {
                let mut s = "stream reset by peer: code ".to_owned();
                s.append(decimal(code.into_inner()).as_str());
                s
            },
            ReadError::ConnectionLost(e) => {
                let mut s = "connection lost: ".to_owned();
                s.append(e.message().as_str());
                s
            },
            ReadError::ClosedStream => "closed stream".to_owned(),
        }
    }
}

/// The reason that a connection ended for, over plain sequences.
pub open spec fn reason_of(lost: Option<ConnectionError>) -> Option<Reason> {
    match lost {
        Some(e) => Some(e@),
        None => None,
    }
}

/// The sending half of a stream.
#[derive(Debug)]
pub struct SendHalf {
    id: StreamId,
    finished: bool,
}

/// The state of a sending half.
pub struct SendState {
    /// The stream.
    pub id: StreamId,
    /// Whether it was finished or reset.
    pub finished: bool,
}

impl View for SendHalf {
    type V = SendState;

    closed spec fn view(&self) -> SendState {
        SendState { id: self.id, finished: self.finished }
    }
}

impl SendHalf {
    /// The sending half of a stream that was just opened or accepted.
    pub fn new(id: StreamId) -> (h: SendHalf)
        ensures
            h@ == (SendState { id, finished: false }),
    {
        SendHalf { id, finished: false }
    }

    /// This stream's identifier.
    pub fn id(&self) -> (id: StreamId)
        ensures
            id == self@.id,
    {
        self.id
    }

    /// Why data is not even offered to the stream state machine: the connection was lost, or
    /// the peer stopped the stream. A stop is an error rather than silently discarded data.
    pub fn before_write(lost: Option<ConnectionError>, stopped: Option<VarInt>) -> (r: Option<
        WriteError,
    >)
        ensures
            match reason_of(lost) {
                Some(reason) => r is Some && r->0@ == WriteError::<
                    Seq<char>,
                    Seq<u8>,
                >::ConnectionLost(reason),
                None => match stopped {
                    Some(code) => r is Some && r->0@ == WriteError::<Seq<char>, Seq<u8>>::Stopped(
                        code,
                    ),
                    None => r is None,
                },
            },
    {
        match lost {
            Some(reason) => Some(WriteError::ConnectionLost(reason)),
            None => match stopped {
                Some(code) => Some(WriteError::Stopped(code)),
                None => None,
            },
        }
    }

    /// How a write ends, given what the stream state machine said.
    pub fn after_write(result: Result<usize, WriteFailure>) -> (p: Progress<usize, WriteError>)
        ensures
            match result {
                Ok(n) => p matches Progress::Ready(Ok(m)) && m == n,
                Err(WriteFailure::Blocked) => p is Pending,
                Err(WriteFailure::Stopped(code)) => p matches Progress::Ready(Err(e)) && e@
                    == WriteError::<Seq<char>, Seq<u8>>::Stopped(code),
                Err(WriteFailure::ClosedStream) => p matches Progress::Ready(Err(e)) && e@
                    == WriteError::<Seq<char>, Seq<u8>>::ClosedStream,
            },
    {
        match result {
            Ok(n) => Progress::Ready(Ok(n)),
            Err(WriteFailure::Blocked) => Progress::Pending,
            Err(WriteFailure::Stopped(code)) => Progress::Ready(Err(WriteError::Stopped(code))),
            Err(WriteFailure::ClosedStream) => Progress::Ready(Err(WriteError::ClosedStream)),
        }
    }

    /// The stream state machine was asked to finish the stream.
    pub fn finish(&mut self, result: Result<(), FinishFailure>) -> (r: Result<(), WriteError>)
        ensures
            match result {
                Ok(()) => r is Ok && final(self)@ == (SendState { finished: true, ..old(self)@ }),
                Err(FinishFailure::Stopped(code)) => r is Err && r->Err_0@ == WriteError::<
                    Seq<char>,
                    Seq<u8>,
                >::Stopped(code) && final(self)@ == old(self)@,
                Err(FinishFailure::ClosedStream) => r is Err && r->Err_0@ == WriteError::<
                    Seq<char>,
                    Seq<u8>,
                >::ClosedStream && final(self)@ == old(self)@,
            },
    {
        match result {
            Ok(()) => {
                self.finished = true;
                Ok(())
            },
            Err(FinishFailure::Stopped(code)) => Err(WriteError::Stopped(code)),
            Err(FinishFailure::ClosedStream) => Err(WriteError::ClosedStream),
        }
    }

    /// The stream state machine was asked to reset the stream.
    pub fn reset(&mut self, done: bool) -> (r: Result<(), WriteError>)
        ensures
            if done {
                r is Ok && final(self)@ == (SendState { finished: true, ..old(self)@ })
            } else {
                r is Err && r->Err_0@ == WriteError::<Seq<char>, Seq<u8>>::ClosedStream && final(self)@ == old(self)@
            },
    {
        if done {
            self.finished = true;
            Ok(())
        } else {
            Err(WriteError::ClosedStream)
        }
    }

    /// The code to reset the stream with when the half is dropped, if it is to be reset.
    pub fn on_drop(&self) -> (code: Option<VarInt>)
        ensures
            code == (if self@.finished {
                None
            } else {
                Some(VarInt::of(0))
            }),
    {
        if self.finished {
            None
        } else {
            Some(VarInt::from_u32(0))
        }
    }
}

/// The receiving half of a stream.
#[derive(Debug)]
pub struct RecvHalf {
    id: StreamId,
    ended: bool,
}

/// The state of a receiving half.
pub struct RecvState {
    /// The stream.
    pub id: StreamId,
    /// Whether its end (the last data, a reset, or a stop) has been observed.
    pub ended: bool,
}

impl View for RecvHalf {
    type V = RecvState;

    closed spec fn view(&self) -> RecvState {
        RecvState { id: self.id, ended: self.ended }
    }
}

/// How a read ends, given what the stream state machine had.
pub open spec fn read_progress<C>(outcome: ReadOutcome<C>) -> Progress<
    Option<C>,
    ReadError<Seq<char>, Seq<u8>>,
> {
    match outcome {
        ReadOutcome::Closed => Progress::Ready(Err(ReadError::ClosedStream)),
        ReadOutcome::Chunk(chunk) => Progress::Ready(Ok(Some(chunk))),
        ReadOutcome::End => Progress::Ready(Ok(None)),
        ReadOutcome::Blocked => Progress::Pending,
        ReadOutcome::Reset(code) => Progress::Ready(Err(ReadError::Reset(code))),
    }
}

/// Whether the end of the stream was observed with an outcome.
pub open spec fn observes_end<C>(outcome: ReadOutcome<C>) -> bool {
    outcome is Closed || outcome is End || outcome is Reset
}

impl RecvHalf {
    /// The receiving half of a stream that was just opened or accepted.
    pub fn new(id: StreamId) -> (h: RecvHalf)
        ensures
            h@ == (RecvState { id, ended: false }),
    {
        RecvHalf { id, ended: false }
    }

    /// This stream's identifier.
    pub fn id(&self) -> (id: StreamId)
        ensures
            id == self@.id,
    {
        self.id
    }

    /// Why the stream state machine is not even asked for data: the end was seen before, or
    /// the connection was lost.
    pub fn before_read(&self, lost: Option<ConnectionError>) -> (r: Option<ReadError>)
        ensures
            if self@.ended {
                r is Some && r->0@ == ReadError::<Seq<char>, Seq<u8>>::ClosedStream
            } else {
                match reason_of(lost) {
                    Some(reason) => r is Some && r->0@ == ReadError::<
                        Seq<char>,
                        Seq<u8>,
                    >::ConnectionLost(reason),
                    None => r is None,
                }
            },
    {
        if self.ended {
            return Some(ReadError::ClosedStream);
        }
        match lost {
            Some(reason) => Some(ReadError::ConnectionLost(reason)),
            None => None,
        }
    }

    /// How a read ends, given what the stream state machine had.
    pub fn after_read<C>(&mut self, outcome: ReadOutcome<C>) -> (p: Progress<Option<C>, ReadError>)
        ensures
            match read_progress(outcome) {
                Progress::Ready(Ok(chunk)) => p matches Progress::Ready(Ok(c)) && c == chunk,
                Progress::Ready(Err(e)) => p matches Progress::Ready(Err(x)) && x@ == e,
                Progress::Pending => p is Pending,
            },
            final(self)@ == (RecvState {
                ended: old(self)@.ended || observes_end(outcome),
                ..old(self)@
            }),
    {
        match outcome {
            ReadOutcome::Closed => {
                self.ended = true;
                Progress::Ready(Err(ReadError::ClosedStream))
            },
            ReadOutcome::Chunk(chunk) => Progress::Ready(Ok(Some(chunk))),
            ReadOutcome::End => {
                self.ended = true;
                Progress::Ready(Ok(None))
            },
            ReadOutcome::Blocked => Progress::Pending,
            ReadOutcome::Reset(code) => {
                self.ended = true;
                Progress::Ready(Err(ReadError::Reset(code)))
            },
        }
    }

    /// Whether the driver is notified after a read: when the stream state machine has credit
    /// to announce, and when anything but waiting came of it.
    pub fn notifies_driver<C>(should_transmit: bool, p: &Progress<Option<C>, ReadError>) -> (b: bool)
        ensures
            b == (should_transmit || p is Ready),
    {
        should_transmit || match p {
            Progress::Ready(_) => true,
            Progress::Pending => false,
        }
    }

    /// Why the stream state machine is not even asked to stop the stream.
    pub fn before_stop(lost: Option<ConnectionError>) -> (r: Option<ReadError>)
        ensures
            match reason_of(lost) {
                Some(reason) => r is Some && r->0@ == ReadError::<
                    Seq<char>,
                    Seq<u8>,
                >::ConnectionLost(reason),
                None => r is None,
            },
    {
        match lost {
            Some(reason) => Some(ReadError::ConnectionLost(reason)),
            None => None,
        }
    }

    /// The stream state machine was asked to stop the stream.
    pub fn stop(&mut self, done: bool) -> (r: Result<(), ReadError>)
        ensures
            if done {
                r is Ok && final(self)@ == (RecvState { ended: true, ..old(self)@ })
            } else {
                r is Err && r->Err_0@ == ReadError::<Seq<char>, Seq<u8>>::ClosedStream && final(self)@ == old(self)@
            },
    {
        if done {
            self.ended = true;
            Ok(())
        } else {
            Err(ReadError::ClosedStream)
        }
    }

    /// The code to stop the stream with when the half is dropped, if it is to be stopped.
    pub fn on_drop(&self) -> (code: Option<VarInt>)
        ensures
            code == (if self@.ended {
                None
            } else {
                Some(VarInt::of(0))
            }),
    {
        if self.ended {
            None
        } else {
            Some(VarInt::from_u32(0))
        }
    }
}

/// What is buffered after a chunk arrived, or `None` where it exceeds the limit.
pub open spec fn pushed(limit: nat, buffered: Seq<u8>, chunk: Seq<u8>) -> Option<Seq<u8>> {
    if buffered.len() + chunk.len() > limit {
        None
    } else {
        Some(buffered + chunk)
    }
}

/// What is buffered after the chunks arrived one by one, or `None` where one exceeds the limit.
pub open spec fn all_pushed(limit: nat, buffered: Seq<u8>, chunks: Seq<Seq<u8>>) -> Option<Seq<u8>>
    decreases chunks.len(),
{
    if chunks.len() == 0 {
        Some(buffered)
    } else {
        match pushed(limit, buffered, chunks[0]) {
            Some(data) => all_pushed(limit, data, chunks.skip(1)),
            None => None,
        }
    }
}

/// The chunks one after the other.
pub open spec fn joined(chunks: Seq<Seq<u8>>) -> Seq<u8>
    decreases chunks.len(),
{
    if chunks.len() == 0 {
        Seq::empty()
    } else {
        chunks[0] + joined(chunks.skip(1))
    }
}

/// The remainder of a stream while it is buffered.
#[derive(Debug)]
pub struct ReadToEnd {
    size_limit: usize,
    data: Vec<u8>,
}

impl ReadToEnd {
    /// Most octets that are buffered.
    pub closed spec fn limit(self) -> nat {
        self.size_limit as nat
    }

    /// The data so far.
    pub closed spec fn buffered(self) -> Seq<u8> {
        self.data@
    }

    /// No more is buffered than allowed.
    pub open spec fn wf(self) -> bool {
        self.buffered().len() <= self.limit()
    }

    /// Nothing was read yet.
    pub fn new(size_limit: usize) -> (b: ReadToEnd)
        ensures
            b.wf(),
            b.limit() == size_limit,
            b.buffered() == Seq::<u8>::empty(),
    {
        ReadToEnd { size_limit, data: Vec::new() }
    }

    /// How much may still be read.
    pub fn room(&self) -> (n: usize)
        requires
            self.wf(),
        ensures
            n == self.limit() - self.buffered().len(),
    {
        self.size_limit - self.data.len()
    }

    /// How much to ask for: one octet more than may be buffered, so that a stream that exceeds
    /// the limit shows it. There is always something to ask for.
    pub fn request(&self) -> (n: usize)
        requires
            self.wf(),
        ensures
            n == (if self.limit() - self.buffered().len() < usize::MAX {
                self.limit() - self.buffered().len() + 1
            } else {
                usize::MAX as int
            }),
            n > 0,
    {
        self.room().saturating_add(1)
    }

    /// Take a chunk, unless it exceeds the limit.
    pub fn push(&mut self, chunk: &[u8]) -> (r: Result<(), ReadError>)
        requires
            old(self).wf(),
        ensures
            final(self).wf(),
            final(self).limit() == old(self).limit(),
            match pushed(old(self).limit(), old(self).buffered(), chunk@) {
                Some(data) => r is Ok && final(self).buffered() == data,
                None => r is Err && r->Err_0@ == ReadError::<Seq<char>, Seq<u8>>::ClosedStream
                    && final(self).buffered() == old(self).buffered(),
            },
    {
        if chunk.len() > self.size_limit - self.data.len() {
            return Err(ReadError::ClosedStream);
        }
        append(&mut self.data, chunk);
        Ok(())
    }

    /// All the data.
    pub fn finish(self) -> (data: Vec<u8>)
        ensures
            data@ == self.buffered(),
    {
        self.data
    }
}

proof fn lemma_chunks_joined(limit: nat, buffered: Seq<u8>, chunks: Seq<Seq<u8>>)
    requires
        buffered.len() <= limit,
    ensures
        all_pushed(limit, buffered, chunks) == (if buffered.len() + joined(chunks).len() > limit {
            None
        } else {
            Some(buffered + joined(chunks))
        }),
    decreases chunks.len(),
{
    if chunks.len() == 0 {
        assert(buffered + joined(chunks) =~= buffered);
    } else {
        if let Some(data) = pushed(limit, buffered, chunks[0]) {
            lemma_chunks_joined(limit, data, chunks.skip(1));
            assert(data + joined(chunks.skip(1)) =~= buffered + joined(chunks));
        }
    }
}

/// Buffering the rest of a stream fails exactly where it exceeds the limit, in whatever chunks
/// it arrives; otherwise all of it is buffered, in order.
pub proof fn law_read_to_end(limit: nat, chunks: Seq<Seq<u8>>, rest: Seq<u8>)
    requires
        joined(chunks) == rest,
    ensures
        all_pushed(limit, Seq::empty(), chunks) == (if rest.len() > limit {
            None
        } else {
            Some(rest)
        }),
{
    lemma_chunks_joined(limit, Seq::empty(), chunks);
    assert(Seq::<u8>::empty() + rest =~= rest);
}

/// How much a read yields of `left` octets when up to `asked` are asked for: what `pick` says,
/// but something, and no more than there is or than was asked for.
pub open spec fn yielded(pick: spec_fn(nat) -> nat, left: nat, asked: nat) -> nat {
    let most = if asked <= left {
        asked
    } else {
        left
    };
    if pick(left) == 0 {
        1
    } else if pick(left) <= most {
        pick(left)
    } else {
        most
    }
}

/// What comes of reading `rest` to its end: each read asks for one octet more than may still be
/// buffered and yields what `pick` says.
pub open spec fn read_out(
    limit: nat,
    buffered: Seq<u8>,
    rest: Seq<u8>,
    pick: spec_fn(nat) -> nat,
) -> Option<Seq<u8>>
    decreases rest.len(),
{
    if rest.len() == 0 || buffered.len() > limit {
        Some(buffered)
    } else {
        let n = yielded(pick, rest.len(), (limit - buffered.len() + 1) as nat) as int;
        match pushed(limit, buffered, rest.take(n)) {
            Some(data) => read_out(limit, data, rest.skip(n), pick),
            None => None,
        }
    }
}

proof fn lemma_read_out(limit: nat, buffered: Seq<u8>, rest: Seq<u8>, pick: spec_fn(nat) -> nat)
    requires
        buffered.len() <= limit,
    ensures
        read_out(limit, buffered, rest, pick) == (if buffered.len() + rest.len() > limit {
            None
        } else {
            Some(buffered + rest)
        }),
    decreases rest.len(),
{
    if rest.len() == 0 {
        assert(buffered + rest =~= buffered);
    } else {
        let n = yielded(pick, rest.len(), (limit - buffered.len() + 1) as nat) as int;
        if let Some(data) = pushed(limit, buffered, rest.take(n)) {
            lemma_read_out(limit, data, rest.skip(n), pick);
            assert(data + rest.skip(n) =~= buffered + rest);
        }
    }
}

/// Reading a stream to its end with the length that [`ReadToEnd::request`] gives yields all of
/// it where it keeps the limit and fails where it does not, however much each read yields: no
/// stream is cut, and none is waited for without end.
pub proof fn law_longer_stream_fails(limit: nat, rest: Seq<u8>, pick: spec_fn(nat) -> nat)
    ensures
        read_out(limit, Seq::empty(), rest, pick) == (if rest.len() > limit {
            None
        } else {
            Some(rest)
        }),
{
    lemma_read_out(limit, Seq::empty(), rest, pick);
    assert(Seq::<u8>::empty() + rest =~= rest);
}

/// A read observes the end of a stream exactly where it is over without data, and has to wait
/// exactly where there is nothing yet.
pub proof fn law_end_observed<C>(outcome: ReadOutcome<C>)
    ensures
        observes_end(outcome) <==> (read_progress(outcome) matches Progress::Ready(Ok(None))
            || read_progress(outcome) matches Progress::Ready(Err(_))),
        outcome is Blocked <==> read_progress(outcome) is Pending,
{
}

/// A read comes to exactly what the stream state machine had: its data, the end, the code with
/// which the peer abandoned the stream, or that it was over before.
pub proof fn law_read_outcome<C>(outcome: ReadOutcome<C>, chunk: C, code: VarInt)
    ensures
        ({
            let p = read_progress(outcome);
            &&& p == Progress::<Option<C>, ReadError<Seq<char>, Seq<u8>>>::Ready(Ok(Some(chunk)))
                <==> outcome == ReadOutcome::Chunk(chunk)
            &&& p == Progress::<Option<C>, ReadError<Seq<char>, Seq<u8>>>::Ready(Ok(None))
                <==> outcome is End
            &&& p == Progress::<Option<C>, ReadError<Seq<char>, Seq<u8>>>::Ready(
                Err(ReadError::Reset(code)),
            ) <==> outcome == ReadOutcome::<C>::Reset(code)
            &&& p == Progress::<Option<C>, ReadError<Seq<char>, Seq<u8>>>::Ready(
                Err(ReadError::ClosedStream),
            ) <==> outcome is Closed
            &&& p is Pending <==> outcome is Blocked
            &&& observes_end(outcome) <==> !(outcome is Chunk) && !(outcome is Blocked)
        }),
{
}

/// Errors stand for themselves, with the code that the peer gave or the reason for which the
/// connection ended.
pub proof fn law_errors_as_made(
    lost: Option<ConnectionError>,
    w: WriteError,
    r: ReadError,
    code: VarInt,
)
    ensures
        lost is None <==> reason_of(lost) is None,
        lost matches Some(e) ==> reason_of(lost) == Some(e@),
        w@ == WriteError::<Seq<char>, Seq<u8>>::Stopped(code) <==> w == WriteError::<
            String,
            Bytes,
        >::Stopped(code),
        w@ is ClosedStream <==> w is ClosedStream,
        w matches WriteError::ConnectionLost(e) ==> w@ == WriteError::ConnectionLost(e@),
        r@ == ReadError::<Seq<char>, Seq<u8>>::Reset(code) <==> r == ReadError::<
            String,
            Bytes,
        >::Reset(code),
        r@ is ClosedStream <==> r is ClosedStream,
        r matches ReadError::ConnectionLost(e) ==> r@ == ReadError::ConnectionLost(e@),
{
}

} // verus!
