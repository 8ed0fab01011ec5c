use bytes::Bytes;
use qmux::config::Config;
use qmux::proto::connection::Connection;
use qmux::proto::event::{ConnectionError, Event};
use qmux::session::driver::{Action, Driver, Occurrence, Stage};
use qmux::session::halves::{
    FinishFailure, Progress, ReadError, ReadOutcome, ReadToEnd, RecvHalf, SendHalf, WriteError,
    WriteFailure,
};
use qmux::session::wake::{
    datagram_outcome, dispatch, handshake_outcome, lost_reason, Wake,
};
use qmux::stream_id::{Dir, Side, StreamId};
use qmux::streams::event::StreamEvent;
use qmux::time::Instant;
use qmux::varint::VarInt;

fn uni(index: u64) -> StreamId {
    StreamId::new(Side::Client, Dir::Uni, index)
}

#[test]
fn driver_flushes_before_it_waits() {
    let (mut driver, action) = Driver::new();
    assert_eq!(action, Action::PollTransmit);
    let polled = |record| Occurrence::Polled { record, closed: false };
    assert_eq!(driver.step(polled(true)), Action::WriteRecord);
    assert_eq!(driver.step(Occurrence::Written { ok: true }), Action::PollTransmit);
    assert_eq!(driver.step(polled(false)), Action::Wait);
    assert_eq!(driver.stage(), Stage::Waiting);
    assert_eq!(driver.step(Occurrence::Data), Action::HandleInput);
    assert_eq!(driver.step(polled(false)), Action::Wait);
    assert_eq!(driver.step(Occurrence::Timer), Action::HandleTimeout);
    assert_eq!(driver.step(polled(false)), Action::Wait);
    assert_eq!(driver.step(Occurrence::Notified), Action::PollTransmit);
}

#[test]
fn driver_ends_a_closed_connection() {
    let (mut driver, _) = Driver::new();
    let polled = |record| Occurrence::Polled { record, closed: true };
    assert_eq!(driver.step(polled(true)), Action::WriteRecord);
    assert_eq!(driver.step(Occurrence::Written { ok: true }), Action::PollTransmit);
    assert_eq!(driver.step(polled(false)), Action::PollTransmit);
    assert_eq!(driver.stage(), Stage::FlushingLast);
    assert_eq!(driver.step(polled(false)), Action::Shutdown);
    assert_eq!(driver.step(Occurrence::Over), Action::Drain);
    assert_eq!(driver.step(Occurrence::Over), Action::Stop);
    assert_eq!(driver.stage(), Stage::Finished);
}

#[test]
fn driver_reports_transport_failures() {
    for failure in [Occurrence::Eof, Occurrence::ReadFailed] {
        let (mut driver, _) = Driver::new();
        driver.step(Occurrence::Polled { record: false, closed: false });
        assert_eq!(driver.step(failure), Action::CloseTransport);
        assert_eq!(
            driver.step(Occurrence::Polled { record: true, closed: true }),
            Action::WriteRecord
        );
        assert_eq!(driver.step(Occurrence::Written { ok: false }), Action::Shutdown);
    }
    let (mut driver, _) = Driver::new();
    driver.step(Occurrence::Polled { record: true, closed: false });
    assert_eq!(driver.step(Occurrence::Written { ok: false }), Action::CloseTransport);
    assert_eq!(driver.stage(), Stage::FlushingLast);
}

#[test]
fn events_wake_those_concerned() {
    assert!(dispatch(&Event::Connected).connected);
    assert!(dispatch(&Event::DatagramReceived).datagrams);
    let opened = dispatch(&Event::Stream(StreamEvent::Opened { dir: Dir::Bi }));
    assert!(opened.incoming_bi && !opened.incoming_uni && !opened.available_bi);
    let available = dispatch(&Event::Stream(StreamEvent::Available { dir: Dir::Uni }));
    assert!(available.available_uni && !available.available_bi && !available.incoming_uni);
    let readable = dispatch(&Event::Stream(StreamEvent::Readable { id: uni(1) }));
    assert_eq!(readable.readers, Wake::Stream(uni(1)));
    assert_eq!(readable.writers, Wake::Nobody);
    let writable = dispatch(&Event::Stream(StreamEvent::Writable { id: uni(2) }));
    assert_eq!(writable.writers, Wake::Stream(uni(2)));
    let stopped = dispatch(&Event::Stream(StreamEvent::Stopped {
        id: uni(3),
        error_code: VarInt::from_u32(1),
    }));
    assert_eq!(stopped.writers, Wake::Stream(uni(3)));
    assert_eq!(stopped.readers, Wake::Nobody);
    let lost = dispatch(&Event::ConnectionLost { reason: ConnectionError::TimedOut });
    assert!(lost.closed && lost.connected && lost.datagrams && lost.available_uni);
    assert_eq!(lost.readers, Wake::Everybody);
    assert_eq!(lost.writers, Wake::Everybody);
}

#[test]
fn waiting_on_a_connection() {
    let now = Instant { nanos: 0 };
    let mut conn = Connection::new(Config::default(), Side::Client, now);
    assert!(handshake_outcome(&conn).is_none());
    assert!(lost_reason(&conn).is_none());
    assert!(datagram_outcome(&mut conn).is_none());
    conn.close(VarInt::from_u32(0), Bytes::new());
    assert!(matches!(
        handshake_outcome(&conn),
        Some(Err(ConnectionError::LocallyClosed))
    ));
    assert!(matches!(lost_reason(&conn), Some(ConnectionError::LocallyClosed)));
    assert!(matches!(
        datagram_outcome(&mut conn),
        Some(Err(ConnectionError::LocallyClosed))
    ));
}

#[test]
fn writes_end() {
    let code = VarInt::from_u32(9);
    assert_eq!(SendHalf::before_write(None, None), None);
    assert_eq!(
        SendHalf::before_write(None, Some(code)),
        Some(WriteError::Stopped(code))
    );
    assert_eq!(
        SendHalf::before_write(Some(ConnectionError::TimedOut), Some(code)),
        Some(WriteError::ConnectionLost(ConnectionError::TimedOut))
    );
    assert!(matches!(SendHalf::after_write(Ok(5)), Progress::Ready(Ok(5))));
    assert!(matches!(
        SendHalf::after_write(Err(WriteFailure::Blocked)),
        Progress::Pending
    ));
    assert!(matches!(
        SendHalf::after_write(Err(WriteFailure::Stopped(code))),
        Progress::Ready(Err(WriteError::Stopped(c))) if c == code
    ));
    assert!(matches!(
        SendHalf::after_write(Err(WriteFailure::ClosedStream)),
        Progress::Ready(Err(WriteError::ClosedStream))
    ));
}

#[test]
fn unfinished_streams_are_reset() {
    let mut half = SendHalf::new(uni(4));
    assert_eq!(half.id(), uni(4));
    assert_eq!(half.on_drop(), Some(VarInt::from_u32(0)));
    let code = VarInt::from_u32(3);
    assert_eq!(
        half.finish(Err(FinishFailure::Stopped(code))),
        Err(WriteError::Stopped(code))
    );
    assert_eq!(
        half.finish(Err(FinishFailure::ClosedStream)),
        Err(WriteError::ClosedStream)
    );
    assert_eq!(half.reset(false), Err(WriteError::ClosedStream));
    assert_eq!(half.on_drop(), Some(VarInt::from_u32(0)));
    assert_eq!(half.finish(Ok(())), Ok(()));
    assert_eq!(half.on_drop(), None);
    let mut half = SendHalf::new(uni(5));
    assert_eq!(half.reset(true), Ok(()));
    assert_eq!(half.on_drop(), None);
}

#[test]
fn reads_end() {
    let mut half = RecvHalf::new(uni(6));
    assert_eq!(half.id(), uni(6));
    assert_eq!(half.before_read(None), None);
    assert_eq!(
        half.before_read(Some(ConnectionError::TransportClosed)),
        Some(ReadError::ConnectionLost(ConnectionError::TransportClosed))
    );
    assert!(matches!(
        half.after_read(ReadOutcome::Chunk(7)),
        Progress::Ready(Ok(Some(7)))
    ));
    let pending = half.after_read(ReadOutcome::<u8>::Blocked);
    assert!(matches!(pending, Progress::Pending));
    assert!(!RecvHalf::notifies_driver(false, &pending));
    assert!(RecvHalf::notifies_driver(true, &pending));
    assert_eq!(half.on_drop(), Some(VarInt::from_u32(0)));
    let end = half.after_read(ReadOutcome::<u8>::End);
    assert!(matches!(end, Progress::Ready(Ok(None))));
    assert!(RecvHalf::notifies_driver(false, &end));
    assert_eq!(half.on_drop(), None);
    assert_eq!(half.before_read(None), Some(ReadError::ClosedStream));

    let mut half = RecvHalf::new(uni(7));
    let code = VarInt::from_u32(11);
    assert!(matches!(
        half.after_read(ReadOutcome::<u8>::Reset(code)),
        Progress::Ready(Err(ReadError::Reset(c))) if c == code
    ));
    assert_eq!(half.on_drop(), None);
    let mut half = RecvHalf::new(uni(8));
    assert!(matches!(
        half.after_read(ReadOutcome::<u8>::Closed),
        Progress::Ready(Err(ReadError::ClosedStream))
    ));
    assert_eq!(half.on_drop(), None);
}

#[test]
fn stopping_a_stream() {
    assert_eq!(RecvHalf::before_stop(None), None);
    assert_eq!(
        RecvHalf::before_stop(Some(ConnectionError::LocallyClosed)),
        Some(ReadError::ConnectionLost(ConnectionError::LocallyClosed))
    );
    let mut half = RecvHalf::new(uni(9));
    assert_eq!(half.stop(false), Err(ReadError::ClosedStream));
    assert_eq!(half.on_drop(), Some(VarInt::from_u32(0)));
    assert_eq!(half.stop(true), Ok(()));
    assert_eq!(half.on_drop(), None);
}

#[test]
fn buffering_a_stream() {
    let mut buffer = ReadToEnd::new(5);
    assert_eq!(buffer.room(), 5);
    assert_eq!(buffer.request(), 6);
    buffer.push(b"abc").unwrap();
    assert_eq!(buffer.push(b"def"), Err(ReadError::ClosedStream));
    buffer.push(b"de").unwrap();
    assert_eq!(buffer.room(), 0);
    // One octet more shows whether the stream ends here
    assert_eq!(buffer.request(), 1);
    assert_eq!(buffer.push(b"f"), Err(ReadError::ClosedStream));
    buffer.push(b"").unwrap();
    assert_eq!(buffer.finish(), b"abcde");
    assert_eq!(ReadToEnd::new(usize::MAX).request(), usize::MAX);
    assert_eq!(ReadToEnd::new(0).request(), 1);
}

#[test]
fn stream_error_messages() {
    assert_eq!(
        WriteError::Stopped(VarInt::from_u32(12)).message(),
        "stream stopped by peer: code 12"
    );
    assert_eq!(WriteError::ClosedStream.message(), "closed stream");
    assert_eq!(
        WriteError::ConnectionLost(ConnectionError::TimedOut).message(),
        format!("connection lost: {}", ConnectionError::TimedOut.message())
    );
    assert_eq!(
        ReadError::Reset(VarInt::from_u32(0)).message(),
        "stream reset by peer: code 0"
    );
    assert_eq!(ReadError::ClosedStream.message(), "closed stream");
    assert_eq!(
        ReadError::ConnectionLost(ConnectionError::TransportClosed).message(),
        format!("connection lost: {}", ConnectionError::TransportClosed.message())
    );
}
