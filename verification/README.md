# qmux

QMux carries QUIC streams, flow control and datagrams over reliable, ordered transports such
as TCP, TLS or WebSockets. This library holds the rules of the protocol, without I/O, and
proves them with Verus.

## Layout

- `src/varint.rs`, `src/buffer.rs`, `src/stream_id.rs`, `src/transport_error.rs`,
  `src/transport_parameters.rs`, `src/text.rs`, `src/time.rs`: the vocabulary.
- `src/streams/`: frames of streams, their order on arrival, and what a carrier of streams
  decodes and encodes.
- `src/proto/`: a connection over an octet stream or over messages: records, frames,
  parameters, timeouts, and the connection itself.
- `src/mux/`: a connection over a carrier that hands over whole records and reports when
  they were written.
- `src/session/`: what a driver task does next, whom an event wakes, and how operations on
  the halves of a stream end.
- `src/udp.rs`: how a transmit is cut into batches that a system call takes.
- `src/config.rs`: limits of a connection.
- `app/`: the runtime around the library: tasks, sockets, clocks, and the calls of the stream
  state machine, which it is generic over.

## How it is stated

A connection is modelled as a value (`proto::state::State`, `mux::state::State`), and each of
its methods has a contract that equates the state afterwards and the result with functions of
the state before. Where a frame concerns the stream state machine, processing stops with a
call for it and goes on when the call was answered.

What holds across methods is stated by the proof functions named `law_…`: round trips of the
wire formats, the handshake, what reaches the peer, the order of datagrams, that the first
reason for an end is final, that a silent peer times out, that the chunking of input does not
matter, and so on.

The `bytes` crate holds octets and the `rustc-hash` crate hashes stream numbers; what the
proofs believe of them stands in `src/buffer.rs` and `src/streams/order.rs`.
