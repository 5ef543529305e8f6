# moq

Media over QUIC in the sans-IO style, verified with Verus: every layer takes
and returns byte buffers and events, and does no I/O of its own.

## Layout

- `src/quic_varint.rs`, `src/numeral.rs`, `src/first_pos.rs`: shared pieces
  (QUIC variable-length integers, decimal and hexadecimal numerals, the
  first-match search used in contracts).
- `src/moq_protocol/`: MoQ control messages, parameters and codec, with
  encode/decode round-trip laws.
- `src/moq_relay/`: the subscription relay, a state machine from input events
  to output events, with the routing contracts of each control message.
- `src/webtransport/`: WebTransport over HTTP/3: frames, capsules, QPACK
  header blocks, stream headers, flow control and the connection state.
- `tests/`: scenario tests run against the compiled library.
- `app/`: the error types with their `thiserror` derives, converted to and
  from the library's own.

## Building

Verus verifies the library from `src/lib.rs`; `cargo test` runs the tests.
