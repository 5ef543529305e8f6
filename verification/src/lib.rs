//! Media over QUIC: protocol messages, a WebTransport-over-HTTP/3 session
//! layer and a subscription relay, all written in the sans-IO style.

pub mod quic_varint;
pub mod first_pos;
pub mod numeral;
pub mod moq_protocol;
pub mod moq_relay;
pub mod webtransport;
