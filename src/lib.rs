//! Handshake validation and incremental frame decoding for an AMQP 0.9.1 style
//! byte stream, with the per-connection session state machine that drives them.

pub mod header;
pub mod wire;
pub mod frame;
pub mod decoder;
pub mod session;
