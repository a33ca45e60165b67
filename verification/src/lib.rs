//! Verified core of a serial radio field logger: line framing over a chunked
//! byte stream, frame decoding (token shape, hex payload, UTF-8), fixed-arity
//! record parsing, the start/stop lifecycle handshake, and the per-event
//! dispatch policy of the main loop.

pub mod decode;
pub mod dispatch;
pub mod framer;
pub mod hexcode;
pub mod lifecycle;
pub mod text;
