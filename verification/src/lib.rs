//! A DNS wire-format engine: big-endian primitives, the header flag word,
//! domain names with compression pointers, questions, resource records and
//! whole messages, plus the framing and fallback rules of the transports.
//!
//! Every encoder and decoder is stated against a mathematical model of the
//! bytes on the wire, and the laws that tie them together are proved.

pub mod error;
pub mod rfc;
pub mod transport;
pub mod wire;
