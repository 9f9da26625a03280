//! How an encoded message travels: whole in a datagram, or behind a length
//! on a stream, and when a query moves from the first to the second.

pub mod fallback;
pub mod mode;
pub mod stream;
