//! The two kinds of transport.

use vstd::prelude::*;

verus! {

/// The default port of the service.
pub const DEFAULT_PORT: u16 = 53;

/// How messages are delivered.
#[derive(Debug, Clone, Copy, PartialEq, Eq, Structural)]
pub enum TransportMode {
    /// Datagrams: one send is one message, one receive is one message.
    Udp,
    /// A stream: every message follows its length in two bytes.
    Tcp,
}

impl TransportMode {
    /// Whether messages are preceded by their length on this transport.
    pub open spec fn spec_uses_leading_length(self) -> bool {
        self == TransportMode::Tcp
    }

    /// Whether messages are preceded by their length on this transport.
    pub fn uses_leading_length(self) -> (b: bool)
        ensures
            b == self.spec_uses_leading_length(),
    {
        match self {
            TransportMode::Udp => false,
            TransportMode::Tcp => true,
        }
    }
}

} // verus!
