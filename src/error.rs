//! The failures of the session layer.

use vstd::prelude::*;

verus! {

/// Why an operation of the session layer refused its input.
#[derive(Debug, Clone, Copy, PartialEq, Eq, Structural)]
pub enum SessionError {
    /// The connection token is expired, for another protocol, or for another peer.
    AuthenticationFailure,
    /// Malformed key material, or decapsulation failed.
    HandshakeFailure,
    /// The frame is too short to hold a tag, or its tag does not match.
    DecryptFailure,
    /// The message is not acceptable in the peer's current state.
    ProtocolStateViolation,
    /// The bytes do not form a message.
    EncodingFailure,
    /// The counter of this direction has reached its last value; a new key is needed.
    NonceExhausted,
    /// No session exists for this peer.
    UnknownPeer,
}

} // verus!
