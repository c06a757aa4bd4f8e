//! The error taxonomy of the client.
//!
//! Every operation of the typed client returns either its value or exactly
//! one of the kinds below. A failure is terminal for that single call only.

use vstd::prelude::*;

verus! {

/// A failure of the transport layer: either the connection could not be
/// established (DNS, TCP, TLS, timeout) or the response framing was
/// malformed.
#[derive(Debug, Clone, Copy, PartialEq, Eq, Structural)]
pub enum TransportError {
    ConnectionFailed,
    ProtocolError,
}

/// An error surfaced by the typed client.
///
/// `InvalidUrl` is detected before any network activity. `ConnectionFailed`
/// and `ProtocolError` propagate a transport failure unchanged.
/// `DecodeError` carries a human-readable description of why the response
/// body did not decode.
#[derive(Debug)]
pub enum HNError {
    InvalidUrl,
    ConnectionFailed,
    ProtocolError,
    DecodeError(String),
}

/// The client error that stands for a given transport failure: the kind is
/// kept, never wrapped or collapsed.
pub open spec fn spec_from_transport(e: TransportError) -> HNError {
    match e {
        TransportError::ConnectionFailed => HNError::ConnectionFailed,
        TransportError::ProtocolError => HNError::ProtocolError,
    }
}

impl HNError {
    /// Maps a transport failure onto the client taxonomy, preserving the kind.
    pub fn from_transport(e: TransportError) -> (r: HNError)
        ensures
            r == spec_from_transport(e),
    {
        match e {
            TransportError::ConnectionFailed => HNError::ConnectionFailed,
            TransportError::ProtocolError => HNError::ProtocolError,
        }
    }
}

} // verus!
