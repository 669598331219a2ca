//! Error taxonomy shared by the signaling and media components.

use vstd::prelude::*;

verus! {

/// Every failure the core can report.
///
/// - `TransportClosed`: the relay link is down; fatal to all active sessions.
/// - `SerializationError`: a single message could not be encoded or decoded;
///   recovered by dropping that message.
/// - `AlreadyNegotiating`: `initiate` was called on a session that has left
///   `Idle`; recovered by ignoring the call.
/// - `InvalidTransition`: a negotiation message arrived in a state that does
///   not accept it; recovered by ignoring it.
/// - `NegotiationFailed`: the remote description or connectivity
///   establishment failed; fatal to the one affected session.
/// - `DeviceError`: the audio hardware boundary failed; never fatal to a
///   session.
#[derive(Clone, Copy, Debug, PartialEq, Eq, Structural)]
pub enum SignalError {
    TransportClosed,
    SerializationError,
    AlreadyNegotiating,
    InvalidTransition,
    NegotiationFailed,
    DeviceError,
}

impl SignalError {
    /// Short stable name of the variant, for logs and user-facing reports.
    pub fn describe(&self) -> (r: &'static str)
        ensures
            r@ == self.describe_spec(),
    {
        let r: &'static str = match self {
            SignalError::TransportClosed => "transport closed",
            SignalError::SerializationError => "serialization error",
            SignalError::AlreadyNegotiating => "already negotiating",
            SignalError::InvalidTransition => "invalid transition",
            SignalError::NegotiationFailed => "negotiation failed",
            SignalError::DeviceError => "device error",
        };
        r
    }

    /// What `describe` returns for each variant.
    pub open spec fn describe_spec(self) -> Seq<char> {
        match self {
            SignalError::TransportClosed => "transport closed"@,
            SignalError::SerializationError => "serialization error"@,
            SignalError::AlreadyNegotiating => "already negotiating"@,
            SignalError::InvalidTransition => "invalid transition"@,
            SignalError::NegotiationFailed => "negotiation failed"@,
            SignalError::DeviceError => "device error"@,
        }
    }
}

} // verus!
