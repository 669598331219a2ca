//! Core of a peer-to-peer voice call client: signaling messages and their
//! wire codec, the per-peer negotiation state machine, the session
//! coordinator that routes intents and relay traffic, and the media bridge
//! buffers that sit between the audio hardware boundary and the network.

pub mod codec;
pub mod coordinator;
pub mod errors;
pub mod media;
pub mod msg;
pub mod negotiation;
pub mod order;
pub mod registry;
pub mod session;
pub mod transport;
