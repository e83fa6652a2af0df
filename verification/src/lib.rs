//! Verified networking core of a blockchain peer node.
//!
//! The library covers the protocol logic of the node: the wire envelope and
//! message codec ([`message`]), the outbound send registry ([`outbound`]),
//! the handshake and peer-registry state machine ([`peers`]), the chain-sync
//! state machine ([`blocks`]), and the event dispatcher that serializes all
//! state transitions ([`node`]). The effects handlers decide are values of
//! [`action`]; what can go wrong is [`errors`].
//!
//! Everything here is pure logic over plain values: bytes in, bytes and
//! state transitions out. Sockets, clocks, randomness and the consensus
//! collaborator live outside the library; their results (received bytes,
//! the current tick, a fresh nonce, a validation verdict) are handed in as
//! arguments, so every function is verified for every value those
//! collaborators can produce.

pub mod action;
pub mod blocks;
pub mod errors;
pub mod message;
pub mod node;
pub mod outbound;
pub mod peers;
