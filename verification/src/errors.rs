//! Error taxonomy of the networking core.
//!
//! Only the errors the core logic itself decides are here. Socket-level
//! failures stay in the unverified I/O shell; a sync session that waits
//! too long is not an error value at all but a state transition back to
//! Idle; and the in-memory ledger model cannot fail to store.

use vstd::prelude::*;

verus! {

/// An error produced by the verified networking core.
#[derive(Clone, Copy, PartialEq, Eq, Structural, Debug)]
pub enum NetworkError {
    /// A payload does not follow the wire format for its message kind.
    Malformed,
    /// No channel is registered for the destination address, or a peer
    /// unknown to the registry was named.
    PeerNotFound,
}

} // verus!
