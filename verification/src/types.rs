//! Plain data carried through the engine: block headers, starting points,
//! subscription identifiers, and the error taxonomy.

use vstd::prelude::*;

verus! {

/// A finalized block header: the event record delivered to subscribers.
/// `number` is the sequence number that totally orders the stream; the hash
/// fields stand in for the rest of the header's content.
#[derive(Clone, Copy, PartialEq, Eq, Structural, Debug)]
pub struct BlockHeader {
    pub number: u64,
    pub hash: u64,
    pub parent_hash: u64,
}

/// A header of not-yet-finalized, tentative state. It has no stable sequence
/// number until it is finalized.
#[derive(Clone, Copy, PartialEq, Eq, Structural, Debug)]
pub struct PendingHeader {
    pub parent_hash: u64,
}

/// Where a subscription or a query starts: an absolute sequence number, the
/// current tip, or the pending (tentative) state.
#[derive(Clone, Copy, PartialEq, Eq, Structural, Debug)]
pub enum BlockId {
    Number(u64),
    Latest,
    Pending,
}

/// Identifies one subscription for the life of a connection; never reused
/// while the connection is open.
#[derive(Clone, Copy, PartialEq, Eq, Structural, Debug)]
pub struct SubscriptionId(pub u64);

/// Errors surfaced by the engine. A lagging bus subscriber is recovered
/// internally and an unknown unsubscribe identifier answers `false`, so
/// neither appears here; a closed transport terminates a driver silently,
/// with no frame to carry an error.
#[derive(Clone, Copy, PartialEq, Eq, Structural, Debug)]
pub enum RpcError {
    /// The request is malformed; rejected before any work starts.
    InvalidRequest,
    /// A read from durable storage failed; terminates the subscription.
    HistoryUnavailable,
}

} // verus!
