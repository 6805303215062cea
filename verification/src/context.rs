//! The state a request handler sees: durable history, the L1 acceptance
//! mark, and the current pending (tentative) snapshot.

use vstd::prelude::*;
use crate::history::HistorySource;
use crate::types::PendingHeader;

verus! {

/// The single, frequently-replaced snapshot of not-yet-finalized state.
#[derive(PartialEq, Eq, Debug)]
pub struct PendingBlock {
    pub header: PendingHeader,
    pub transactions: Vec<u64>,
}

/// What the RPC handlers read: the history source, how much of it has
/// been accepted on L1 (every block numbered below the mark), and the
/// pending snapshot, if the node holds one.
pub struct RpcContext {
    pub history: HistorySource,
    pub l1_accepted_count: u64,
    pub pending: Option<PendingBlock>,
}

impl RpcContext {
    pub open spec fn wf(&self) -> bool {
        self.history.wf()
    }
}

} // verus!
