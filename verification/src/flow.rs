//! The "new heads" subscription flow: how a subscription request for new
//! block headers maps to a starting point, a catch-up read, and outbound
//! notification payloads.

use vstd::prelude::*;
use crate::history::HistorySource;
use crate::types::BlockHeader;
use crate::types::BlockId;
use crate::types::PendingHeader;
use crate::types::RpcError;

verus! {

/// The subscription flow for new block headers.
pub struct SubscribeNewHeads;

/// A validated request: where the stream of heads should start.
#[derive(Clone, Copy, PartialEq, Eq, Structural, Debug)]
pub struct Request {
    pub block: BlockId,
}

/// One outbound notification payload: a new head.
#[derive(Clone, Copy, PartialEq, Eq, Structural, Debug)]
pub struct Message(pub BlockHeader);

impl SubscribeNewHeads {
    /// The method name carried by this flow's notification frames.
    pub fn subscription_name() -> (r: &'static str)
        ensures
            r@ == "starknet_subscriptionNewHeads"@,
    {
        "starknet_subscriptionNewHeads"
    }

    /// Pure derivation of the starting point from the request.
    pub fn starting_block(req: &Request) -> (r: BlockId)
        ensures
            r == req.block,
    {
        req.block
    }

    /// Resolves the starting point against the tip observed at attach time
    /// (`attach_tip` blocks durable). An absolute number is taken as is;
    /// "latest" starts at the first event published after attach, so no
    /// historical replay frame is ever sent for it. A pending start has no
    /// sequence number: it is served by the separate pending substream,
    /// not by catch-up/live reconciliation.
    pub fn starting_sequence(req: &Request, attach_tip: u64) -> (r: Option<u64>)
        ensures
            req.block matches BlockId::Number(n) ==> r == Some(n),
            req.block is Latest ==> r == Some(attach_tip),
            req.block is Pending ==> r is None,
    {
        match req.block {
            BlockId::Number(n) => Some(n),
            BlockId::Latest => Some(attach_tip),
            BlockId::Pending => None,
        }
    }

    /// The catch-up read: every durable record with sequence number in the
    /// inclusive range `[from, to]`, paired with its number, in ascending
    /// order, clamped to what is durable. The history itself is gap-free,
    /// so the result has no gap. The in-memory source cannot fail; a
    /// storage backend that does surfaces `HistoryUnavailable` instead and
    /// the subscription is aborted.
    pub fn catch_up(history: &HistorySource, _req: &Request, from: u64, to: u64)
        -> (r: Result<Vec<(Message, u64)>, RpcError>)
        requires
            history.wf(),
        ensures
            r matches Ok(v) && ({
                let hi = if (to as int) + 1 <= history@.len() as int {
                    to as int + 1
                } else {
                    history@.len() as int
                };
                &&& v@.len() == if (from as int) < hi {
                    hi - from
                } else {
                    0
                }
                &&& forall|k: int| 0 <= k < v@.len() ==>
                    (#[trigger] v@[k]).0 == Message(history@[from + k].header)
                    && v@[k].1 == (from + k) as u64
            }),
    {
        let count = history.block_count();
        let hi = if to >= count {
            count
        } else {
            to + 1
        };
        let mut v: Vec<(Message, u64)> = Vec::new();
        if from >= hi {
            return Ok(v);
        }
        let mut i: u64 = from;
        while i < hi
            invariant
                history.wf(),
                from <= i <= hi,
                hi as nat <= history@.len(),
                v@.len() == i - from,
                forall|k: int| 0 <= k < v@.len() ==>
                    (#[trigger] v@[k]).0 == Message(history@[from + k].header)
                    && v@[k].1 == (from + k) as u64,
            decreases hi - i,
        {
            let h = history.header_at(i);
            v.push((Message(h), i));
            i = i + 1;
        }
        Ok(v)
    }

    /// The pending substream, for a subscription starting at "pending":
    /// no catch-up/live reconciliation happens. The current tentative
    /// snapshot, if one is held, is forwarded once, then every subsequent
    /// replacement in the order observed — with no deduplication, since
    /// pending state has no stable sequence number.
    pub fn pending_substream(current: Option<PendingHeader>, replacements: &Vec<PendingHeader>)
        -> (out: Vec<PendingHeader>)
        ensures
            out@ == match current {
                Some(p) => seq![p] + replacements@,
                None => replacements@,
            },
    {
        let mut out: Vec<PendingHeader> = Vec::new();
        if let Some(p) = current {
            out.push(p);
        }
        let ghost base = out@;
        let mut i: usize = 0;
        while i < replacements.len()
            invariant
                i <= replacements@.len(),
                out@ == base + replacements@.subrange(0, i as int),
            decreases replacements@.len() - i,
        {
            out.push(replacements[i]);
            i = i + 1;
            proof {
                assert(out@ =~= base + replacements@.subrange(0, i as int));
            }
        }
        proof {
            assert(replacements@.subrange(0, replacements@.len() as int) =~= replacements@);
            if current is Some {
                assert(base =~= seq![current->0]);
            } else {
                assert(base + replacements@ =~= replacements@);
            }
        }
        out
    }
}

} // verus!
