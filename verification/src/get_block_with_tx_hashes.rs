//! The plain request/response method served alongside subscriptions:
//! block information with transaction hashes, for a given block id.

use vstd::prelude::*;
use crate::context::RpcContext;
use crate::types::BlockHeader;
use crate::types::BlockId;
use crate::types::PendingHeader;

verus! {

/// The validated input: which block to describe.
#[derive(Clone, Copy, PartialEq, Eq, Structural, Debug)]
pub struct Input {
    pub block_id: BlockId,
}

/// The response: either the pending (tentative) block, or a finalized
/// block together with its L1 acceptance status.
#[derive(PartialEq, Eq, Debug)]
pub enum Output {
    Pending { header: PendingHeader, transactions: Vec<u64> },
    Full { header: BlockHeader, transactions: Vec<u64>, l1_accepted: bool },
}

/// `BlockNotFound` answers a query for a block that is not durable;
/// `Internal` stands for a node-side failure, such as a missing pending
/// snapshot.
#[derive(Clone, Copy, PartialEq, Eq, Structural, Debug)]
pub enum Error {
    BlockNotFound,
    Internal,
}

/// The finalized-block answer for the block at position `n`.
pub open spec fn full_output_of(o: Output, ctx: RpcContext, n: int) -> bool {
    o matches Output::Full { header, transactions, l1_accepted }
        && header == ctx.history@[n].header
        && transactions@ == ctx.history@[n].transactions@
        && l1_accepted == (n < ctx.l1_accepted_count as int)
}

/// Exactly what the method answers, for every input: the pending snapshot
/// when one is asked for and held, the matching durable block when it
/// exists, and the precise error otherwise.
pub open spec fn get_block_post(ctx: RpcContext, input: Input, r: Result<Output, Error>) -> bool {
    match input.block_id {
        BlockId::Pending => match ctx.pending {
            Some(p) => r matches Ok(o)
                && (o matches Output::Pending { header, transactions }
                    && header == p.header
                    && transactions@ == p.transactions@),
            None => r == Err::<Output, Error>(Error::Internal),
        },
        BlockId::Number(n) => if (n as nat) < ctx.history@.len() {
            r matches Ok(o) && full_output_of(o, ctx, n as int)
        } else {
            r == Err::<Output, Error>(Error::BlockNotFound)
        },
        BlockId::Latest => if ctx.history@.len() > 0 {
            r matches Ok(o) && full_output_of(o, ctx, ctx.history@.len() as int - 1)
        } else {
            r == Err::<Output, Error>(Error::BlockNotFound)
        },
    }
}

/// Get block information with transaction hashes given the block id.
pub fn get_block_with_tx_hashes(context: &RpcContext, input: &Input) -> (r: Result<Output, Error>)
    requires
        context.wf(),
    ensures
        get_block_post(*context, *input, r),
{
    match input.block_id {
        BlockId::Pending => match &context.pending {
            Some(p) => {
                let src = &p.transactions;
                let mut transactions: Vec<u64> = Vec::new();
                let mut i: usize = 0;
                while i < src.len()
                    invariant
                        i <= src.len(),
                        transactions@ == src@.subrange(0, i as int),
                    decreases src.len() - i,
                {
                    transactions.push(src[i]);
                    i = i + 1;
                    proof {
                        assert(transactions@ =~= src@.subrange(0, i as int));
                    }
                }
                proof {
                    assert(src@.subrange(0, src@.len() as int) =~= src@);
                }
                Ok(Output::Pending { header: p.header, transactions })
            }
            None => Err(Error::Internal),
        },
        BlockId::Number(n) => {
            let count = context.history.block_count();
            if n < count {
                let header = context.history.header_at(n);
                let transactions = context.history.transactions_at(n);
                let l1_accepted = n < context.l1_accepted_count;
                Ok(Output::Full { header, transactions, l1_accepted })
            } else {
                Err(Error::BlockNotFound)
            }
        }
        BlockId::Latest => {
            let count = context.history.block_count();
            if count > 0 {
                let n = count - 1;
                let header = context.history.header_at(n);
                let transactions = context.history.transactions_at(n);
                let l1_accepted = n < context.l1_accepted_count;
                Ok(Output::Full { header, transactions, l1_accepted })
            } else {
                Err(Error::BlockNotFound)
            }
        }
    }
}

} // verus!
