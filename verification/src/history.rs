//! The history source: durable, gap-free storage of finalized blocks,
//! queried by sequence-number range. The authoritative history has no gaps,
//! so the block numbered `n` sits at position `n`.

use vstd::prelude::*;
use crate::types::BlockHeader;

verus! {

/// One durable record: a header together with the hashes of the block's
/// transactions.
#[derive(PartialEq, Eq, Debug)]
pub struct StoredBlock {
    pub header: BlockHeader,
    pub transactions: Vec<u64>,
}

/// Durable storage of finalized blocks in sequence-number order.
pub struct HistorySource {
    blocks: Vec<StoredBlock>,
}

impl View for HistorySource {
    type V = Seq<StoredBlock>;

    closed spec fn view(&self) -> Seq<StoredBlock> {
        self.blocks@
    }
}

impl HistorySource {
    /// The authoritative invariant: block numbers are contiguous from zero,
    /// so the record at position `i` has sequence number `i`.
    pub open spec fn wf(&self) -> bool {
        &&& self@.len() < u64::MAX as nat
        &&& forall|i: int|
            0 <= i < self@.len() ==> (#[trigger] self@[i]).header.number == i as u64
    }

    pub fn new() -> (r: Self)
        ensures
            r.wf(),
            r@ == Seq::<StoredBlock>::empty(),
    {
        let r = HistorySource { blocks: Vec::new() };
        proof {
            assert(r@ =~= Seq::<StoredBlock>::empty());
        }
        r
    }

    /// How many blocks are durable; also one past the highest sequence
    /// number, by the gap-free invariant.
    pub fn block_count(&self) -> (n: u64)
        requires
            self.wf(),
        ensures
            n as nat == self@.len(),
    {
        self.blocks.len() as u64
    }

    /// The highest durable sequence number, if any block exists.
    pub fn tip(&self) -> (r: Option<u64>)
        requires
            self.wf(),
        ensures
            self@.len() == 0 ==> r is None,
            self@.len() > 0 ==> r == Some((self@.len() - 1) as u64),
    {
        let n = self.blocks.len();
        if n == 0 {
            None
        } else {
            Some((n - 1) as u64)
        }
    }

    /// Appends the next block. The producer of record inserts each block
    /// exactly once, in order.
    pub fn insert_block(&mut self, block: StoredBlock)
        requires
            old(self).wf(),
            block.header.number as nat == old(self)@.len(),
            old(self)@.len() + 1 < u64::MAX as nat,
        ensures
            final(self).wf(),
            final(self)@ == old(self)@.push(block),
    {
        self.blocks.push(block);
    }

    /// The header of the block with sequence number `n`.
    pub fn header_at(&self, n: u64) -> (r: BlockHeader)
        requires
            self.wf(),
            (n as nat) < self@.len(),
        ensures
            r == self@[n as int].header,
            r.number == n,
    {
        let len: usize = self.blocks.len();
        proof {
            assert((n as int) < (len as int));
        }
        let idx: usize = n as usize;
        self.blocks[idx].header
    }

    /// The transaction hashes of the block with sequence number `n`.
    pub fn transactions_at(&self, n: u64) -> (r: Vec<u64>)
        requires
            self.wf(),
            (n as nat) < self@.len(),
        ensures
            r@ == self@[n as int].transactions@,
    {
        let len: usize = self.blocks.len();
        proof {
            assert((n as int) < (len as int));
        }
        let idx: usize = n as usize;
        let src = &self.blocks[idx].transactions;
        let mut r: Vec<u64> = Vec::new();
        let mut i: usize = 0;
        while i < src.len()
            invariant
                i <= src.len(),
                r@ == src@.subrange(0, i as int),
            decreases src.len() - i,
        {
            r.push(src[i]);
            i = i + 1;
            proof {
                assert(r@ =~= src@.subrange(0, i as int));
            }
        }
        proof {
            assert(src@.subrange(0, src@.len() as int) =~= src@);
        }
        r
    }

    /// The range query the engine consumes: every header with sequence
    /// number in the inclusive range `[from, to]`, in ascending order.
    pub fn range_query(&self, from: u64, to: u64) -> (r: Vec<BlockHeader>)
        requires
            self.wf(),
            from <= to,
            (to as nat) < self@.len(),
        ensures
            r@.len() == to - from + 1,
            forall|k: int|
                0 <= k < r@.len() ==> #[trigger] r@[k] == self@[from + k].header,
    {
        let mut r: Vec<BlockHeader> = Vec::new();
        let mut i: u64 = from;
        while i <= to
            invariant
                from <= i <= to + 1,
                (to as nat) < self@.len(),
                self.wf(),
                r@.len() == i - from,
                forall|k: int|
                    0 <= k < r@.len() ==> #[trigger] r@[k] == self@[from + k].header,
            decreases to + 1 - i,
        {
            let len: usize = self.blocks.len();
            proof {
                assert((i as int) < (len as int));
            }
            let idx: usize = i as usize;
            r.push(self.blocks[idx].header);
            i = i + 1;
        }
        r
    }
}

} // verus!
