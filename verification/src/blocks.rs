//! The blocks that go into the book.

use crate::node_data::{Batch, BatchView, NodeDataOrderDiff, NodeDataOrderStatus};
use vstd::prelude::*;

verus! {

/// The order statuses and the order diffs of one block.
pub struct Block {
    pub statuses: Batch<NodeDataOrderStatus>,
    pub diffs: Batch<NodeDataOrderDiff>,
}

/// What a block holds.
#[verifier::ext_equal]
pub struct BlockView {
    pub statuses: BatchView<NodeDataOrderStatus>,
    pub diffs: BatchView<NodeDataOrderDiff>,
}

impl View for Block {
    type V = BlockView;

    open spec fn view(&self) -> BlockView {
        BlockView { statuses: self.statuses@, diffs: self.diffs@ }
    }
}

impl Block {
    /// A copy of the block.
    pub fn duplicate(&self) -> (copy: Block)
        ensures
            copy@ == self@,
    {
        Block { statuses: self.statuses.duplicate(), diffs: self.diffs.duplicate() }
    }
}

/// What a row of blocks holds.
pub open spec fn block_views(blocks: Seq<Block>) -> Seq<BlockView> {
    blocks.map_values(|block: Block| block@)
}

} // verus!
