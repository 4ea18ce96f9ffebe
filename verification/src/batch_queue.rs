//! Blocks that wait for their counterpart in the other stream.

use crate::node_data::{Batch, BatchView};
use std::collections::VecDeque;
use vstd::prelude::*;

verus! {

/// The blocks of one stream that have arrived and have not been handed out, oldest first, and the
/// number of the newest block that ever arrived.
pub struct BatchQueue<E> {
    blocks: VecDeque<Batch<E>>,
    newest: Option<u64>,
}

/// What a queue holds.
#[verifier::ext_equal]
pub struct QueueView<E> {
    pub blocks: Seq<BatchView<E>>,
    pub newest: Option<u64>,
}

impl<E> QueueView<E> {
    /// Whether the blocks stand in strictly increasing number order, none of them newer than the
    /// newest that arrived.
    pub open spec fn in_order(self) -> bool {
        &&& forall|i: int, j: int|
            0 <= i < j < self.blocks.len() ==> (#[trigger] self.blocks[i]).block_number < (
            #[trigger] self.blocks[j]).block_number
        &&& self.blocks.len() > 0 ==> self.newest == Some(self.blocks.last().block_number)
    }

    /// Whether the oldest block is complete: a newer block stands behind it.
    pub open spec fn front_complete(self) -> bool {
        self.blocks.len() > 1
    }

    /// The queue without its oldest block.
    pub open spec fn popped(self) -> QueueView<E> {
        QueueView { blocks: self.blocks.drop_first(), newest: self.newest }
    }

    /// The queue after a batch arrived: a newer block is put at the end, more of the block at the
    /// end is put to that block, and anything else comes too late.
    pub open spec fn pushed(self, batch: BatchView<E>) -> QueueView<E> {
        if self.newest is None || self.newest->0 < batch.block_number {
            QueueView { blocks: self.blocks.push(batch), newest: Some(batch.block_number) }
        } else if self.blocks.len() > 0 && self.newest->0 == batch.block_number {
            QueueView {
                blocks: self.blocks.drop_last().push(self.blocks.last().extended(batch)),
                newest: self.newest,
            }
        } else {
            self
        }
    }

    /// Whether an arriving batch is kept.
    pub open spec fn keeps(self, batch: BatchView<E>) -> bool {
        ||| self.newest is None
        ||| self.newest->0 < batch.block_number
        ||| self.blocks.len() > 0 && self.newest->0 == batch.block_number
    }
}

impl<E> View for BatchQueue<E> {
    type V = QueueView<E>;

    closed spec fn view(&self) -> QueueView<E> {
        QueueView { blocks: self.blocks@.map_values(|batch: Batch<E>| batch@), newest: self.newest }
    }
}

impl<E> BatchQueue<E> {
    /// The blocks always stand in order.
    #[verifier::type_invariant]
    pub open spec fn ordered(self) -> bool {
        self@.in_order()
    }

    /// The empty queue.
    pub fn new() -> (queue: BatchQueue<E>)
        ensures
            queue@ == (QueueView::<E> { blocks: Seq::empty(), newest: None }),
            queue@.in_order(),
    {
        let queue = BatchQueue { blocks: VecDeque::new(), newest: None };
        assert(queue@.blocks =~= Seq::<BatchView<E>>::empty());
        queue
    }

    /// How many blocks wait.
    pub fn len(&self) -> (count: usize)
        ensures
            count == self@.blocks.len(),
    {
        self.blocks.len()
    }

    /// The oldest block.
    pub fn front(&self) -> (front: Option<&Batch<E>>)
        ensures
            front is Some <==> self@.blocks.len() > 0,
            front matches Some(batch) ==> batch@ == self@.blocks[0],
    {
        if self.blocks.len() > 0 {
            Some(&self.blocks[0])
        } else {
            None
        }
    }

    /// Whether the oldest block is complete: a newer block stands behind it.
    pub fn is_front_complete(&self) -> (complete: bool)
        ensures
            complete == self@.front_complete(),
    {
        self.blocks.len() > 1
    }

    /// Takes the oldest block out.
    pub fn pop_front(&mut self) -> (front: Option<Batch<E>>)
        ensures
            front is Some <==> old(self)@.blocks.len() > 0,
            front matches Some(batch) ==> batch@ == old(self)@.blocks[0] && final(self)@ == old(self)@.popped(),
            front is None ==> final(self)@ == old(self)@,
            final(self)@.in_order(),
    {
        proof {
            use_type_invariant(&*self);
        }
        let ghost before = *self;
        let mut blocks: VecDeque<Batch<E>> = VecDeque::new();
        std::mem::swap(&mut blocks, &mut self.blocks);
        let front = blocks.pop_front();
        let ghost left = blocks@.map_values(|batch: Batch<E>| batch@);
        proof {
            if front is Some {
                assert(left =~= before@.blocks.drop_first());
                if left.len() > 0 {
                    assert(left.last() == before@.blocks.last());
                }
            } else {
                assert(left =~= before@.blocks);
            }
        }
        self.blocks = blocks;
        front
    }

    /// Takes in a batch, and says whether it was kept.
    pub fn push(&mut self, batch: Batch<E>) -> (kept: bool)
        ensures
            final(self)@ == old(self)@.pushed(batch@),
            final(self)@.in_order(),
            kept == old(self)@.keeps(batch@),
    {
        proof {
            use_type_invariant(&*self);
            lemma_pushed_in_order(self@, batch@);
        }
        let ghost before = *self;
        let number: u64 = batch.block_number();
        let newer = match self.newest {
            Some(newest) => newest < number,
            None => true,
        };
        let same = match self.newest {
            Some(newest) => newest == number,
            None => false,
        };
        if !newer && !same {
            return false;
        }
        let mut blocks: VecDeque<Batch<E>> = VecDeque::new();
        std::mem::swap(&mut blocks, &mut self.blocks);
        if newer {
            blocks.push_back(batch);
            assert(blocks@.map_values(|batch: Batch<E>| batch@) =~= before@.blocks.push(batch@));
            self.newest = Some(number);
            self.blocks = blocks;
            return true;
        }
        match blocks.pop_back() {
            Some(mut last) => {
                last.extend_events(batch);
                blocks.push_back(last);
                assert(blocks@.map_values(|batch: Batch<E>| batch@) =~= before@.blocks.drop_last().push(
                    before@.blocks.last().extended(batch@),
                ));
                self.blocks = blocks;
                true
            },
            None => {
                assert(self@.blocks =~= before@.blocks);
                false
            },
        }
    }
}

/// An arriving batch leaves the blocks in order.
proof fn lemma_pushed_in_order<E>(queue: QueueView<E>, batch: BatchView<E>)
    requires
        queue.in_order(),
    ensures
        queue.pushed(batch).in_order(),
{
}

} // verus!
