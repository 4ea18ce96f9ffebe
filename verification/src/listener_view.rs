//! What the listener knows, and what it makes of what it is given.

use crate::address::Address;
use crate::batch_queue::QueueView;
use crate::blocks::BlockView;
use crate::lines::next_record;
use crate::messages::{Boundaries, EventBatchView, MessageView};
use crate::node_data::{EventSource, NodeDataOrderDiff, NodeDataOrderStatus};
use crate::open_orders::{OrdersByUser, block_tracked, orders_in_row, orders_of};
use vstd::prelude::*;

verus! {

/// What there is to do next.
pub enum NextView {
    Parse(Seq<char>),
    Apply(BlockView),
    Finish,
    Fail(Seq<char>),
}

/// The next step of a start from a snapshot.
pub enum InitView {
    Apply(BlockView),
    Ready,
    Retry,
}

/// Which of the two queues the next block is taken from.
pub enum Choice {
    Wait,
    Both,
    DiffsOnly,
    StatusesOnly,
}

/// Which of the two queues the next block is taken from: the one whose oldest block is older, or
/// both where they are at the same block. Where the streams are written within a block, a block
/// is taken only once a newer one has arrived behind it in each queue that it is taken from.
pub open spec fn choice(
    diffs: QueueView<NodeDataOrderDiff>,
    statuses: QueueView<NodeDataOrderStatus>,
    streaming: bool,
) -> Choice {
    if diffs.blocks.len() == 0 || statuses.blocks.len() == 0 {
        Choice::Wait
    } else {
        let d = diffs.blocks[0].block_number;
        let s = statuses.blocks[0].block_number;
        if d == s {
            if streaming && !(diffs.front_complete() && statuses.front_complete()) {
                Choice::Wait
            } else {
                Choice::Both
            }
        } else if d < s {
            if streaming && !diffs.front_complete() {
                Choice::Wait
            } else {
                Choice::DiffsOnly
            }
        } else {
            if streaming && !statuses.front_complete() {
                Choice::Wait
            } else {
                Choice::StatusesOnly
            }
        }
    }
}

/// What the listener knows. `sending` says whether anyone listens to its messages, and `ready`
/// whether it has a book.
#[verifier::ext_equal]
pub struct ListenerView {
    pub ignore_spot: bool,
    pub streaming: bool,
    pub sending: bool,
    pub ready: bool,
    pub last_fill: Option<u64>,
    pub fills_read: bool,
    pub statuses_read: bool,
    pub diffs_read: bool,
    pub fill_pending: Seq<char>,
    pub order_status_pending: Seq<char>,
    pub order_diff_pending: Seq<char>,
    pub diffs: QueueView<NodeDataOrderDiff>,
    pub statuses: QueueView<NodeDataOrderStatus>,
    pub cache: Option<Seq<BlockView>>,
    pub open: OrdersByUser,
}

impl ListenerView {
    /// Whether both queues are in order.
    pub open spec fn wf(self) -> bool {
        self.diffs.in_order() && self.statuses.in_order()
    }

    /// Which of the two queues the next block is taken from.
    pub open spec fn choice(self) -> Choice {
        choice(self.diffs, self.statuses, self.streaming)
    }

    /// The next block: what the queues have of it, with an empty batch for a stream that has
    /// nothing of it.
    pub open spec fn front_block(self) -> BlockView {
        match self.choice() {
            Choice::DiffsOnly => BlockView {
                statuses: self.diffs.blocks[0].emptied(),
                diffs: self.diffs.blocks[0],
            },
            Choice::StatusesOnly => BlockView {
                statuses: self.statuses.blocks[0],
                diffs: self.statuses.blocks[0].emptied(),
            },
            _ => BlockView { statuses: self.statuses.blocks[0], diffs: self.diffs.blocks[0] },
        }
    }

    /// The listener after the next block has been taken.
    pub open spec fn popped(self) -> ListenerView {
        match self.choice() {
            Choice::Wait => self,
            Choice::Both => ListenerView {
                diffs: self.diffs.popped(),
                statuses: self.statuses.popped(),
                ..self
            },
            Choice::DiffsOnly => ListenerView { diffs: self.diffs.popped(), ..self },
            Choice::StatusesOnly => ListenerView { statuses: self.statuses.popped(), ..self },
        }
    }

    /// Whether fills of block `n` are new: no fills of a newer block have arrived, nor of the same
    /// block unless the streams are written within a block.
    pub open spec fn new_fills(self, n: u64) -> bool {
        match self.last_fill {
            Some(last) => last < n || self.streaming && last == n,
            None => true,
        }
    }

    /// The listener after a batch has arrived. Of fills only the number of the newest block is kept.
    pub open spec fn received(self, batch: EventBatchView) -> ListenerView {
        match batch {
            EventBatchView::Orders(orders) => ListenerView { statuses: self.statuses.pushed(orders), ..self },
            EventBatchView::BookDiffs(diffs) => ListenerView { diffs: self.diffs.pushed(diffs), ..self },
            EventBatchView::Fills(fills) => if self.new_fills(fills.block_number) {
                ListenerView { last_fill: Some(fills.block_number), ..self }
            } else {
                self
            },
        }
    }

    /// What is told at once when a batch arrives: diffs where the streams are written within a
    /// block, and fills that are new.
    pub open spec fn announced(self, batch: EventBatchView) -> Seq<MessageView> {
        match batch {
            EventBatchView::BookDiffs(diffs) if self.sending && self.streaming => seq![
                MessageView::StreamingBookDiffs {
                    diffs: diffs.events,
                    time: diffs.block_time.millis() as u64,
                    height: diffs.block_number,
                },
            ],
            EventBatchView::Fills(fills) if self.sending && self.new_fills(fills.block_number) => seq![
                MessageView::Fills { batch: fills },
            ],
            _ => Seq::empty(),
        }
    }

    /// Whether a batch can be received: where its time will be told, it has one.
    pub open spec fn can_receive(self, batch: EventBatchView) -> bool {
        self.sending && self.streaming ==> (batch matches EventBatchView::BookDiffs(diffs) ==> diffs.dated())
    }

    /// The listener after a block has gone into the book: the block is kept where blocks are
    /// being kept, and the open orders follow it.
    pub open spec fn applied(self, block: BlockView) -> ListenerView {
        ListenerView {
            cache: match self.cache {
                Some(kept) => Some(kept.push(block)),
                None => None,
            },
            ..self.followed(block)
        }
    }

    /// The listener with its open orders brought up to date with a block.
    pub open spec fn followed(self, block: BlockView) -> ListenerView {
        ListenerView {
            open: block_tracked(self.open, block.statuses.events, block.diffs.events).open,
            ..self
        }
    }

    /// What is told of a block that has gone into the book: its diffs, and the open orders of
    /// every user that it touched.
    pub open spec fn told(self, block: BlockView, boundaries: Map<Seq<char>, Boundaries>) -> Seq<MessageView> {
        let after = block_tracked(self.open, block.statuses.events, block.diffs.events);
        let updates = MessageView::L4BookUpdates { diff_batch: block.diffs, price_boundaries: boundaries };
        if !self.sending {
            Seq::empty()
        } else if after.changed =~= Set::<Address>::empty() {
            seq![updates]
        } else {
            seq![
                updates,
                MessageView::OpenOrdersUpdate {
                    changed_users: Map::new(
                        |user: Address| after.changed.contains(user),
                        |user: Address| orders_in_row(orders_of(after.open, user)),
                    ),
                },
            ]
        }
    }

    /// The next step of a start from a snapshot, where `fits` says whether the last block went into
    /// the book that is being built.
    pub open spec fn init_next(self, fits: bool) -> (ListenerView, InitView) {
        if !fits {
            (ListenerView { open: OrdersByUser::empty(), ..self }, InitView::Retry)
        } else if self.choice() is Wait {
            (ListenerView { ready: true, ..self }, InitView::Ready)
        } else {
            (self.popped().followed(self.front_block()), InitView::Apply(self.front_block()))
        }
    }

    /// The text of a stream that has not been read.
    pub open spec fn pending(self, source: EventSource) -> Seq<char> {
        match source {
            EventSource::Fills => self.fill_pending,
            EventSource::OrderStatuses => self.order_status_pending,
            EventSource::OrderDiffs => self.order_diff_pending,
        }
    }

    /// The listener with another text of a stream that has not been read.
    pub open spec fn with_pending(self, source: EventSource, text: Seq<char>) -> ListenerView {
        match source {
            EventSource::Fills => ListenerView { fill_pending: text, ..self },
            EventSource::OrderStatuses => ListenerView { order_status_pending: text, ..self },
            EventSource::OrderDiffs => ListenerView { order_diff_pending: text, ..self },
        }
    }

    /// Whether a file of the stream is being read.
    pub open spec fn reading(self, source: EventSource) -> bool {
        match source {
            EventSource::Fills => self.fills_read,
            EventSource::OrderStatuses => self.statuses_read,
            EventSource::OrderDiffs => self.diffs_read,
        }
    }

    /// What comes next where the lines of a stream are read on.
    pub open spec fn next_in_lines(self, source: EventSource) -> (ListenerView, NextView) {
        let (line, rest) = next_record(self.pending(source));
        (
            self.with_pending(source, rest),
            match line {
                Some(text) => NextView::Parse(text),
                None => NextView::Finish,
            },
        )
    }

    /// What comes next where blocks are taken before the lines of a stream are read on: a block
    /// goes into the book once there is a book.
    pub open spec fn next_in_blocks(self, source: EventSource) -> (ListenerView, NextView) {
        if self.ready && !(self.choice() is Wait) {
            (self.popped(), NextView::Apply(self.front_block()))
        } else {
            self.next_in_lines(source)
        }
    }

    /// The listener once a file of the stream is being read from a fresh start.
    pub open spec fn started(self, source: EventSource) -> ListenerView {
        let fresh = self.with_pending(source, Seq::empty());
        match source {
            EventSource::Fills => ListenerView { fills_read: true, ..fresh },
            EventSource::OrderStatuses => ListenerView { statuses_read: true, ..fresh },
            EventSource::OrderDiffs => ListenerView { diffs_read: true, ..fresh },
        }
    }
}

} // verus!
