//! What the listener tells the connections.

use crate::address::Address;
use crate::address_map::AddressMap;
use crate::book::{L2Snapshots, L4Order, Px};
use crate::key_map::CoinMap;
use crate::node_data::{Batch, BatchView, NodeDataFill, NodeDataOrderDiff, NodeDataOrderStatus};
use vstd::prelude::*;

verus! {

/// The lowest bid and the highest ask among the price levels near the top of a book.
#[derive(Clone, Copy, Debug, PartialEq, Eq)]
pub struct Boundaries {
    pub bid_floor: Option<Px>,
    pub ask_ceiling: Option<Px>,
}

/// A batch of one of the three streams.
pub enum EventBatch {
    Orders(Batch<NodeDataOrderStatus>),
    BookDiffs(Batch<NodeDataOrderDiff>),
    Fills(Batch<NodeDataFill>),
}

/// What a batch of one of the three streams holds.
pub enum EventBatchView {
    Orders(BatchView<NodeDataOrderStatus>),
    BookDiffs(BatchView<NodeDataOrderDiff>),
    Fills(BatchView<NodeDataFill>),
}

impl View for EventBatch {
    type V = EventBatchView;

    open spec fn view(&self) -> EventBatchView {
        match self {
            EventBatch::Orders(batch) => EventBatchView::Orders(batch@),
            EventBatch::BookDiffs(batch) => EventBatchView::BookDiffs(batch@),
            EventBatch::Fills(batch) => EventBatchView::Fills(batch@),
        }
    }
}

/// A message from the listener to every connection.
pub enum InternalMessage {
    Snapshot { l2_snapshots: L2Snapshots, time: u64 },
    Fills { batch: Batch<NodeDataFill> },
    L4BookUpdates { diff_batch: Batch<NodeDataOrderDiff>, price_boundaries: CoinMap<Boundaries> },
    OpenOrdersUpdate { changed_users: AddressMap<Vec<L4Order>> },
    /// Order diffs of a block that may not be complete, forwarded as they arrive.
    StreamingBookDiffs { diffs: Vec<NodeDataOrderDiff>, time: u64, height: u64 },
}

/// What a message holds.
#[verifier::ext_equal]
pub enum MessageView {
    Snapshot { l2_snapshots: L2Snapshots, time: u64 },
    Fills { batch: BatchView<NodeDataFill> },
    L4BookUpdates { diff_batch: BatchView<NodeDataOrderDiff>, price_boundaries: Map<Seq<char>, Boundaries> },
    OpenOrdersUpdate { changed_users: Map<Address, Seq<L4Order>> },
    StreamingBookDiffs { diffs: Seq<NodeDataOrderDiff>, time: u64, height: u64 },
}

impl View for InternalMessage {
    type V = MessageView;

    open spec fn view(&self) -> MessageView {
        match self {
            InternalMessage::Snapshot { l2_snapshots, time } => MessageView::Snapshot {
                l2_snapshots: *l2_snapshots,
                time: *time,
            },
            InternalMessage::Fills { batch } => MessageView::Fills { batch: batch@ },
            InternalMessage::L4BookUpdates { diff_batch, price_boundaries } => MessageView::L4BookUpdates {
                diff_batch: diff_batch@,
                price_boundaries: price_boundaries@,
            },
            InternalMessage::OpenOrdersUpdate { changed_users } => MessageView::OpenOrdersUpdate {
                changed_users: changed_users@.map_values(|row: Vec<L4Order>| row@),
            },
            InternalMessage::StreamingBookDiffs { diffs, time, height } => MessageView::StreamingBookDiffs {
                diffs: diffs@,
                time: *time,
                height: *height,
            },
        }
    }
}

/// What a row of messages holds.
pub open spec fn views(messages: Seq<InternalMessage>) -> Seq<MessageView> {
    messages.map_values(|message: InternalMessage| message@)
}

} // verus!
