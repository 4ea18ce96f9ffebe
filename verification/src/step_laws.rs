//! What each single step of the listener and the watch does, and what it leaves alone.

use crate::address::Address;
use crate::blocks::{Block, BlockView, block_views};
use crate::listener::{InitStep, Next};
use crate::listener_view::{InitView, ListenerView, NextView};
use crate::messages::{Boundaries, EventBatch, EventBatchView, InternalMessage, MessageView, views};
use crate::node_data::{BatchView, EventSource, NodeDataFill, NodeDataOrderDiff, NodeDataOrderStatus};
use crate::open_orders::{block_tracked, orders_in_row, orders_of};
use crate::watch::{
    ActionView, FileEvent, ReplayStep, ReplayView, Wakeup, WatchAction, height_view, reaction, read_complaint, replay_next,
};
use vstd::prelude::*;

verus! {

/// The number of the oldest block that waits in either queue.
pub open spec fn oldest(listener: ListenerView) -> u64 {
    let d = listener.diffs.blocks[0].block_number;
    let s = listener.statuses.blocks[0].block_number;
    if d < s {
        d
    } else {
        s
    }
}

/// A block can be taken exactly where both queues hold one and, where the streams are written within
/// a block, every queue that the oldest block stands in holds two or more. The block is taken from
/// every queue that it stands in.
pub proof fn law_when_a_block_is_taken(listener: ListenerView)
    ensures
        !(listener.choice() is Wait) <==> {
            &&& listener.diffs.blocks.len() > 0
            &&& listener.statuses.blocks.len() > 0
            &&& listener.streaming ==> {
                &&& listener.diffs.blocks[0].block_number == oldest(listener) ==> listener.diffs.blocks.len() >= 2
                &&& listener.statuses.blocks[0].block_number == oldest(listener) ==> listener.statuses.blocks.len()
                    >= 2
            }
        },
{
}

/// The block that is taken is the oldest: of each stream it holds what waits of it, taken out of the
/// queue; a stream that has nothing of it brings no events, and keeps its queue. Nothing else of the
/// listener changes.
pub proof fn law_what_a_taken_block_holds(listener: ListenerView)
    requires
        !(listener.choice() is Wait),
    ensures
        ({
            let block = listener.front_block();
            let after = listener.popped();
            &&& block.diffs.block_number == oldest(listener)
            &&& block.statuses.block_number == oldest(listener)
            &&& if listener.diffs.blocks[0].block_number == oldest(listener) {
                &&& block.diffs == listener.diffs.blocks[0]
                &&& listener.diffs.blocks == seq![block.diffs] + after.diffs.blocks
                &&& after.diffs.newest == listener.diffs.newest
            } else {
                &&& block.diffs.events.len() == 0
                &&& block.diffs.block_time == block.statuses.block_time
                &&& block.diffs.local_time == block.statuses.local_time
                &&& after.diffs == listener.diffs
            }
            &&& if listener.statuses.blocks[0].block_number == oldest(listener) {
                &&& block.statuses == listener.statuses.blocks[0]
                &&& listener.statuses.blocks == seq![block.statuses] + after.statuses.blocks
                &&& after.statuses.newest == listener.statuses.newest
            } else {
                &&& block.statuses.events.len() == 0
                &&& block.statuses.block_time == block.diffs.block_time
                &&& block.statuses.local_time == block.diffs.local_time
                &&& after.statuses == listener.statuses
            }
            &&& after == (ListenerView { diffs: after.diffs, statuses: after.statuses, ..listener })
        }),
{
    let block = listener.front_block();
    let after = listener.popped();
    if listener.diffs.blocks[0].block_number == oldest(listener) {
        assert(listener.diffs.blocks =~= seq![block.diffs] + after.diffs.blocks);
    }
    if listener.statuses.blocks[0].block_number == oldest(listener) {
        assert(listener.statuses.blocks =~= seq![block.statuses] + after.statuses.blocks);
    }
}

/// A waiting listener takes no block and stays as it is.
pub proof fn law_waiting_changes_nothing(listener: ListenerView)
    requires
        listener.choice() is Wait,
    ensures
        listener.popped() == listener,
{
}

/// An arriving batch goes to the queue of its own stream, and changes nothing else.
pub proof fn law_batches_go_to_their_own_queue(
    listener: ListenerView,
    orders: BatchView<NodeDataOrderStatus>,
    diffs: BatchView<NodeDataOrderDiff>,
)
    ensures
        listener.received(EventBatchView::Orders(orders)) == (ListenerView {
            statuses: listener.statuses.pushed(orders),
            ..listener
        }),
        listener.received(EventBatchView::BookDiffs(diffs)) == (ListenerView {
            diffs: listener.diffs.pushed(diffs),
            ..listener
        }),
        listener.announced(EventBatchView::Orders(orders)).len() == 0,
{
}

/// Fills are new where none have arrived, where those that have are of older blocks, and where they
/// are of the same block and the streams are written within a block. New fills are remembered, and
/// told where someone listens; others change nothing and are not told.
pub proof fn law_fills_are_told_while_they_are_new(listener: ListenerView, fills: BatchView<NodeDataFill>)
    ensures
        ({
            let n = fills.block_number;
            let after = listener.received(EventBatchView::Fills(fills));
            let told = listener.announced(EventBatchView::Fills(fills));
            if listener.last_fill is None || n > listener.last_fill->0 || n == listener.last_fill->0
                && listener.streaming {
                &&& after == (ListenerView { last_fill: Some(n), ..listener })
                &&& told == if listener.sending {
                    seq![MessageView::Fills { batch: fills }]
                } else {
                    Seq::empty()
                }
            } else {
                after == listener && told.len() == 0
            }
        }),
{
}

/// Arriving diffs are told at once exactly where someone listens and the streams are written within a
/// block: all of them, with their block's time and number.
pub proof fn law_arriving_diffs_are_told_while_streaming(
    listener: ListenerView,
    batch: BatchView<NodeDataOrderDiff>,
)
    ensures
        ({
            let told = listener.announced(EventBatchView::BookDiffs(batch));
            if listener.sending && listener.streaming {
                &&& told.len() == 1
                &&& told[0] matches MessageView::StreamingBookDiffs { diffs, time, height } && {
                    &&& diffs == batch.events
                    &&& height == batch.block_number
                    &&& batch.dated() ==> time == batch.block_time.millis()
                }
            } else {
                told.len() == 0
            }
        }),
{
    if batch.dated() {
        assert(batch.block_time.millis() <= u64::MAX);
    }
}

/// A block that goes into the book is kept behind the others where blocks are being kept, and the open
/// orders follow it. Nothing else of the listener changes.
pub proof fn law_what_a_block_in_the_book_changes(listener: ListenerView, block: BlockView)
    ensures
        ({
            let after = listener.applied(block);
            &&& after == (ListenerView { cache: after.cache, open: after.open, ..listener })
            &&& listener.cache is None ==> after.cache is None
            &&& listener.cache is Some ==> after.cache is Some && after.cache->0 == listener.cache->0 + seq![block]
            &&& after.open == block_tracked(listener.open, block.statuses.events, block.diffs.events).open
            &&& listener.followed(block) == (ListenerView { open: after.open, ..listener })
        }),
{
    if listener.cache is Some {
        assert(listener.applied(block).cache->0 =~= listener.cache->0 + seq![block]);
    }
}

/// Of a block that has gone into the book, its diffs are told first, with the book's boundaries; then,
/// where it touched anyone, the open orders of exactly those users, as the block leaves them. Where
/// nobody listens, nothing is told.
pub proof fn law_what_is_told_of_a_block(
    listener: ListenerView,
    block: BlockView,
    boundaries: Map<Seq<char>, Boundaries>,
)
    ensures
        ({
            let told = listener.told(block, boundaries);
            let changed = block_tracked(listener.open, block.statuses.events, block.diffs.events).changed;
            if !listener.sending {
                told.len() == 0
            } else {
                &&& told.len() >= 1
                &&& told[0] == (MessageView::L4BookUpdates {
                    diff_batch: block.diffs,
                    price_boundaries: boundaries,
                })
                &&& told.len() == 1 <==> (forall|user: Address| !#[trigger] changed.contains(user))
                &&& told.len() <= 2
                &&& told.len() == 2 ==> (told[1] matches MessageView::OpenOrdersUpdate { changed_users } && {
                    &&& forall|user: Address| #[trigger]
                        changed_users.contains_key(user) <==> changed.contains(user)
                    &&& forall|user: Address| #[trigger]
                        changed_users.contains_key(user) ==> changed_users[user] == orders_in_row(
                            orders_of(listener.applied(block).open, user),
                        )
                })
            }
        }),
{
    let changed = block_tracked(listener.open, block.statuses.events, block.diffs.events).changed;
    if forall|user: Address| !#[trigger] changed.contains(user) {
        assert(changed =~= Set::<Address>::empty());
    }
}

/// Another unread text of one stream is that stream's, and changes nothing else of the listener.
pub proof fn law_unread_texts_are_kept_apart(
    listener: ListenerView,
    source: EventSource,
    other: EventSource,
    text: Seq<char>,
)
    ensures
        ({
            let after = listener.with_pending(source, text);
            &&& after.pending(source) == text
            &&& other != source ==> after.pending(other) == listener.pending(other)
            &&& after.reading(other) == listener.reading(other)
            &&& after == (ListenerView {
                fill_pending: after.fill_pending,
                order_status_pending: after.order_status_pending,
                order_diff_pending: after.order_diff_pending,
                ..listener
            })
        }),
{
}

/// A file that is read from a fresh start is read, without unread text; the other streams and
/// everything else stay as they were.
pub proof fn law_a_fresh_start_concerns_one_stream(listener: ListenerView, source: EventSource, other: EventSource)
    ensures
        ({
            let after = listener.started(source);
            &&& after.reading(source)
            &&& after.pending(source).len() == 0
            &&& other != source ==> after.reading(other) == listener.reading(other) && after.pending(other)
                == listener.pending(other)
            &&& after == (ListenerView {
                fills_read: after.fills_read,
                statuses_read: after.statuses_read,
                diffs_read: after.diffs_read,
                fill_pending: after.fill_pending,
                order_status_pending: after.order_status_pending,
                order_diff_pending: after.order_diff_pending,
                ..listener
            })
        }),
{
}

/// Where there is a book and a block can be taken, the block comes next; otherwise the next line of the
/// stream. Reading a line changes nothing but that stream's unread text.
pub proof fn law_blocks_come_before_lines(listener: ListenerView, source: EventSource)
    ensures
        listener.ready && !(listener.choice() is Wait) ==> listener.next_in_blocks(source) == (
            listener.popped(),
            NextView::Apply(listener.front_block()),
        ),
        !listener.ready || listener.choice() is Wait ==> listener.next_in_blocks(source) == listener.next_in_lines(
            source,
        ),
        ({
            let (after, next) = listener.next_in_lines(source);
            &&& after == listener.with_pending(source, after.pending(source))
            &&& next is Parse || next is Finish
        }),
{
    let (after, next) = listener.next_in_lines(source);
    assert(after =~= listener.with_pending(source, after.pending(source)));
}

/// A start goes on with the next block that can be taken, which the open orders follow; it is ready
/// exactly where none is left, and is given up exactly where the last block did not go in.
pub proof fn law_how_a_start_goes_on(listener: ListenerView, fits: bool)
    ensures
        ({
            let (after, step) = listener.init_next(fits);
            match step {
                InitView::Retry => {
                    &&& !fits
                    &&& after.open.dom() == Set::<Address>::empty()
                    &&& after == (ListenerView { open: after.open, ..listener })
                },
                InitView::Ready => {
                    &&& fits && listener.choice() is Wait
                    &&& after == (ListenerView { ready: true, ..listener })
                },
                InitView::Apply(block) => {
                    &&& fits && !(listener.choice() is Wait)
                    &&& block == listener.front_block()
                    &&& after.open == block_tracked(
                        listener.open,
                        block.statuses.events,
                        block.diffs.events,
                    ).open
                    &&& after == (ListenerView { open: after.open, ..listener.popped() })
                },
            }
        }),
{
    if !fits {
        assert(listener.init_next(fits).0.open.dom() =~= Set::<Address>::empty());
    }
}

/// What is done about a change in the watched directories: nothing where nothing was created or
/// modified; a directory is watched too; a file below a stream's directory is read for that stream,
/// order statuses before fills before order diffs.
pub proof fn law_what_a_change_leads_to(node: Seq<char>, event: FileEvent)
    ensures
        ({
            let action = reaction(node, Wakeup::Changed(event));
            let new = event.created || event.modified;
            &&& !new ==> action is Wait
            &&& action is WatchDirectory <==> new && event.is_dir
            &&& action is Read <==> new && !event.is_dir && event.is_file && (event.under_order_statuses
                || event.under_fills || event.under_order_diffs)
            &&& action matches ActionView::Read { source, created } ==> {
                &&& created == event.created
                &&& source == EventSource::OrderStatuses <==> event.under_order_statuses
                &&& source == EventSource::Fills <==> !event.under_order_statuses && event.under_fills
            }
            &&& action is Wait || action is WatchDirectory || action is Read
        }),
{
}

/// Snapshots are fetched exactly when they are due, and the watch goes on after a fetch that succeeded.
pub proof fn law_when_snapshots_are_fetched(node: Seq<char>, wakeup: Wakeup)
    ensures
        reaction(node, wakeup) is FetchSnapshot <==> wakeup is SnapshotDue,
        reaction(node, Wakeup::FetchEnded(Ok(()))) is Wait,
        wakeup is WatcherFailed || wakeup is WatcherGone || wakeup is FetchersGone ==> reaction(node, wakeup) is GiveUp,
{
}

/// How a replay goes on: below the snapshot's height with the oldest block that was kept, at its height
/// to the comparison, and otherwise to a report of failure, which hands on why a block did not go in.
pub proof fn law_how_a_replay_goes_on(kept: Seq<BlockView>, height: Result<u64, Seq<char>>, snapshot_height: u64)
    ensures
        ({
            let step = replay_next(kept, height, snapshot_height);
            &&& step is Compare <==> height is Ok && height->Ok_0 == snapshot_height
            &&& step is Apply <==> height is Ok && height->Ok_0 < snapshot_height && kept.len() > 0
            &&& step matches ReplayView::Apply(block) ==> block == kept[0]
            &&& step matches ReplayView::Report(outcome) ==> outcome is Err
            &&& height matches Err(reason) ==> step == ReplayView::Report(Err(reason))
        }),
{
}

/// The views of what the listener hands out hold every part of it in its own place.
pub proof fn law_messages_are_seen_whole(message: InternalMessage, batch: EventBatch, block: Block)
    ensures
        match message {
            InternalMessage::Snapshot { l2_snapshots, time } => message@ == (MessageView::Snapshot {
                l2_snapshots,
                time,
            }),
            InternalMessage::Fills { batch } => message@ == (MessageView::Fills { batch: batch@ }),
            InternalMessage::L4BookUpdates { diff_batch, price_boundaries } => message@ == (
            MessageView::L4BookUpdates { diff_batch: diff_batch@, price_boundaries: price_boundaries@ }),
            InternalMessage::OpenOrdersUpdate { changed_users } => {
                message@ matches MessageView::OpenOrdersUpdate { changed_users: seen } && {
                    &&& seen.dom() == changed_users@.dom()
                    &&& forall|user: Address| #[trigger]
                        seen.contains_key(user) ==> seen[user] == changed_users@[user]@
                }
            },
            InternalMessage::StreamingBookDiffs { diffs, time, height } => message@ == (
            MessageView::StreamingBookDiffs { diffs: diffs@, time, height }),
        },
        match batch {
            EventBatch::Orders(orders) => batch@ == EventBatchView::Orders(orders@),
            EventBatch::BookDiffs(diffs) => batch@ == EventBatchView::BookDiffs(diffs@),
            EventBatch::Fills(fills) => batch@ == EventBatchView::Fills(fills@),
        },
        block@.statuses == block.statuses@,
        block@.diffs == block.diffs@,
{
    if let InternalMessage::OpenOrdersUpdate { changed_users } = message {
        if let MessageView::OpenOrdersUpdate { changed_users: seen } = message@ {
            assert(seen.dom() =~= changed_users@.dom());
        }
    }
}

/// The views of the steps that are handed out hold every part of them.
pub proof fn law_steps_are_seen_whole(next: Next, start: InitStep, replay: ReplayStep, action: WatchAction)
    ensures
        match next {
            Next::Parse(line) => next@ == NextView::Parse(line@),
            Next::Apply(block) => next@ == NextView::Apply(block@),
            Next::Finish => next@ is Finish,
            Next::Fail(complaint) => next@ == NextView::Fail(complaint@),
        },
        match start {
            InitStep::Apply(block) => start@ == InitView::Apply(block@),
            InitStep::Ready => start@ is Ready,
            InitStep::Retry => start@ is Retry,
        },
        match replay {
            ReplayStep::Apply(block) => replay@ == ReplayView::Apply(block@),
            ReplayStep::Report(Ok(_)) => replay@ == ReplayView::Report(Ok(())),
            ReplayStep::Report(Err(reason)) => replay@ == ReplayView::Report(Err(reason@)),
            ReplayStep::Compare => replay@ is Compare,
        },
        match action {
            WatchAction::Wait => action@ is Wait,
            WatchAction::WatchDirectory => action@ is WatchDirectory,
            WatchAction::Read { source, created } => action@ == (ActionView::Read { source, created }),
            WatchAction::FetchSnapshot => action@ is FetchSnapshot,
            WatchAction::GiveUp(reason) => action@ == ActionView::GiveUp(reason@),
        },
{
}

/// A row of blocks, or of messages, is seen one by one, in the same order; and the height of a copy of
/// the book, or why a block did not go into it, as it is.
pub proof fn law_rows_are_seen_one_by_one(
    blocks: Seq<Block>,
    messages: Seq<InternalMessage>,
    height: Result<u64, String>,
)
    ensures
        block_views(blocks).len() == blocks.len(),
        forall|i: int| 0 <= i < blocks.len() ==> #[trigger] block_views(blocks)[i] == blocks[i]@,
        views(messages).len() == messages.len(),
        forall|i: int| 0 <= i < messages.len() ==> #[trigger] views(messages)[i] == messages[i]@,
        height matches Ok(at) ==> height_view(height) == Ok::<u64, Seq<char>>(at),
        height matches Err(reason) ==> height_view(height) == Err::<u64, Seq<char>>(reason@),
{
}

/// Every batch can be received, but for diffs without a proper time that would have to be told at once.
pub proof fn law_which_batches_can_be_received(listener: ListenerView, batch: EventBatchView)
    ensures
        !listener.can_receive(batch) <==> {
            &&& listener.sending && listener.streaming
            &&& batch is BookDiffs
            &&& !batch->BookDiffs_0.dated()
        },
{
}

/// What is said of a failure hands on its reason, whatever the reason is.
pub proof fn law_failures_hand_on_their_reason(node: Seq<char>, reason: String)
    ensures
        reaction(node, Wakeup::WatcherFailed(reason)) == ActionView::GiveUp("Watcher error: "@ + reason@),
        reaction(node, Wakeup::FetchEnded(Err(reason))) == ActionView::GiveUp("Abci state reading error: "@ + reason@),
        read_complaint(EventSource::OrderStatuses, reason@) == "Order status processing error: "@ + reason@,
        read_complaint(EventSource::Fills, reason@) == "Fill update processing error: "@ + reason@,
        read_complaint(EventSource::OrderDiffs, reason@) == "Book diff processing error: "@ + reason@,
{
}

} // verus!
