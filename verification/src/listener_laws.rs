//! What holds of the listener whatever the node writes.

use crate::batch_queue::QueueView;
use crate::blocks::BlockView;
use crate::lines::{
    law_line_feed_leaves_nothing, law_next_line_is_the_first, law_next_line_with_more, law_tail_holds_no_line,
    lemma_line_end, line_end, records, tail,
};
use crate::listener_view::{Choice, InitView, ListenerView, NextView};
use crate::messages::{Boundaries, EventBatchView, MessageView};
use crate::node_data::{BatchView, EventSource, NodeDataFill, NodeDataOrderDiff, NodeDataOrderStatus};
use crate::open_orders::{OrdersByUser, block_tracked};
use vstd::prelude::*;

verus! {

/// What can happen to the queues.
pub enum QueueEvent {
    /// A batch arrives.
    Arrives(EventBatchView),
    /// The next block is taken, where one can be taken.
    Take,
}

/// The listener after a row of events, and the blocks that were taken meanwhile.
pub open spec fn run(listener: ListenerView, events: Seq<QueueEvent>) -> (ListenerView, Seq<BlockView>)
    decreases events.len(),
{
    if events.len() == 0 {
        (listener, Seq::empty())
    } else {
        let (before, taken) = run(listener, events.drop_last());
        match events.last() {
            QueueEvent::Arrives(batch) => (before.received(batch), taken),
            QueueEvent::Take => if before.choice() is Wait {
                (before, taken)
            } else {
                (before.popped(), taken.push(before.front_block()))
            },
        }
    }
}

/// Whether a queue is past block `n`: what waits in it is newer, and so is what it will let in.
pub open spec fn queue_past<E>(queue: QueueView<E>, n: u64) -> bool {
    &&& forall|i: int| 0 <= i < queue.blocks.len() ==> (#[trigger] queue.blocks[i]).block_number > n
    &&& queue.newest is Some
    &&& queue.newest->0 >= n
}

/// Whether both queues are past block `n`.
pub open spec fn past(listener: ListenerView, n: u64) -> bool {
    queue_past(listener.diffs, n) && queue_past(listener.statuses, n)
}

/// The two parts of a block that is taken are of the same block, and once it has been taken both
/// queues are past it.
pub proof fn law_earliest_block_is_taken(listener: ListenerView)
    requires
        listener.wf(),
        !(listener.choice() is Wait),
    ensures
        ({
            let block = listener.front_block();
            &&& block.statuses.block_number == block.diffs.block_number
            &&& past(listener.popped(), block.diffs.block_number)
            &&& listener.popped().wf()
            &&& forall|i: int|
                0 <= i < listener.diffs.blocks.len() ==> block.diffs.block_number <= (
                #[trigger] listener.diffs.blocks[i]).block_number
            &&& forall|i: int|
                0 <= i < listener.statuses.blocks.len() ==> block.diffs.block_number <= (
                #[trigger] listener.statuses.blocks[i]).block_number
        }),
{
    lemma_popped_in_order(listener.diffs);
    lemma_popped_in_order(listener.statuses);
}

proof fn lemma_popped_in_order<E>(queue: QueueView<E>)
    requires
        queue.in_order(),
        queue.blocks.len() > 0,
    ensures
        queue.popped().in_order(),
{
    let left = queue.popped();
    if left.blocks.len() > 0 {
        assert(left.blocks.last() == queue.blocks.last());
    }
}

/// A batch of a block that the queues are past is dropped, and so are fills that are not new.
pub proof fn law_late_batch_changes_nothing(listener: ListenerView, n: u64, batch: EventBatchView)
    requires
        listener.wf(),
        past(listener, n),
        match batch {
            EventBatchView::Orders(orders) => orders.block_number <= n,
            EventBatchView::BookDiffs(diffs) => diffs.block_number <= n,
            EventBatchView::Fills(fills) => !listener.new_fills(fills.block_number),
        },
    ensures
        listener.received(batch) == listener,
{
}

/// Where the streams are written within a block, a block is taken from a queue only once a newer
/// one stands behind it.
pub proof fn law_streamed_blocks_are_complete(listener: ListenerView)
    requires
        listener.wf(),
        listener.streaming,
        !(listener.choice() is Wait),
    ensures
        listener.choice() is Both || listener.choice() is DiffsOnly ==> {
            &&& listener.popped().diffs.blocks.len() > 0
            &&& listener.popped().diffs.blocks[0].block_number > listener.front_block().diffs.block_number
        },
        listener.choice() is Both || listener.choice() is StatusesOnly ==> {
            &&& listener.popped().statuses.blocks.len() > 0
            &&& listener.popped().statuses.blocks[0].block_number > listener.front_block().statuses.block_number
        },
{
}

/// Where the streams are written by block, a block can be taken as soon as both queues hold one.
pub proof fn law_whole_blocks_do_not_wait(listener: ListenerView)
    requires
        !listener.streaming,
    ensures
        listener.choice() is Wait <==> listener.diffs.blocks.len() == 0 || listener.statuses.blocks.len() == 0,
{
}

proof fn lemma_arrival<E>(queue: QueueView<E>, batch: BatchView<E>, n: u64)
    requires
        queue.in_order(),
    ensures
        queue.pushed(batch).in_order(),
        queue_past(queue, n) ==> queue_past(queue.pushed(batch), n),
{
    let after = queue.pushed(batch);
    assert forall|i: int, j: int| 0 <= i < j < after.blocks.len() implies (#[trigger] after.blocks[i]).block_number < (
    #[trigger] after.blocks[j]).block_number by {
        if j < queue.blocks.len() {
            assert(queue.blocks[i].block_number < queue.blocks[j].block_number);
        } else if queue.blocks.len() > 0 {
            assert(queue.blocks[i].block_number <= queue.blocks[queue.blocks.len() - 1].block_number);
        }
    }
    if queue_past(queue, n) {
        assert forall|i: int| 0 <= i < after.blocks.len() implies (#[trigger] after.blocks[i]).block_number > n by {
            if i < queue.blocks.len() {
                assert(queue.blocks[i].block_number > n);
            }
        }
    }
}

/// What holds after any row of events.
proof fn lemma_run(listener: ListenerView, events: Seq<QueueEvent>)
    requires
        listener.wf(),
    ensures
        ({
            let (after, taken) = run(listener, events);
            &&& after.wf()
            &&& taken.len() > 0 ==> past(after, taken.last().diffs.block_number)
            &&& forall|i: int|
                0 <= i < taken.len() ==> (#[trigger] taken[i]).statuses.block_number == taken[i].diffs.block_number
            &&& forall|i: int, j: int|
                0 <= i < j < taken.len() ==> (#[trigger] taken[i]).diffs.block_number < (
                #[trigger] taken[j]).diffs.block_number
        }),
    decreases events.len(),
{
    if events.len() > 0 {
        lemma_run(listener, events.drop_last());
        let (before, taken) = run(listener, events.drop_last());
        match events.last() {
            QueueEvent::Arrives(batch) => {
                let n = taken.last().diffs.block_number;
                match batch {
                    EventBatchView::Orders(orders) => lemma_arrival(before.statuses, orders, n),
                    EventBatchView::BookDiffs(diffs) => lemma_arrival(before.diffs, diffs, n),
                    EventBatchView::Fills(_) => {},
                }
            },
            QueueEvent::Take => {
                if !(before.choice() is Wait) {
                    law_earliest_block_is_taken(before);
                    let block = before.front_block();
                    let now = taken.push(block);
                    assert forall|i: int, j: int| 0 <= i < j < now.len() implies (
                    #[trigger] now[i]).diffs.block_number < (#[trigger] now[j]).diffs.block_number by {
                        if j == taken.len() {
                            let last = taken.len() - 1;
                            assert(taken[last].diffs.block_number < block.diffs.block_number) by {
                                match before.choice() {
                                    Choice::StatusesOnly => {
                                        assert(before.statuses.blocks[0].block_number > taken.last().diffs.block_number);
                                    },
                                    _ => {
                                        assert(before.diffs.blocks[0].block_number > taken.last().diffs.block_number);
                                    },
                                }
                            }
                            if i < last {
                                assert(taken[i].diffs.block_number < taken[last].diffs.block_number);
                            }
                        }
                    }
                }
            },
        }
    }
}

/// Whatever arrives and whenever blocks are taken: no block is taken twice, each block that is
/// taken is newer than those before it, and its two parts are of the same block.
pub proof fn law_blocks_are_taken_in_order(listener: ListenerView, events: Seq<QueueEvent>)
    requires
        listener.wf(),
    ensures
        ({
            let taken = run(listener, events).1;
            &&& forall|i: int|
                0 <= i < taken.len() ==> (#[trigger] taken[i]).statuses.block_number == taken[i].diffs.block_number
            &&& forall|i: int, j: int|
                0 <= i < j < taken.len() ==> (#[trigger] taken[i]).diffs.block_number < (
                #[trigger] taken[j]).diffs.block_number
        }),
{
    lemma_run(listener, events);
}

/// The events of a row of batches, one batch after the other.
pub open spec fn flow<E>(batches: Seq<BatchView<E>>) -> Seq<E>
    decreases batches.len(),
{
    if batches.len() == 0 {
        Seq::empty()
    } else {
        flow(batches.drop_last()) + batches.last().events
    }
}

/// The diffs of a row of blocks.
pub open spec fn diffs_in(blocks: Seq<BlockView>) -> Seq<NodeDataOrderDiff> {
    flow(blocks.map_values(|block: BlockView| block.diffs))
}

/// The statuses of a row of blocks.
pub open spec fn statuses_in(blocks: Seq<BlockView>) -> Seq<NodeDataOrderStatus> {
    flow(blocks.map_values(|block: BlockView| block.statuses))
}

/// The diffs that were let in while a row of events happened.
pub open spec fn diffs_let_in(listener: ListenerView, events: Seq<QueueEvent>) -> Seq<NodeDataOrderDiff>
    decreases events.len(),
{
    if events.len() == 0 {
        Seq::empty()
    } else {
        let earlier = diffs_let_in(listener, events.drop_last());
        match events.last() {
            QueueEvent::Arrives(EventBatchView::BookDiffs(batch)) if run(
                listener,
                events.drop_last(),
            ).0.diffs.keeps(batch) => earlier + batch.events,
            _ => earlier,
        }
    }
}

/// The statuses that were let in while a row of events happened.
pub open spec fn statuses_let_in(listener: ListenerView, events: Seq<QueueEvent>) -> Seq<NodeDataOrderStatus>
    decreases events.len(),
{
    if events.len() == 0 {
        Seq::empty()
    } else {
        let earlier = statuses_let_in(listener, events.drop_last());
        match events.last() {
            QueueEvent::Arrives(EventBatchView::Orders(batch)) if run(
                listener,
                events.drop_last(),
            ).0.statuses.keeps(batch) => earlier + batch.events,
            _ => earlier,
        }
    }
}

proof fn lemma_flow_push<E>(batches: Seq<BatchView<E>>, batch: BatchView<E>)
    ensures
        flow(batches.push(batch)) == flow(batches) + batch.events,
{
    assert(batches.push(batch).drop_last() =~= batches);
}

proof fn lemma_flow_first<E>(batches: Seq<BatchView<E>>)
    requires
        batches.len() > 0,
    ensures
        flow(batches) == batches[0].events + flow(batches.drop_first()),
    decreases batches.len(),
{
    let rest = batches.drop_first();
    if rest.len() == 0 {
        assert(flow(batches.drop_last()) =~= Seq::<E>::empty());
        assert(flow(rest) =~= Seq::<E>::empty());
        assert(flow(batches) =~= batches[0].events + flow(rest));
    } else {
        lemma_flow_first(batches.drop_last());
        assert(batches.drop_last().drop_first() =~= rest.drop_last());
        assert(flow(batches) =~= batches[0].events + flow(rest));
    }
}

proof fn lemma_flow_pushed<E>(queue: QueueView<E>, batch: BatchView<E>)
    requires
        queue.in_order(),
    ensures
        flow(queue.pushed(batch).blocks) == if queue.keeps(batch) {
            flow(queue.blocks) + batch.events
        } else {
            flow(queue.blocks)
        },
{
    if queue.newest is None || queue.newest->0 < batch.block_number {
        lemma_flow_push(queue.blocks, batch);
    } else if queue.blocks.len() > 0 && queue.newest->0 == batch.block_number {
        let last = queue.blocks.last();
        lemma_flow_push(queue.blocks.drop_last(), last.extended(batch));
        assert(flow(queue.blocks.drop_last()) + (last.events + batch.events) =~= flow(queue.blocks) + batch.events);
    }
}

/// How taking a batch out of the front moves its events from what waits to what was taken.
proof fn lemma_flow_moved<E>(taken: Seq<BatchView<E>>, waiting: Seq<BatchView<E>>)
    requires
        waiting.len() > 0,
    ensures
        flow(taken.push(waiting[0])) + flow(waiting.drop_first()) == flow(taken) + flow(waiting),
{
    lemma_flow_push(taken, waiting[0]);
    lemma_flow_first(waiting);
    assert((flow(taken) + waiting[0].events) + flow(waiting.drop_first()) =~= flow(taken) + (waiting[0].events + flow(
        waiting.drop_first(),
    )));
}

proof fn lemma_flow_empty<E>(taken: Seq<BatchView<E>>, empty: BatchView<E>)
    requires
        empty.events.len() == 0,
    ensures
        flow(taken.push(empty)) == flow(taken),
{
    lemma_flow_push(taken, empty);
    assert(flow(taken) + empty.events =~= flow(taken));
}

/// No diff is lost, repeated or moved: the diffs of the blocks that were taken, followed by those
/// that wait, are the diffs that waited at the start, followed by those that were let in.
pub proof fn law_no_diff_is_lost(listener: ListenerView, events: Seq<QueueEvent>)
    requires
        listener.wf(),
    ensures
        diffs_in(run(listener, events).1) + flow(run(listener, events).0.diffs.blocks) == flow(listener.diffs.blocks)
            + diffs_let_in(listener, events),
    decreases events.len(),
{
    let start = flow(listener.diffs.blocks);
    let part = |block: BlockView| block.diffs;
    if events.len() == 0 {
        assert(Seq::<BlockView>::empty().map_values(part) =~= Seq::<BatchView<NodeDataOrderDiff>>::empty());
        assert(Seq::<NodeDataOrderDiff>::empty() + start =~= start + Seq::<NodeDataOrderDiff>::empty());
    } else {
        let (before, taken) = run(listener, events.drop_last());
        let earlier = diffs_let_in(listener, events.drop_last());
        law_no_diff_is_lost(listener, events.drop_last());
        lemma_run(listener, events.drop_last());
        match events.last() {
            QueueEvent::Arrives(EventBatchView::BookDiffs(batch)) => {
                lemma_flow_pushed(before.diffs, batch);
                assert(diffs_in(taken) + (flow(before.diffs.blocks) + batch.events) =~= (start + earlier)
                    + batch.events);
                assert((start + earlier) + batch.events =~= start + (earlier + batch.events));
            },
            QueueEvent::Arrives(_) => {},
            QueueEvent::Take => {
                if !(before.choice() is Wait) {
                    let block = before.front_block();
                    assert(taken.push(block).map_values(part) =~= taken.map_values(part).push(block.diffs));
                    match before.choice() {
                        Choice::StatusesOnly => lemma_flow_empty(taken.map_values(part), block.diffs),
                        _ => lemma_flow_moved(taken.map_values(part), before.diffs.blocks),
                    }
                }
            },
        }
    }
}

/// No status is lost, repeated or moved: the statuses of the blocks that were taken, followed by
/// those that wait, are the statuses that waited at the start, followed by those that were let in.
pub proof fn law_no_status_is_lost(listener: ListenerView, events: Seq<QueueEvent>)
    requires
        listener.wf(),
    ensures
        statuses_in(run(listener, events).1) + flow(run(listener, events).0.statuses.blocks) == flow(
            listener.statuses.blocks,
        ) + statuses_let_in(listener, events),
    decreases events.len(),
{
    let start = flow(listener.statuses.blocks);
    let part = |block: BlockView| block.statuses;
    if events.len() == 0 {
        assert(Seq::<BlockView>::empty().map_values(part) =~= Seq::<BatchView<NodeDataOrderStatus>>::empty());
        assert(Seq::<NodeDataOrderStatus>::empty() + start =~= start + Seq::<NodeDataOrderStatus>::empty());
    } else {
        let (before, taken) = run(listener, events.drop_last());
        let earlier = statuses_let_in(listener, events.drop_last());
        law_no_status_is_lost(listener, events.drop_last());
        lemma_run(listener, events.drop_last());
        match events.last() {
            QueueEvent::Arrives(EventBatchView::Orders(batch)) => {
                lemma_flow_pushed(before.statuses, batch);
                assert(statuses_in(taken) + (flow(before.statuses.blocks) + batch.events) =~= (start + earlier)
                    + batch.events);
                assert((start + earlier) + batch.events =~= start + (earlier + batch.events));
            },
            QueueEvent::Arrives(_) => {},
            QueueEvent::Take => {
                if !(before.choice() is Wait) {
                    let block = before.front_block();
                    assert(taken.push(block).map_values(part) =~= taken.map_values(part).push(block.statuses));
                    match before.choice() {
                        Choice::DiffsOnly => lemma_flow_empty(taken.map_values(part), block.statuses),
                        _ => lemma_flow_moved(taken.map_values(part), before.statuses.blocks),
                    }
                }
            },
        }
    }
}

/// The listener after a row of blocks has gone into the book.
pub open spec fn applied_all(listener: ListenerView, blocks: Seq<BlockView>) -> ListenerView
    decreases blocks.len(),
{
    if blocks.len() == 0 {
        listener
    } else {
        applied_all(listener, blocks.drop_last()).applied(blocks.last())
    }
}

/// Once blocks are being kept, the blocks kept are those that have gone into the book since, in
/// that order.
pub proof fn law_kept_blocks_are_those_applied(listener: ListenerView, blocks: Seq<BlockView>)
    requires
        listener.cache == Some(Seq::<BlockView>::empty()),
    ensures
        applied_all(listener, blocks).cache == Some(blocks),
    decreases blocks.len(),
{
    if blocks.len() == 0 {
        assert(blocks =~= Seq::<BlockView>::empty());
    } else {
        law_kept_blocks_are_those_applied(listener, blocks.drop_last());
        assert(blocks =~= blocks.drop_last().push(blocks.last()));
    }
}

/// The lines of a stream are handed out one by one, in order, each once; when they are used up,
/// what stands behind the last line feed is kept for later.
pub proof fn law_lines_are_handed_out_in_order(listener: ListenerView, source: EventSource)
    ensures
        ({
            let (after, next) = listener.next_in_lines(source);
            match next {
                NextView::Parse(line) => {
                    &&& records(listener.pending(source)) == seq![line] + records(after.pending(source))
                    &&& tail(after.pending(source)) == tail(listener.pending(source))
                },
                _ => {
                    &&& next is Finish
                    &&& records(listener.pending(source)).len() == 0
                    &&& after.pending(source) == tail(listener.pending(source))
                },
            }
        }),
{
    law_next_line_is_the_first(listener.pending(source));
}

/// How many blocks wait.
pub open spec fn waiting(listener: ListenerView) -> nat {
    listener.diffs.blocks.len() + listener.statuses.blocks.len()
}

/// How much is left to read: the text, and a line that has been handed out.
pub open spec fn left_to_read(listener: ListenerView, next: NextView, source: EventSource) -> nat {
    3 * listener.pending(source).len() + match next {
        NextView::Parse(_) => 2nat,
        NextView::Apply(_) => 1nat,
        _ => 0nat,
    }
}

/// What comes next leaves less to do than a line or a block that was handed out.
pub proof fn lemma_less_to_do(listener: ListenerView, source: EventSource)
    ensures
        ({
            let (after, next) = listener.next_in_blocks(source);
            let before = 3 * listener.pending(source).len() + 1;
            ||| left_to_read(after, next, source) < before
            ||| left_to_read(after, next, source) == before && waiting(after) < waiting(listener)
        }),
{
    law_next_line_is_the_first(listener.pending(source));
    lemma_tail_is_shorter(listener.pending(source));
}

/// What stands behind the last line feed is no longer than the whole.
proof fn lemma_tail_is_shorter(text: Seq<char>)
    ensures
        tail(text).len() <= text.len(),
    decreases text.len(),
{
    if text.contains('\n') {
        lemma_line_end(text);
        lemma_tail_is_shorter(text.skip(line_end(text) + 1));
    }
}

/// How far the reading of a stream has come: the listener, the blocks that have gone into the book,
/// and what has been told.
#[verifier::ext_equal]
pub struct Reading {
    pub listener: ListenerView,
    pub applied: Seq<BlockView>,
    pub messages: Seq<MessageView>,
}

/// The reading once it has come to an end, and whether it came to the end of the data. `parse` says
/// which batch a line holds, where it holds one. `book` says of a row of blocks, all of which but
/// the last have gone into the book, whether the last one goes in too, and the boundaries that the
/// book then has.
pub open spec fn read_out(
    reading: Reading,
    next: NextView,
    source: EventSource,
    parse: spec_fn(Seq<char>) -> Option<EventBatchView>,
    book: spec_fn(Seq<BlockView>) -> Option<Map<Seq<char>, Boundaries>>,
) -> (Reading, bool)
    decreases left_to_read(reading.listener, next, source), waiting(reading.listener),
{
    let listener = reading.listener;
    match next {
        NextView::Parse(line) => match parse(line) {
            Some(batch) => {
                proof {
                    lemma_less_to_do(listener.received(batch), source);
                }
                let (after, follow) = listener.received(batch).next_in_blocks(source);
                let messages = reading.messages + listener.announced(batch);
                read_out(Reading { listener: after, messages, ..reading }, follow, source, parse, book)
            },
            None => (reading, false),
        },
        NextView::Apply(block) => match book(reading.applied.push(block)) {
            Some(boundaries) => {
                proof {
                    lemma_less_to_do(listener.applied(block), source);
                }
                let (after, follow) = listener.applied(block).next_in_blocks(source);
                let messages = reading.messages + listener.told(block, boundaries);
                let applied = reading.applied.push(block);
                read_out(Reading { listener: after, applied, messages }, follow, source, parse, book)
            },
            None => (Reading { listener: ListenerView { ready: false, ..listener }, ..reading }, false),
        },
        NextView::Finish => (reading, true),
        NextView::Fail(_) => (reading, false),
    }
}

/// The reading once another piece of a stream's text has been read, and whether it came to the end
/// of the piece.
pub open spec fn read_data(
    reading: Reading,
    data: Seq<char>,
    source: EventSource,
    parse: spec_fn(Seq<char>) -> Option<EventBatchView>,
    book: spec_fn(Seq<BlockView>) -> Option<Map<Seq<char>, Boundaries>>,
) -> (Reading, bool) {
    let (after, next) = reading.listener.with_pending(
        source,
        reading.listener.pending(source) + data,
    ).next_in_lines(source);
    read_out(Reading { listener: after, ..reading }, next, source, parse, book)
}

/// Where reading came to the end of the data, what is left of the stream is what stands behind the
/// last line feed.
#[verifier::spinoff_prover]
#[verifier::rlimit(40)]
proof fn lemma_read_out(
    reading: Reading,
    next: NextView,
    source: EventSource,
    parse: spec_fn(Seq<char>) -> Option<EventBatchView>,
    book: spec_fn(Seq<BlockView>) -> Option<Map<Seq<char>, Boundaries>>,
)
    requires
        next is Finish ==> reading.listener.pending(source) == tail(reading.listener.pending(source)),
        read_out(reading, next, source, parse, book).1,
    ensures
        read_out(reading, next, source, parse, book).0.listener.pending(source) == tail(
            reading.listener.pending(source),
        ),
    decreases left_to_read(reading.listener, next, source), waiting(reading.listener),
{
    let listener = reading.listener;
    match next {
        NextView::Parse(line) => {
            let batch = parse(line)->0;
            let mid = listener.received(batch);
            assert(mid.pending(source) == listener.pending(source));
            lemma_less_to_do(mid, source);
            lemma_step_keeps_tail(mid, source);
            let (after, follow) = mid.next_in_blocks(source);
            let messages = reading.messages + listener.announced(batch);
            lemma_read_out(Reading { listener: after, messages, ..reading }, follow, source, parse, book);
        },
        NextView::Apply(block) => {
            let mid = listener.applied(block);
            assert(mid.pending(source) == listener.pending(source));
            lemma_less_to_do(mid, source);
            lemma_step_keeps_tail(mid, source);
            let (after, follow) = mid.next_in_blocks(source);
            let applied = reading.applied.push(block);
            let messages = reading.messages + listener.told(block, book(applied)->0);
            lemma_read_out(Reading { listener: after, applied, messages }, follow, source, parse, book);
        },
        _ => {},
    }
}

proof fn lemma_step_keeps_tail(listener: ListenerView, source: EventSource)
    ensures
        ({
            let (after, next) = listener.next_in_blocks(source);
            &&& tail(after.pending(source)) == tail(listener.pending(source))
            &&& next is Finish ==> after.pending(source) == tail(listener.pending(source))
        }),
{
    law_next_line_is_the_first(listener.pending(source));
    law_tail_holds_no_line(listener.pending(source));
}

/// Where a piece of a stream's text is read to its end, whatever the lines hold and whatever blocks
/// are taken meanwhile, what is left is what stands behind the last line feed.
pub proof fn law_only_an_unfinished_line_is_left(
    reading: Reading,
    data: Seq<char>,
    source: EventSource,
    parse: spec_fn(Seq<char>) -> Option<EventBatchView>,
    book: spec_fn(Seq<BlockView>) -> Option<Map<Seq<char>, Boundaries>>,
)
    requires
        read_data(reading, data, source, parse, book).1,
    ensures
        read_data(reading, data, source, parse, book).0.listener.pending(source) == tail(
            reading.listener.pending(source) + data,
        ),
{
    let text = reading.listener.pending(source) + data;
    let (after, next) = reading.listener.with_pending(source, text).next_in_lines(source);
    law_next_line_is_the_first(text);
    law_tail_holds_no_line(text);
    lemma_read_out(Reading { listener: after, ..reading }, next, source, parse, book);
}

/// Where the last line of an old file can be read, with a line feed put behind it, nothing of the
/// file is left: no file is found to end with a partial record.
pub proof fn law_flushed_file_leaves_nothing(
    reading: Reading,
    source: EventSource,
    parse: spec_fn(Seq<char>) -> Option<EventBatchView>,
    book: spec_fn(Seq<BlockView>) -> Option<Map<Seq<char>, Boundaries>>,
)
    requires
        read_data(reading, seq!['\n'], source, parse, book).1,
    ensures
        read_data(reading, seq!['\n'], source, parse, book).0.listener.pending(source).len() == 0,
{
    let text = reading.listener.pending(source);
    law_only_an_unfinished_line_is_left(reading, seq!['\n'], source, parse, book);
    law_line_feed_leaves_nothing(text);
    assert(text + seq!['\n'] =~= text.push('\n'));
}

/// The reading with more text behind what has not been read.
spec fn with_more(reading: Reading, source: EventSource, more: Seq<char>) -> Reading {
    let listener = reading.listener;
    Reading { listener: listener.with_pending(source, listener.pending(source) + more), ..reading }
}

/// How a step goes where more text stands behind what has not been read: as it went without, but for
/// that text; and where there was no line left, as it goes once the text is read on.
proof fn lemma_step_with_more(listener: ListenerView, source: EventSource, more: Seq<char>)
    ensures
        ({
            let longer = listener.with_pending(source, listener.pending(source) + more);
            let (after, next) = listener.next_in_blocks(source);
            let later = after.with_pending(source, after.pending(source) + more);
            &&& next is Finish ==> longer.next_in_blocks(source) == later.next_in_lines(source)
            &&& !(next is Finish) ==> longer.next_in_blocks(source) == (later, next)
        }),
{
    let longer = listener.with_pending(source, listener.pending(source) + more);
    law_next_line_with_more(listener.pending(source), more);
    assert(longer.diffs == listener.diffs && longer.statuses == listener.statuses);
    if listener.ready && !(listener.choice() is Wait) {
        let popped = listener.popped();
        assert(longer.popped() =~= popped.with_pending(source, popped.pending(source) + more));
    } else {
        let (after, next) = listener.next_in_lines(source);
        let later = after.with_pending(source, after.pending(source) + more);
        if next is Finish {
            assert(longer.next_in_lines(source).0 =~= later.next_in_lines(source).0);
        } else {
            assert(longer.next_in_lines(source).0 =~= later);
        }
    }
}

/// An arriving batch does not care about text that has not been read.
proof fn lemma_batch_with_more(listener: ListenerView, source: EventSource, more: Seq<char>, batch: EventBatchView)
    ensures
        ({
            let longer = listener.with_pending(source, listener.pending(source) + more);
            let after = listener.received(batch);
            &&& longer.received(batch) == after.with_pending(source, after.pending(source) + more)
            &&& longer.announced(batch) == listener.announced(batch)
            &&& after.pending(source) == listener.pending(source)
        }),
{
    let longer = listener.with_pending(source, listener.pending(source) + more);
    let after = listener.received(batch);
    assert(longer.received(batch) =~= after.with_pending(source, after.pending(source) + more));
    assert(longer.announced(batch) =~= listener.announced(batch));
}

/// A block that goes into the book does not care about text that has not been read.
proof fn lemma_block_with_more(
    listener: ListenerView,
    source: EventSource,
    more: Seq<char>,
    block: BlockView,
    boundaries: Map<Seq<char>, Boundaries>,
)
    ensures
        ({
            let longer = listener.with_pending(source, listener.pending(source) + more);
            let after = listener.applied(block);
            &&& longer.applied(block) == after.with_pending(source, after.pending(source) + more)
            &&& longer.told(block, boundaries) == listener.told(block, boundaries)
            &&& after.pending(source) == listener.pending(source)
            &&& waiting(after) == waiting(listener)
        }),
{
    let longer = listener.with_pending(source, listener.pending(source) + more);
    let after = listener.applied(block);
    assert(longer.applied(block) =~= after.with_pending(source, after.pending(source) + more));
}

/// The reading once what comes next has been done.
spec fn read_on(
    reading: Reading,
    source: EventSource,
    parse: spec_fn(Seq<char>) -> Option<EventBatchView>,
    book: spec_fn(Seq<BlockView>) -> Option<Map<Seq<char>, Boundaries>>,
) -> (Reading, bool) {
    let (after, next) = reading.listener.next_in_blocks(source);
    read_out(Reading { listener: after, ..reading }, next, source, parse, book)
}

/// Whether reading with more text behind what has not been read is reading without it, and then that
/// text.
spec fn splits(
    whole: (Reading, bool),
    one: (Reading, bool),
    source: EventSource,
    more: Seq<char>,
    parse: spec_fn(Seq<char>) -> Option<EventBatchView>,
    book: spec_fn(Seq<BlockView>) -> Option<Map<Seq<char>, Boundaries>>,
) -> bool {
    &&& whole.1 ==> one.1
    &&& one.1 ==> whole == read_data(one.0, more, source, parse, book)
}

/// What is done with a line that was handed out goes as it goes without the added text.
proof fn lemma_line_splits(
    reading: Reading,
    line: Seq<char>,
    source: EventSource,
    more: Seq<char>,
    parse: spec_fn(Seq<char>) -> Option<EventBatchView>,
    book: spec_fn(Seq<BlockView>) -> Option<Map<Seq<char>, Boundaries>>,
)
    ensures
        splits(
            read_out(with_more(reading, source, more), NextView::Parse(line), source, parse, book),
            read_out(reading, NextView::Parse(line), source, parse, book),
            source,
            more,
            parse,
            book,
        ),
    decreases 2 * reading.listener.pending(source).len() + 1, 0nat,
{
    if let Some(batch) = parse(line) {
        lemma_batch_with_more(reading.listener, source, more, batch);
        let messages = reading.messages + reading.listener.announced(batch);
        let onward = Reading { listener: reading.listener.received(batch), messages, ..reading };
        lemma_read_on_splits(onward, source, more, parse, book);
        assert(read_out(reading, NextView::Parse(line), source, parse, book) == read_on(onward, source, parse, book));
        assert(read_out(with_more(reading, source, more), NextView::Parse(line), source, parse, book) == read_on(
            with_more(onward, source, more),
            source,
            parse,
            book,
        ));
    }
}

/// Reading with more text behind what has not been read is reading without it, and then that text.
proof fn lemma_read_on_splits(
    reading: Reading,
    source: EventSource,
    more: Seq<char>,
    parse: spec_fn(Seq<char>) -> Option<EventBatchView>,
    book: spec_fn(Seq<BlockView>) -> Option<Map<Seq<char>, Boundaries>>,
)
    ensures
        splits(
            read_on(with_more(reading, source, more), source, parse, book),
            read_on(reading, source, parse, book),
            source,
            more,
            parse,
            book,
        ),
    decreases 2 * reading.listener.pending(source).len(), waiting(reading.listener),
{
    let (after, next) = reading.listener.next_in_blocks(source);
    let start = Reading { listener: after, ..reading };
    lemma_step_with_more(reading.listener, source, more);
    lemma_less_to_do(reading.listener, source);
    match next {
        NextView::Parse(line) => {
            lemma_line_splits(start, line, source, more, parse, book);
        },
        NextView::Apply(block) => {
            if let Some(boundaries) = book(reading.applied.push(block)) {
                lemma_block_with_more(after, source, more, block, boundaries);
                let applied = reading.applied.push(block);
                let messages = reading.messages + after.told(block, boundaries);
                let onward = Reading { listener: after.applied(block), applied, messages };
                lemma_read_on_splits(onward, source, more, parse, book);
                assert(read_out(start, next, source, parse, book) == read_on(onward, source, parse, book));
                assert(read_out(with_more(start, source, more), next, source, parse, book) == read_on(
                    with_more(onward, source, more),
                    source,
                    parse,
                    book,
                ));
            }
        },
        _ => {},
    }
}

/// It does not matter how a stream's text is cut into pieces: where the whole is read to its end, so
/// is the first piece; and where the first piece is read to its end, reading the second one leaves
/// the same listener, and has put the same blocks into the book and told the same messages, as
/// reading the whole.
pub proof fn law_pieces_leave_the_same_listener(
    reading: Reading,
    source: EventSource,
    first: Seq<char>,
    second: Seq<char>,
    parse: spec_fn(Seq<char>) -> Option<EventBatchView>,
    book: spec_fn(Seq<BlockView>) -> Option<Map<Seq<char>, Boundaries>>,
)
    ensures
        ({
            let whole = read_data(reading, first + second, source, parse, book);
            let one = read_data(reading, first, source, parse, book);
            &&& whole.1 ==> one.1
            &&& one.1 ==> whole == read_data(one.0, second, source, parse, book)
        }),
{
    let listener = reading.listener;
    let text = listener.pending(source) + first;
    assert(listener.pending(source) + (first + second) =~= text + second);
    let fed = listener.with_pending(source, text);
    let (after, next) = fed.next_in_lines(source);
    let start = Reading { listener: after, ..reading };
    let later = after.with_pending(source, after.pending(source) + second);
    let longer = listener.with_pending(source, text + second);
    law_next_line_with_more(text, second);
    if next is Finish {
        assert(longer.next_in_lines(source).0 =~= later.next_in_lines(source).0);
    } else {
        assert(longer.next_in_lines(source).0 =~= later);
        lemma_line_splits(start, next->Parse_0, source, second, parse, book);
    }
}

/// New fills are told, where someone listens.
pub proof fn law_new_fills_are_told(listener: ListenerView, batch: BatchView<NodeDataFill>)
    requires
        listener.sending,
        listener.new_fills(batch.block_number),
    ensures
        listener.announced(EventBatchView::Fills(batch)) == seq![MessageView::Fills { batch }],
        listener.received(EventBatchView::Fills(batch)).last_fill == Some(batch.block_number),
{
}

/// Whether fills of block `n` or of a newer one have arrived.
spec fn fills_seen(listener: ListenerView, n: u64) -> bool {
    listener.last_fill matches Some(last) && last >= n
}

proof fn lemma_fills_stay_seen(listener: ListenerView, events: Seq<QueueEvent>, n: u64)
    requires
        fills_seen(listener, n),
    ensures
        fills_seen(run(listener, events).0, n),
        run(listener, events).0.streaming == listener.streaming,
    decreases events.len(),
{
    if events.len() > 0 {
        lemma_fills_stay_seen(listener, events.drop_last(), n);
    }
}

/// Whatever arrives and is taken after a batch of fills: fills of an older block are not told, nor
/// fills of the same block unless the streams are written within a block.
pub proof fn law_old_fills_are_not_told(
    listener: ListenerView,
    first: BatchView<NodeDataFill>,
    events: Seq<QueueEvent>,
    second: BatchView<NodeDataFill>,
)
    requires
        second.block_number < first.block_number || second.block_number == first.block_number && !listener.streaming,
    ensures
        ({
            let later = run(listener.received(EventBatchView::Fills(first)), events).0;
            &&& later.announced(EventBatchView::Fills(second)).len() == 0
            &&& later.received(EventBatchView::Fills(second)) == later
        }),
{
    lemma_fills_stay_seen(listener.received(EventBatchView::Fills(first)), events, first.block_number);
}

/// A start from a snapshot, taken to its end: the listener it leaves, the blocks that were handed out
/// for the book, and whether the book is ready. `fits` says whether the last block that was handed
/// out went in, and `book` of a row of blocks, all of which but the last have gone in, whether the
/// last one goes in too.
pub open spec fn start_out(
    listener: ListenerView,
    taken: Seq<BlockView>,
    fits: bool,
    book: spec_fn(Seq<BlockView>) -> bool,
) -> (ListenerView, Seq<BlockView>, bool)
    decreases waiting(listener),
{
    match listener.init_next(fits) {
        (after, InitView::Apply(block)) => start_out(after, taken.push(block), book(taken.push(block)), book),
        (after, InitView::Ready) => (after, taken, true),
        (after, InitView::Retry) => (after, taken, false),
    }
}

/// Open orders after a row of blocks.
pub open spec fn followed_all(open: OrdersByUser, blocks: Seq<BlockView>) -> OrdersByUser
    decreases blocks.len(),
{
    if blocks.len() == 0 {
        open
    } else {
        let block = blocks.last();
        block_tracked(
            followed_all(open, blocks.drop_last()),
            block.statuses.events,
            block.diffs.events,
        ).open
    }
}

proof fn lemma_start_out(
    listener: ListenerView,
    taken: Seq<BlockView>,
    fits: bool,
    book: spec_fn(Seq<BlockView>) -> bool,
    first: OrdersByUser,
)
    requires
        listener.open == followed_all(first, taken),
        fits ==> forall|i: int| 0 < i <= taken.len() ==> book(#[trigger] taken.take(i)),
    ensures
        ({
            let (after, blocks, built) = start_out(listener, taken, fits, book);
            if built {
                &&& after.ready
                &&& after.choice() is Wait
                &&& after.open == followed_all(first, blocks)
                &&& forall|i: int| 0 < i <= blocks.len() ==> book(#[trigger] blocks.take(i))
            } else {
                after.ready == listener.ready && after.open == OrdersByUser::empty()
            }
        }),
    decreases waiting(listener),
{
    match listener.init_next(fits) {
        (after, InitView::Apply(block)) => {
            let now = taken.push(block);
            assert(now.drop_last() =~= taken);
            if book(now) {
                assert forall|i: int| 0 < i <= now.len() implies book(#[trigger] now.take(i)) by {
                    if i < now.len() {
                        assert(now.take(i) =~= taken.take(i));
                    } else {
                        assert(now.take(i) =~= now);
                    }
                }
            }
            lemma_start_out(after, now, book(now), book, first);
        },
        _ => {},
    }
}

/// A start from a snapshot ends in one of two ways. The listener has a book: every block that was
/// handed out went in, none that can be taken is left, and the open orders are those of the snapshot
/// followed by the blocks. Or a block did not go in: the listener is as ready as before, without open
/// orders.
pub proof fn law_start_is_ready_or_retried(listener: ListenerView, book: spec_fn(Seq<BlockView>) -> bool)
    ensures
        ({
            let (after, blocks, built) = start_out(listener, Seq::empty(), true, book);
            if built {
                &&& after.ready
                &&& after.choice() is Wait
                &&& after.open == followed_all(listener.open, blocks)
                &&& forall|i: int| 0 < i <= blocks.len() ==> book(#[trigger] blocks.take(i))
            } else {
                after.ready == listener.ready && after.open == OrdersByUser::empty()
            }
        }),
{
    lemma_start_out(listener, Seq::empty(), true, book, listener.open);
}

} // verus!
