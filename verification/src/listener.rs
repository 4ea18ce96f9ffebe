//! The listener: it reads the three streams, brings their blocks together, and tells the
//! connections what happened.

use crate::address::Address;
use crate::address_map::AddressMap;
use crate::batch_queue::{BatchQueue, QueueView};
use crate::blocks::{Block, BlockView, block_views};
use crate::book::{InnerL4Order, L2Snapshots, L4Order, Snapshot};
use crate::key_map::CoinMap;
use crate::lines::LineBuffer;
use crate::listener_view::{InitView, ListenerView, NextView};
use crate::messages::{Boundaries, EventBatch, InternalMessage, MessageView, views};
use crate::node_data::{EventSource, NodeDataOrderDiff, NodeDataOrderStatus};
use crate::open_orders::{
    OpenOrders, OrdersByUser, block_tracked, lists_once, orders_in, orders_in_row, orders_of, with_orders,
};
use crate::text::join;
use std::collections::VecDeque;
use vstd::prelude::*;

verus! {

/// The number of price levels on each side of a book that its updates are limited to.
pub const L4_BOOK_MAX_LEVELS: usize = 10;

/// What the program around the listener has to do next.
pub enum Next {
    /// Make a batch of this line.
    Parse(String),
    /// Put this block into the book.
    Apply(Block),
    /// Nothing: the data has been read.
    Finish,
    /// Nothing: reading has failed.
    Fail(String),
}

impl View for Next {
    type V = NextView;

    open spec fn view(&self) -> NextView {
        match self {
            Next::Parse(line) => NextView::Parse(line@),
            Next::Apply(block) => NextView::Apply(block@),
            Next::Finish => NextView::Finish,
            Next::Fail(complaint) => NextView::Fail(complaint@),
        }
    }
}

/// The next step of a start from a snapshot.
pub enum InitStep {
    /// Put this block into the book that is being built, and take the next step with what came of it.
    Apply(Block),
    /// The book is ready.
    Ready,
    /// The book is given up: the next snapshot is waited for.
    Retry,
}

impl View for InitStep {
    type V = InitView;

    open spec fn view(&self) -> InitView {
        match self {
            InitStep::Apply(block) => InitView::Apply(block@),
            InitStep::Ready => InitView::Ready,
            InitStep::Retry => InitView::Retry,
        }
    }
}

/// What is done with a file of a stream that has changed.
#[derive(Clone, Copy, Debug, PartialEq, Eq, Structural)]
pub enum FileAction {
    /// Read the old file to its end, and then the new one from its start.
    SwitchOver,
    /// Read what has been added.
    ReadOn,
    /// Read the file from its present end on.
    StartAtEnd,
}

/// The listener's state.
pub struct OrderBookListener {
    ignore_spot: bool,
    streaming: bool,
    sending: bool,
    ready: bool,
    last_fill: Option<u64>,
    fills_read: bool,
    statuses_read: bool,
    diffs_read: bool,
    fill_pending: LineBuffer,
    order_status_pending: LineBuffer,
    order_diff_pending: LineBuffer,
    order_diff_cache: BatchQueue<NodeDataOrderDiff>,
    order_status_cache: BatchQueue<NodeDataOrderStatus>,
    fetched_snapshot_cache: Option<VecDeque<Block>>,
    open_orders: OpenOrders,
}

impl View for OrderBookListener {
    type V = ListenerView;

    closed spec fn view(&self) -> ListenerView {
        ListenerView {
            ignore_spot: self.ignore_spot,
            streaming: self.streaming,
            sending: self.sending,
            ready: self.ready,
            last_fill: self.last_fill,
            fills_read: self.fills_read,
            statuses_read: self.statuses_read,
            diffs_read: self.diffs_read,
            fill_pending: self.fill_pending@,
            order_status_pending: self.order_status_pending@,
            order_diff_pending: self.order_diff_pending@,
            diffs: self.order_diff_cache@,
            statuses: self.order_status_cache@,
            cache: match self.fetched_snapshot_cache {
                Some(blocks) => Some(block_views(blocks@)),
                None => None,
            },
            open: self.open_orders@,
        }
    }
}

impl OrderBookListener {
    /// A listener that has read nothing.
    pub fn new(sending: bool, ignore_spot: bool, streaming: bool) -> (listener: OrderBookListener)
        ensures
            listener@.wf(),
            listener@ == (ListenerView {
                ignore_spot,
                streaming,
                sending,
                ready: false,
                last_fill: None,
                fills_read: false,
                statuses_read: false,
                diffs_read: false,
                fill_pending: Seq::empty(),
                order_status_pending: Seq::empty(),
                order_diff_pending: Seq::empty(),
                diffs: QueueView { blocks: Seq::empty(), newest: None },
                statuses: QueueView { blocks: Seq::empty(), newest: None },
                cache: None,
                open: OrdersByUser::empty(),
            }),
    {
        OrderBookListener {
            ignore_spot,
            streaming,
            sending,
            ready: false,
            last_fill: None,
            fills_read: false,
            statuses_read: false,
            diffs_read: false,
            fill_pending: LineBuffer::new(),
            order_status_pending: LineBuffer::new(),
            order_diff_pending: LineBuffer::new(),
            order_diff_cache: BatchQueue::new(),
            order_status_cache: BatchQueue::new(),
            fetched_snapshot_cache: None,
            open_orders: OpenOrders::new(),
        }
    }

    /// Whether the listener has a book.
    pub fn is_ready(&self) -> (ready: bool)
        ensures
            ready == self@.ready,
    {
        self.ready
    }

    /// Whether the streams are written within a block.
    pub fn is_streaming(&self) -> (streaming: bool)
        ensures
            streaming == self@.streaming,
    {
        self.streaming
    }

    /// Whether spot markets are left out of the book.
    pub fn ignores_spot(&self) -> (ignore_spot: bool)
        ensures
            ignore_spot == self@.ignore_spot,
    {
        self.ignore_spot
    }

    /// Takes the earliest block out of the queues, where one can be taken.
    pub fn pop_cache(&mut self) -> (popped: Option<Block>)
        ensures
            final(self)@.wf(),
            final(self)@ == old(self)@.popped(),
            popped is None <==> old(self)@.choice() is Wait,
            popped matches Some(block) ==> block@ == old(self)@.front_block(),
    {
        proof {
            use_type_invariant(&self.order_diff_cache);
            use_type_invariant(&self.order_status_cache);
        }
        let (diffs_at, statuses_at): (u64, u64) = match (self.order_diff_cache.front(), self.order_status_cache.front()) {
            (Some(diffs), Some(statuses)) => (diffs.block_number(), statuses.block_number()),
            _ => {
                return None;
            },
        };
        if diffs_at == statuses_at {
            if self.streaming && (!self.order_diff_cache.is_front_complete()
                || !self.order_status_cache.is_front_complete()) {
                return None;
            }
            match (self.order_status_cache.pop_front(), self.order_diff_cache.pop_front()) {
                (Some(statuses), Some(diffs)) => Some(Block { statuses, diffs }),
                _ => None,
            }
        } else if diffs_at < statuses_at {
            if self.streaming && !self.order_diff_cache.is_front_complete() {
                return None;
            }
            match self.order_diff_cache.pop_front() {
                Some(diffs) => Some(Block { statuses: diffs.empty_with_metadata(), diffs }),
                None => None,
            }
        } else {
            if self.streaming && !self.order_status_cache.is_front_complete() {
                return None;
            }
            match self.order_status_cache.pop_front() {
                Some(statuses) => {
                    let diffs = statuses.empty_with_metadata();
                    Some(Block { statuses, diffs })
                },
                None => None,
            }
        }
    }

    /// Takes in a batch, and returns what is told of it at once.
    pub fn receive_batch(&mut self, updates: EventBatch) -> (messages: Vec<InternalMessage>)
        requires
            old(self)@.can_receive(updates@),
        ensures
            final(self)@.wf(),
            final(self)@ == old(self)@.received(updates@),
            views(messages@) == old(self)@.announced(updates@),
    {
        proof {
            use_type_invariant(&self.order_diff_cache);
            use_type_invariant(&self.order_status_cache);
        }
        let mut messages: Vec<InternalMessage> = Vec::new();
        match updates {
            EventBatch::Orders(batch) => {
                self.order_status_cache.push(batch);
            },
            EventBatch::BookDiffs(batch) => {
                if self.streaming && self.sending {
                    let time: u64 = batch.block_time();
                    let height: u64 = batch.block_number();
                    let diffs = batch.duplicate().events();
                    messages.push(InternalMessage::StreamingBookDiffs { diffs, time, height });
                }
                self.order_diff_cache.push(batch);
            },
            EventBatch::Fills(batch) => {
                let number: u64 = batch.block_number();
                let newer = match self.last_fill {
                    Some(height) => height < number || self.streaming && height == number,
                    None => true,
                };
                if newer {
                    self.last_fill = Some(number);
                    if self.sending {
                        messages.push(InternalMessage::Fills { batch });
                    }
                }
            },
        }
        assert(views(messages@) =~= old(self)@.announced(updates@));
        messages
    }

    /// The text of a stream that has not been read.
    fn pending_mut(&mut self, source: EventSource) -> (pending: &mut LineBuffer)
        ensures
            pending@ == old(self)@.pending(source),
            final(self)@ == old(self)@.with_pending(source, final(pending)@),
    {
        match source {
            EventSource::Fills => &mut self.fill_pending,
            EventSource::OrderStatuses => &mut self.order_status_pending,
            EventSource::OrderDiffs => &mut self.order_diff_pending,
        }
    }

    /// Reads the lines of a stream on.
    fn resume_lines(&mut self, source: EventSource) -> (next: Next)
        ensures
            (final(self)@, next@) == old(self)@.next_in_lines(source),
    {
        match self.pending_mut(source).next_line() {
            Some(line) => Next::Parse(line),
            None => Next::Finish,
        }
    }

    /// Takes the next block, or else reads the lines of a stream on.
    fn resume_blocks(&mut self, source: EventSource) -> (next: Next)
        ensures
            final(self)@.wf(),
            (final(self)@, next@) == old(self)@.next_in_blocks(source),
    {
        proof {
            use_type_invariant(&self.order_diff_cache);
            use_type_invariant(&self.order_status_cache);
        }
        if self.ready {
            match self.pop_cache() {
                Some(block) => {
                    return Next::Apply(block);
                },
                None => {},
            }
        }
        self.resume_lines(source)
    }

    /// Takes in more text of a stream and begins to read it.
    pub fn process_data(&mut self, data: &str, source: EventSource) -> (next: Next)
        ensures
            final(self)@.wf(),
            (final(self)@, next@) == old(self)@.with_pending(source, old(self)@.pending(source) + data@).next_in_lines(
                source,
            ),
    {
        proof {
            use_type_invariant(&self.order_diff_cache);
            use_type_invariant(&self.order_status_cache);
        }
        self.pending_mut(source).feed(data);
        self.resume_lines(source)
    }

    /// Goes on once a line has been made a batch, or could not be made one.
    pub fn line_parsed(&mut self, source: EventSource, parsed: Result<EventBatch, String>) -> (step: (
        Vec<InternalMessage>,
        Next,
    ))
        requires
            parsed matches Ok(batch) ==> old(self)@.can_receive(batch@),
        ensures
            final(self)@.wf(),
            match parsed {
                Ok(batch) => {
                    &&& views(step.0@) == old(self)@.announced(batch@)
                    &&& (final(self)@, step.1@) == old(self)@.received(batch@).next_in_blocks(source)
                },
                Err(complaint) => {
                    &&& step.0@.len() == 0
                    &&& step.1@ == NextView::Fail(source.label() + " serialization error: "@ + complaint@)
                    &&& final(self)@ == old(self)@
                },
            },
    {
        proof {
            use_type_invariant(&self.order_diff_cache);
            use_type_invariant(&self.order_status_cache);
        }
        match parsed {
            Ok(batch) => {
                let messages = self.receive_batch(batch);
                let next = self.resume_blocks(source);
                (messages, next)
            },
            Err(complaint) => {
                let intro = join(source.name(), " serialization error: ");
                (Vec::new(), Next::Fail(join(intro.as_str(), complaint.as_str())))
            },
        }
    }

    /// Goes on once a block has gone into the book, or could not go into it. Where it did, the
    /// book's boundaries come back; where it could not, the book is given up.
    pub fn block_applied(
        &mut self,
        source: EventSource,
        block: Block,
        outcome: Result<CoinMap<Boundaries>, String>,
    ) -> (step: (Vec<InternalMessage>, Next))
        ensures
            final(self)@.wf(),
            match outcome {
                Ok(boundaries) => {
                    &&& views(step.0@) == old(self)@.told(block@, boundaries@)
                    &&& (final(self)@, step.1@) == old(self)@.applied(block@).next_in_blocks(source)
                },
                Err(complaint) => {
                    &&& step.0@.len() == 0
                    &&& step.1@ == NextView::Fail(complaint@)
                    &&& final(self)@ == (ListenerView { ready: false, ..old(self)@ })
                },
            },
    {
        proof {
            use_type_invariant(&self.order_diff_cache);
            use_type_invariant(&self.order_status_cache);
        }
        match outcome {
            Ok(boundaries) => {
                let messages = self.settle(block, boundaries);
                let next = self.resume_blocks(source);
                (messages, next)
            },
            Err(complaint) => {
                self.ready = false;
                (Vec::new(), Next::Fail(complaint))
            },
        }
    }

    /// Follows a block that has gone into the book, and returns what is told of it.
    fn settle(&mut self, block: Block, boundaries: CoinMap<Boundaries>) -> (messages: Vec<InternalMessage>)
        ensures
            final(self)@.wf(),
            final(self)@ == old(self)@.applied(block@),
            views(messages@) == old(self)@.told(block@, boundaries@),
    {
        proof {
            use_type_invariant(&self.order_diff_cache);
            use_type_invariant(&self.order_status_cache);
        }
        let ghost after = block_tracked(self@.open, block.statuses@.events, block.diffs@.events);
        if self.fetched_snapshot_cache.is_some() {
            let copy = block.duplicate();
            self.keep(copy);
        }
        let changed = self.open_orders.update_open_orders(block.statuses.events_ref(), block.diffs.events_ref());
        assert(self@ =~= old(self)@.applied(block@));
        let mut messages: Vec<InternalMessage> = Vec::new();
        if self.sending {
            let touched = changed.len() > 0;
            proof {
                if touched {
                    assert(after.changed.contains(changed@[0]));
                } else {
                    assert(after.changed =~= Set::<Address>::empty());
                }
            }
            messages.push(
                InternalMessage::L4BookUpdates { diff_batch: block.diffs, price_boundaries: boundaries },
            );
            if touched {
                let changed_users = self.open_orders_of(&changed);
                assert(changed_users@.map_values(|row: Vec<L4Order>| row@) =~= Map::new(
                    |user: Address| after.changed.contains(user),
                    |user: Address| orders_in_row(orders_of(after.open, user)),
                ));
                messages.push(InternalMessage::OpenOrdersUpdate { changed_users });
            }
        }
        assert(views(messages@) =~= old(self)@.told(block@, boundaries@));
        messages
    }

    /// Puts a block to the blocks that are being kept.
    fn keep(&mut self, block: Block)
        requires
            old(self)@.cache is Some,
        ensures
            final(self)@ == (ListenerView { cache: Some(old(self)@.cache->0.push(block@)), ..old(self)@ }),
    {
        if let Some(blocks) = &mut self.fetched_snapshot_cache {
            blocks.push_back(block);
        }
        assert(self@.cache->0 =~= old(self)@.cache->0.push(block@));
    }

    /// The open orders of each of the users.
    pub fn open_orders_of(&self, users: &Vec<Address>) -> (listed: AddressMap<Vec<L4Order>>)
        ensures
            listed@.dom() == users@.to_set(),
            forall|user: Address| #[trigger]
                listed@.contains_key(user) ==> listed@[user]@ == orders_in_row(orders_of(self@.open, user)),
    {
        let mut listed: AddressMap<Vec<L4Order>> = AddressMap::new();
        let mut i: usize = 0;
        assert(listed@.dom() =~= users@.take(0).to_set());
        while i < users.len()
            invariant
                i <= users@.len(),
                listed@.dom() == users@.take(i as int).to_set(),
                forall|user: Address| #[trigger]
                    listed@.contains_key(user) ==> listed@[user]@ == orders_in_row(orders_of(self@.open, user)),
            decreases users@.len() - i,
        {
            let row = self.open_orders.get_open_orders(&users[i]);
            listed.insert(users[i], row);
            proof {
                let before = users@.take(i as int);
                let now = users@.take(i + 1);
                assert(now =~= before.push(users@[i as int]));
                before.lemma_push_to_set_commute(users@[i as int]);
            }
            i = i + 1;
            assert(listed@.dom() =~= users@.take(i as int).to_set());
        }
        assert(users@.take(i as int) =~= users@);
        listed
    }

    /// What is told of the levels of the book, once all data has been read; `snapshot` is what the
    /// book has to say that it has not said yet.
    pub fn l2_message(&self, snapshot: Option<(u64, L2Snapshots)>) -> (message: Option<InternalMessage>)
        ensures
            match snapshot {
                Some((time, l2_snapshots)) if self@.sending => {
                    &&& message is Some
                    &&& message->0@ == (MessageView::Snapshot { l2_snapshots, time })
                },
                _ => message is None,
            },
    {
        match snapshot {
            Some((time, l2_snapshots)) if self.sending => Some(InternalMessage::Snapshot { l2_snapshots, time }),
            _ => None,
        }
    }

    /// Begins to keep the blocks that go into the book; what was kept before is dropped.
    pub fn begin_caching(&mut self)
        ensures
            final(self)@ == (ListenerView { cache: Some(Seq::empty()), ..old(self)@ }),
    {
        self.fetched_snapshot_cache = Some(VecDeque::new());
        assert(self@.cache->0 =~= Seq::<BlockView>::empty());
    }

    /// Takes the blocks that have been kept, oldest first, and keeps no more.
    pub fn take_cache(&mut self) -> (blocks: VecDeque<Block>)
        ensures
            final(self)@ == (ListenerView { cache: None, ..old(self)@ }),
            block_views(blocks@) == match old(self)@.cache {
                Some(kept) => kept,
                None => Seq::empty(),
            },
    {
        match self.fetched_snapshot_cache.take() {
            Some(blocks) => blocks,
            None => {
                let none: VecDeque<Block> = VecDeque::new();
                assert(block_views(none@) =~= Seq::<BlockView>::empty());
                none
            },
        }
    }

    /// Starts over from the books of a snapshot: the open orders are those of the books. `init_step`
    /// then takes the start to its end.
    pub fn begin_init(&mut self, snapshot: &CoinMap<Snapshot<InnerL4Order>>)
        ensures
            final(self)@.wf(),
            exists|coins: Seq<Seq<char>>| #[trigger]
                lists_once(coins, snapshot@) && final(self)@ == (ListenerView {
                    open: with_orders(OrdersByUser::empty(), orders_in(coins, snapshot@)),
                    ..old(self)@
                }),
    {
        proof {
            use_type_invariant(&self.order_diff_cache);
            use_type_invariant(&self.order_status_cache);
        }
        self.open_orders.reload(snapshot);
        proof {
            let coins = choose|coins: Seq<Seq<char>>| #[trigger]
                lists_once(coins, snapshot@) && self@.open == with_orders(
                    OrdersByUser::empty(),
                    orders_in(coins, snapshot@),
                );
            assert(lists_once(coins, snapshot@));
            assert(self@ =~= (ListenerView {
                open: with_orders(OrdersByUser::empty(), orders_in(coins, snapshot@)),
                ..old(self)@
            }));
        }
    }

    /// Takes the next step of a start: `last` says what came of the last step. Where a block that
    /// waits can be taken, it goes into the book that is being built, and the open orders follow it at
    /// once. Where none is left, the listener has a book; where one did not go in, the open orders are
    /// dropped and the next snapshot is waited for.
    pub fn init_step(&mut self, last: Result<(), String>) -> (step: InitStep)
        ensures
            final(self)@.wf(),
            (final(self)@, step@) == old(self)@.init_next(last is Ok),
    {
        proof {
            use_type_invariant(&self.order_diff_cache);
            use_type_invariant(&self.order_status_cache);
        }
        if last.is_err() {
            self.open_orders = OpenOrders::new();
            return InitStep::Retry;
        }
        match self.pop_cache() {
            Some(block) => {
                self.open_orders.update_open_orders(block.statuses.events_ref(), block.diffs.events_ref());
                InitStep::Apply(block)
            },
            None => {
                self.ready = true;
                InitStep::Ready
            },
        }
    }

    /// The user's open orders, in increasing order of their numbers.
    pub fn get_open_orders(&self, user: &Address) -> (row: Vec<L4Order>)
        ensures
            row@ == orders_in_row(orders_of(self@.open, *user)),
    {
        self.open_orders.get_open_orders(user)
    }

    /// Whether a file of the stream is being read.
    pub fn is_reading(&self, source: EventSource) -> (reading: bool)
        ensures
            reading == self@.reading(source),
    {
        match source {
            EventSource::Fills => self.fills_read,
            EventSource::OrderStatuses => self.statuses_read,
            EventSource::OrderDiffs => self.diffs_read,
        }
    }

    /// What is done with a file of the stream that was created or has changed. Where none is being
    /// read, a change makes the file the one to read, from its present end on.
    pub fn process_update(&self, created: bool, source: EventSource) -> (action: FileAction)
        ensures
            action == if created {
                FileAction::SwitchOver
            } else if self@.reading(source) {
                FileAction::ReadOn
            } else {
                FileAction::StartAtEnd
            },
    {
        if created {
            FileAction::SwitchOver
        } else if self.is_reading(source) {
            FileAction::ReadOn
        } else {
            FileAction::StartAtEnd
        }
    }

    /// Reads what was left of the old file when a new one took its place.
    pub fn read_rest(&mut self, rest: &str, source: EventSource) -> (next: Option<Next>)
        ensures
            final(self)@.wf(),
            match next {
                Some(step) => {
                    &&& rest@.len() > 0
                    &&& (final(self)@, step@) == old(self)@.with_pending(
                        source,
                        old(self)@.pending(source) + rest@,
                    ).next_in_lines(source)
                },
                None => rest@.len() == 0 && final(self)@ == old(self)@,
            },
    {
        proof {
            use_type_invariant(&self.order_diff_cache);
            use_type_invariant(&self.order_status_cache);
        }
        if rest.is_empty() {
            None
        } else {
            Some(self.process_data(rest, source))
        }
    }

    /// Reads what stands behind the last line feed of the old file as its last line.
    pub fn flush(&mut self, source: EventSource) -> (next: Option<Next>)
        ensures
            final(self)@.wf(),
            match next {
                Some(step) => {
                    &&& old(self)@.pending(source).len() > 0
                    &&& (final(self)@, step@) == old(self)@.with_pending(
                        source,
                        old(self)@.pending(source).push('\n'),
                    ).next_in_lines(source)
                },
                None => old(self)@.pending(source).len() == 0 && final(self)@ == old(self)@,
            },
    {
        proof {
            use_type_invariant(&self.order_diff_cache);
            use_type_invariant(&self.order_status_cache);
        }
        let ghost before = self@;
        match self.pending_mut(source).take_tail() {
            Some(text) => {
                assert(Seq::<char>::empty() + text@ =~= before.pending(source).push('\n'));
                let next = self.process_data(text.as_str(), source);
                Some(next)
            },
            None => {
                assert(before.pending(source) =~= Seq::<char>::empty());
                assert(self@ =~= before);
                None
            },
        }
    }

    /// Whether the old file was read to its end, or else what is said of it.
    pub fn check_flushed(&self, source: EventSource) -> (flushed: Result<(), String>)
        ensures
            match flushed {
                Ok(_) => self@.pending(source).len() == 0,
                Err(complaint) => {
                    &&& self@.pending(source).len() > 0
                    &&& complaint@ == source.label() + " file ended with a partial JSON record"@
                },
            },
    {
        let done = match source {
            EventSource::Fills => self.fill_pending.is_empty(),
            EventSource::OrderStatuses => self.order_status_pending.is_empty(),
            EventSource::OrderDiffs => self.order_diff_pending.is_empty(),
        };
        if done {
            Ok(())
        } else {
            Err(join(source.name(), " file ended with a partial JSON record"))
        }
    }

    /// A file of the stream is being read from a fresh start.
    pub fn file_opened(&mut self, source: EventSource)
        ensures
            final(self)@ == old(self)@.started(source),
    {
        self.pending_mut(source).clear();
        match source {
            EventSource::Fills => {
                self.fills_read = true;
            },
            EventSource::OrderStatuses => {
                self.statuses_read = true;
            },
            EventSource::OrderDiffs => {
                self.diffs_read = true;
            },
        }
    }
}

} // verus!
