//! What the node writes: order diffs, order statuses and fills, in batches of one block.

use crate::address::Address;
use crate::book::{Coin, L4Order, Oid, Px, Side};
use crate::text::{join, strip_end};
use crate::time::Timestamp;
use vstd::prelude::*;

verus! {

/// What happened to an order that rests in the book.
#[derive(Debug, PartialEq, Eq)]
pub enum OrderDiff {
    New { sz: String },
    Update { orig_sz: String, new_sz: String },
    Remove,
}

impl Clone for OrderDiff {
    fn clone(&self) -> (copy: OrderDiff)
        ensures
            copy == *self,
    {
        match self {
            OrderDiff::New { sz } => OrderDiff::New { sz: sz.clone() },
            OrderDiff::Update { orig_sz, new_sz } => OrderDiff::Update {
                orig_sz: orig_sz.clone(),
                new_sz: new_sz.clone(),
            },
            OrderDiff::Remove => OrderDiff::Remove,
        }
    }
}

/// One change to the book. `price` is the price that the text `px` stands for, where it stands
/// for one.
#[derive(Debug, PartialEq, Eq)]
pub struct NodeDataOrderDiff {
    pub user: Address,
    pub oid: u64,
    pub px: String,
    pub price: Option<Px>,
    pub coin: Coin,
    pub raw_book_diff: OrderDiff,
}

impl Clone for NodeDataOrderDiff {
    fn clone(&self) -> (copy: NodeDataOrderDiff)
        ensures
            copy == *self,
    {
        NodeDataOrderDiff {
            user: self.user,
            oid: self.oid,
            px: self.px.clone(),
            price: self.price,
            coin: self.coin.clone(),
            raw_book_diff: self.raw_book_diff.clone(),
        }
    }
}

impl NodeDataOrderDiff {
    /// What happened to the order.
    pub fn diff(&self) -> (diff: OrderDiff)
        ensures
            diff == self.raw_book_diff,
    {
        self.raw_book_diff.clone()
    }

    /// The order's number.
    pub fn oid(&self) -> (oid: Oid)
        ensures
            oid == (Oid { raw: self.oid }),
    {
        Oid::new(self.oid)
    }

    /// The order's coin.
    pub fn coin(&self) -> (coin: Coin)
        ensures
            coin == self.coin,
    {
        self.coin.clone()
    }

    /// The user named by the diff.
    pub fn user(&self) -> (user: Address)
        ensures
            user == self.user,
    {
        self.user
    }

    /// The order's number, as a plain integer.
    pub fn raw_oid(&self) -> (oid: u64)
        ensures
            oid == self.oid,
    {
        self.oid
    }
}

/// One side of a match. `rest` holds the fields that no rule reads, in the form in which they
/// arrived.
#[derive(Debug, PartialEq, Eq)]
pub struct Fill {
    pub coin: String,
    pub side: Side,
    pub rest: String,
}

impl Clone for Fill {
    fn clone(&self) -> (copy: Fill)
        ensures
            copy == *self,
    {
        Fill { coin: self.coin.clone(), side: self.side, rest: self.rest.clone() }
    }
}

/// A user and one side of a match.
#[derive(Debug, PartialEq, Eq)]
pub struct NodeDataFill(pub Address, pub Fill);

impl Clone for NodeDataFill {
    fn clone(&self) -> (copy: NodeDataFill)
        ensures
            copy == *self,
    {
        NodeDataFill(self.0, self.1.clone())
    }
}

/// A change of an order's status.
#[derive(Debug, PartialEq, Eq)]
pub struct NodeDataOrderStatus {
    pub time: Timestamp,
    pub user: Address,
    pub status: String,
    pub order: L4Order,
}

impl Clone for NodeDataOrderStatus {
    fn clone(&self) -> (copy: NodeDataOrderStatus)
        ensures
            copy == *self,
    {
        NodeDataOrderStatus {
            time: self.time,
            user: self.user,
            status: self.status.clone(),
            order: self.order.clone(),
        }
    }
}

/// Whether an optional text is the given text.
pub open spec fn is_text(text: Option<String>, wanted: Seq<char>) -> bool {
    text matches Some(found) && found@ == wanted
}

impl NodeDataOrderStatus {
    /// Whether the order came to rest in the book with this status: a plain order that is open
    /// and not immediate-or-cancel, or a trigger order that has been triggered.
    pub open spec fn enters_book(self) -> bool {
        if self.order.is_trigger {
            self.status@ == "triggered"@
        } else {
            self.status@ == "open"@ && !is_text(self.order.tif, "Ioc"@)
        }
    }

    /// Whether the order came to rest in the book with this status.
    pub fn is_inserted_into_book(&self) -> (inserted: bool)
        ensures
            inserted == self.enters_book(),
    {
        let immediate = match &self.order.tif {
            Some(tif) => *tif == "Ioc".to_owned(),
            None => false,
        };
        (self.status == "open".to_owned() && !self.order.is_trigger && !immediate)
            || (self.order.is_trigger && self.status == "triggered".to_owned())
    }
}

/// The three streams of files that the node writes.
#[derive(Clone, Copy, Debug, PartialEq, Eq, Structural)]
pub enum EventSource {
    Fills,
    OrderStatuses,
    OrderDiffs,
}

/// `tail` adjoined to the directory `dir`, with one slash between them; an empty directory name
/// leaves `tail` as it is.
pub open spec fn adjoin(dir: Seq<char>, tail: Seq<char>) -> Seq<char> {
    if dir.len() == 0 || dir.last() == '/' {
        dir + tail
    } else {
        dir.push('/') + tail
    }
}

impl EventSource {
    /// The stream's name, as it is written in messages.
    pub open spec fn label(self) -> Seq<char> {
        match self {
            EventSource::Fills => "Fills"@,
            EventSource::OrderStatuses => "OrderStatuses"@,
            EventSource::OrderDiffs => "OrderDiffs"@,
        }
    }

    /// The stream's name, as it is written in messages.
    pub fn name(self) -> (name: &'static str)
        ensures
            name@ == self.label(),
    {
        match self {
            EventSource::Fills => "Fills",
            EventSource::OrderStatuses => "OrderStatuses",
            EventSource::OrderDiffs => "OrderDiffs",
        }
    }

    /// Where the stream's files stand below the node's home directory.
    pub open spec fn place(self, streaming: bool) -> Seq<char> {
        let stem = match self {
            EventSource::Fills => "hl/data/node_fills"@,
            EventSource::OrderStatuses => "hl/data/node_order_statuses"@,
            EventSource::OrderDiffs => "hl/data/node_raw_book_diffs"@,
        };
        stem + if streaming {
            "_streaming"@
        } else {
            "_by_block"@
        }
    }

    /// The directory of the stream's files, by block.
    pub fn event_source_dir(self, dir: &str) -> (path: String)
        ensures
            path@ == adjoin(dir@, self.place(false)),
    {
        self.event_source_dir_streaming(dir, false)
    }

    /// The directory of the stream's files, as they are written within a block or by block.
    pub fn event_source_dir_streaming(self, dir: &str, streaming: bool) -> (path: String)
        ensures
            path@ == adjoin(dir@, self.place(streaming)),
    {
        let suffix = if streaming {
            "_streaming"
        } else {
            "_by_block"
        };
        let tail = match self {
            EventSource::Fills => join("hl/data/node_fills", suffix),
            EventSource::OrderStatuses => join("hl/data/node_order_statuses", suffix),
            EventSource::OrderDiffs => join("hl/data/node_raw_book_diffs", suffix),
        };
        let whole = dir.is_empty() || strip_end(dir, '/').is_some();
        if whole {
            join(dir, tail.as_str())
        } else {
            let base = join(dir, "/");
            proof {
                reveal_strlit("/");
                assert(base@ =~= dir@.push('/'));
            }
            join(base.as_str(), tail.as_str())
        }
    }
}

/// The events of one block, with the time at which the node wrote them down, the block's time and
/// the block's number.
#[derive(Debug, PartialEq, Eq)]
pub struct Batch<E> {
    local_time: Timestamp,
    block_time: Timestamp,
    block_number: u64,
    events: Vec<E>,
}

/// What a batch holds.
#[verifier::ext_equal]
pub struct BatchView<E> {
    pub local_time: Timestamp,
    pub block_time: Timestamp,
    pub block_number: u64,
    pub events: Seq<E>,
}

impl<E> BatchView<E> {
    /// Whether the block's time is on the calendar and not before 1970.
    pub open spec fn dated(self) -> bool {
        self.block_time.on_calendar() && self.block_time.millis() >= 0
    }

    /// A batch of the same block without events.
    pub open spec fn emptied<T>(self) -> BatchView<T> {
        BatchView {
            local_time: self.local_time,
            block_time: self.block_time,
            block_number: self.block_number,
            events: Seq::<T>::empty(),
        }
    }

    /// The batch with the events of `other` behind its own.
    pub open spec fn extended(self, other: BatchView<E>) -> BatchView<E> {
        BatchView { events: self.events + other.events, ..self }
    }
}

impl<E> View for Batch<E> {
    type V = BatchView<E>;

    closed spec fn view(&self) -> BatchView<E> {
        BatchView {
            local_time: self.local_time,
            block_time: self.block_time,
            block_number: self.block_number,
            events: self.events@,
        }
    }
}

/// Whether a copy of an event is that event.
pub open spec fn copies_exactly<E: Clone>() -> bool {
    forall|event: E, copy: E| #[trigger] cloned::<E>(event, copy) ==> event == copy
}

impl<E> Batch<E> {
    /// A batch of the given block.
    pub fn new(local_time: Timestamp, block_time: Timestamp, block_number: u64, events: Vec<E>) -> (batch: Batch<E>)
        ensures
            batch@ == (BatchView { local_time, block_time, block_number, events: events@ }),
    {
        Batch { local_time, block_time, block_number, events }
    }

    /// The block's time, in milliseconds since the start of 1970.
    pub fn block_time(&self) -> (time: u64)
        requires
            self@.dated(),
        ensures
            time == self@.block_time.millis(),
    {
        match self.block_time.timestamp_millis() {
            Some(millis) => millis as u64,
            None => 0,
        }
    }

    /// Whether the block's time is on the calendar and not before 1970, so that `block_time`
    /// can be asked for it.
    pub fn is_dated(&self) -> (dated: bool)
        ensures
            dated == self@.dated(),
    {
        match self.block_time.timestamp_millis() {
            Some(millis) => millis >= 0,
            None => false,
        }
    }

    /// The block's number.
    pub fn block_number(&self) -> (number: u64)
        ensures
            number == self@.block_number,
    {
        self.block_number
    }

    /// The events.
    pub fn events(self) -> (events: Vec<E>)
        ensures
            events@ == self@.events,
    {
        self.events
    }

    /// The events, borrowed.
    pub fn events_ref(&self) -> (events: &[E])
        ensures
            events@ == self@.events,
    {
        self.events.as_slice()
    }

    /// Puts the events of `other` behind this batch's own.
    pub fn extend_events(&mut self, other: Batch<E>)
        ensures
            final(self)@ == old(self)@.extended(other@),
    {
        let mut more = other.events;
        self.events.append(&mut more);
    }

    /// A batch of the same block without events.
    pub fn empty_with_metadata<T>(&self) -> (empty: Batch<T>)
        ensures
            empty@ == self@.emptied::<T>(),
    {
        Batch {
            local_time: self.local_time,
            block_time: self.block_time,
            block_number: self.block_number,
            events: Vec::new(),
        }
    }

    /// A copy of the batch.
    pub fn duplicate(&self) -> (copy: Batch<E>) where E: Clone
        requires
            copies_exactly::<E>(),
        ensures
            copy@ == self@,
    {
        let events = self.events.clone();
        assert(events@ =~= self.events@) by {
            assert forall|i: int| 0 <= i < events@.len() implies events@[i] == self.events@[i] by {
                assert(cloned::<E>(self.events@[i], events@[i]));
            }
        }
        Batch {
            local_time: self.local_time,
            block_time: self.block_time,
            block_number: self.block_number,
            events,
        }
    }
}

} // verus!
